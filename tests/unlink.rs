use rattler::path::{goes_first, string_before, RelativePath};
use rattler::unlink::{
    decide_prune, file_removal_result, parent_directories, record_removal_result,
    DirectoryListing, PruneAction, PruneDecision, PruneEvent, Pruner, RemovalOutcome,
    UnlinkError,
};
use std::collections::BTreeSet;

/// An environment held in memory: the directories and files below its root.
struct Tree {
    dirs: BTreeSet<Vec<String>>,
    files: BTreeSet<Vec<String>>,
}

fn split(p: &str) -> Vec<String> {
    p.split('/').filter(|c| !c.is_empty()).map(|c| c.to_string()).collect()
}

impl Tree {
    fn new() -> Self {
        Tree { dirs: BTreeSet::new(), files: BTreeSet::new() }
    }

    fn add_file(&mut self, p: &str) {
        let c = split(p);
        for n in 1..c.len() {
            self.dirs.insert(c[..n].to_vec());
        }
        self.files.insert(c);
    }

    fn add_dir(&mut self, p: &str) {
        let c = split(p);
        for n in 1..=c.len() {
            self.dirs.insert(c[..n].to_vec());
        }
    }

    fn remove_file(&mut self, p: &[String]) -> RemovalOutcome {
        if self.files.remove(p) {
            RemovalOutcome::Removed
        } else {
            RemovalOutcome::Failed { not_found: true, cause: "not found".to_string() }
        }
    }

    fn children(&self, d: &[String]) -> Vec<String> {
        let mut names = BTreeSet::new();
        for p in self.dirs.iter().chain(self.files.iter()) {
            if p.len() == d.len() + 1 && p[..d.len()] == *d {
                names.insert(p[d.len()].clone());
            }
        }
        names.into_iter().collect()
    }

    fn list(&self, d: &[String]) -> DirectoryListing {
        if !self.dirs.contains(d) {
            return DirectoryListing::Missing;
        }
        DirectoryListing::Entries(self.children(d))
    }

    fn remove_tree(&mut self, d: &[String]) {
        self.dirs.retain(|p| !(p.len() >= d.len() && p[..d.len()] == *d));
        self.files.retain(|p| !(p.len() >= d.len() && p[..d.len()] == *d));
    }

    fn root_entries(&self) -> Vec<String> {
        self.children(&[])
    }
}

/// Removes a package the way an installer would, reporting each outcome to the library.
fn unlink(tree: &mut Tree, files: &[&str], noarch: bool, record: &str) -> Result<(), UnlinkError> {
    let paths: Vec<RelativePath> =
        files.iter().map(|f| RelativePath { components: split(f) }).collect();
    for (f, p) in files.iter().zip(paths.iter()) {
        let outcome = tree.remove_file(&p.components);
        file_removal_result(&f.to_string(), outcome)?;
    }
    let mut pruner = Pruner::new(&paths, noarch);
    let mut action = pruner.step(PruneEvent::Start);
    loop {
        action = match action {
            PruneAction::Inspect(d) => {
                let listing = tree.list(&d.components);
                pruner.step(PruneEvent::Listed(listing))
            }
            PruneAction::RemoveDir(d) => {
                assert!(tree.children(&d.components).is_empty());
                tree.remove_tree(&d.components);
                pruner.step(PruneEvent::Removed)
            }
            PruneAction::RemoveDirAll(d) => {
                tree.remove_tree(&d.components);
                pruner.step(PruneEvent::Removed)
            }
            PruneAction::Finished => break,
        };
    }
    let record_path = format!("conda-meta/{}", record);
    let outcome = tree.remove_file(&split(&record_path));
    record_removal_result(&record_path, outcome)
}

fn with_record(tree: &mut Tree, record: &str) {
    tree.add_file(&format!("conda-meta/{}", record));
}

#[test]
fn test_unlink_package() {
    let mut tree = Tree::new();
    let files = [
        "bin/ruff",
        "lib/python3.10/site-packages/ruff-0.0.171.dist-info/METADATA",
        "lib/python3.10/site-packages/ruff-0.0.171.dist-info/RECORD",
        "lib/python3.10/site-packages/ruff/__init__.py",
        "lib/python3.10/site-packages/ruff/__main__.py",
    ];
    for f in files.iter() {
        tree.add_file(f);
    }
    let record = "ruff-0.0.171-py310h298983d_0.json";
    with_record(&mut tree, record);
    unlink(&mut tree, &files, false, record).unwrap();
    assert!(!tree.files.contains(&split(&format!("conda-meta/{}", record))));
    let entries = tree.root_entries();
    assert_eq!(entries.len(), 1);
    assert_eq!(entries[0], "conda-meta");
}

#[test]
fn test_unlink_package_python_noarch() {
    let mut tree = Tree::new();
    let files = [
        "lib/python3.10/site-packages/pytweening/__init__.py",
        "lib/python3.10/site-packages/pytweening-1.0.4.dist-info/METADATA",
    ];
    for f in files.iter() {
        tree.add_file(f);
    }
    let record = "pytweening-1.0.4-pyhd8ed1ab_0.json";
    with_record(&mut tree, record);
    tree.add_dir("lib/python3.10/site-packages/pytweening/__pycache__");
    tree.add_file("lib/python3.10/site-packages/pytweening/__pycache__/__init__.cpython-310.pyc");
    unlink(&mut tree, &files, true, record).unwrap();
    assert!(!tree.files.contains(&split(&format!("conda-meta/{}", record))));
    let entries = tree.root_entries();
    assert_eq!(entries.len(), 1);
    assert_eq!(entries[0], "conda-meta");
}

#[test]
fn unlink_without_files_removes_only_the_record() {
    let mut tree = Tree::new();
    tree.add_file("bin/other");
    with_record(&mut tree, "empty-1.0-0.json");
    unlink(&mut tree, &[], false, "empty-1.0-0.json").unwrap();
    assert!(tree.files.contains(&split("bin/other")));
    assert!(tree.dirs.contains(&split("conda-meta")));
    assert!(!tree.files.contains(&split("conda-meta/empty-1.0-0.json")));
    assert_eq!(tree.root_entries(), vec!["bin".to_string(), "conda-meta".to_string()]);
}

#[test]
fn unlink_removes_empty_chain_up_to_root() {
    let mut tree = Tree::new();
    let files = ["lib/a/b.txt", "lib/a/c.txt"];
    for f in files.iter() {
        tree.add_file(f);
    }
    with_record(&mut tree, "pkg-1-0.json");
    unlink(&mut tree, &files, false, "pkg-1-0.json").unwrap();
    assert!(!tree.dirs.contains(&split("lib/a")));
    assert!(!tree.dirs.contains(&split("lib")));
    assert_eq!(tree.root_entries(), vec!["conda-meta".to_string()]);
}

#[test]
fn unlink_keeps_other_packages_files() {
    let mut tree = Tree::new();
    let files = ["lib/a/b.txt", "lib/x/y/z.txt"];
    for f in files.iter() {
        tree.add_file(f);
    }
    tree.add_file("lib/a/other.txt");
    tree.add_file("share/keep.txt");
    with_record(&mut tree, "pkg-1-0.json");
    unlink(&mut tree, &files, false, "pkg-1-0.json").unwrap();
    assert!(tree.files.contains(&split("lib/a/other.txt")));
    assert!(tree.files.contains(&split("share/keep.txt")));
    assert!(tree.dirs.contains(&split("lib/a")));
    assert!(tree.dirs.contains(&split("lib")));
    assert!(!tree.dirs.contains(&split("lib/x")));
    assert!(!tree.files.contains(&split("lib/a/b.txt")));
}

#[test]
fn unlink_keeps_cache_of_package_that_is_not_noarch() {
    let mut tree = Tree::new();
    let files = ["lib/m/__init__.py"];
    tree.add_file(files[0]);
    tree.add_file("lib/m/__pycache__/__init__.pyc");
    with_record(&mut tree, "m-1-0.json");
    unlink(&mut tree, &files, false, "m-1-0.json").unwrap();
    assert!(tree.files.contains(&split("lib/m/__pycache__/__init__.pyc")));
    assert!(tree.dirs.contains(&split("lib/m")));
}

#[test]
fn unlink_twice_fails_at_the_record() {
    let mut tree = Tree::new();
    let files = ["lib/a/b.txt"];
    tree.add_file(files[0]);
    with_record(&mut tree, "pkg-1-0.json");
    unlink(&mut tree, &files, false, "pkg-1-0.json").unwrap();
    match unlink(&mut tree, &files, false, "pkg-1-0.json") {
        Err(UnlinkError::FailedToDeleteFile(p, _)) => assert_eq!(p, "conda-meta/pkg-1-0.json"),
        _ => panic!("expected a failure on the record"),
    }
}

#[test]
fn missing_file_counts_as_removed() {
    let outcome = RemovalOutcome::Failed { not_found: true, cause: "gone".to_string() };
    assert!(file_removal_result(&"a/b".to_string(), outcome).is_ok());
    assert!(file_removal_result(&"a/b".to_string(), RemovalOutcome::Removed).is_ok());
}

#[test]
fn failed_file_removal_is_an_error() {
    let outcome = RemovalOutcome::Failed { not_found: false, cause: "denied".to_string() };
    match file_removal_result(&"a/b".to_string(), outcome) {
        Err(UnlinkError::FailedToDeleteFile(p, c)) => {
            assert_eq!(p, "a/b");
            assert_eq!(c, "denied");
        }
        _ => panic!("expected FailedToDeleteFile"),
    }
}

#[test]
fn missing_record_is_an_error() {
    let outcome = RemovalOutcome::Failed { not_found: true, cause: "gone".to_string() };
    assert!(matches!(
        record_removal_result(&"conda-meta/x.json".to_string(), outcome),
        Err(UnlinkError::FailedToDeleteFile(_, _))
    ));
}

#[test]
fn parent_directories_are_unique() {
    let paths: Vec<RelativePath> = ["lib/a/b.txt", "lib/a/c.txt", "top.txt", "lib/d.txt"]
        .iter()
        .map(|f| RelativePath { components: split(f) })
        .collect();
    let dirs = parent_directories(&paths);
    let got: Vec<Vec<String>> = dirs.into_iter().map(|d| d.components).collect();
    assert_eq!(got, vec![split("lib/a"), split("lib")]);
}

#[test]
fn prune_rule_cases() {
    let root = RelativePath { components: vec![] };
    let dir = RelativePath { components: split("lib/m") };
    let empty = DirectoryListing::Entries(vec![]);
    let cache = DirectoryListing::Entries(vec!["__pycache__".to_string()]);
    let other = DirectoryListing::Entries(vec!["x.py".to_string()]);
    assert_eq!(decide_prune(&root, &empty, true), PruneDecision::Keep);
    assert_eq!(decide_prune(&dir, &empty, false), PruneDecision::RemoveEmpty);
    assert_eq!(decide_prune(&dir, &cache, true), PruneDecision::RemoveWithCache);
    assert_eq!(decide_prune(&dir, &cache, false), PruneDecision::Keep);
    assert_eq!(decide_prune(&dir, &other, true), PruneDecision::Keep);
    assert_eq!(decide_prune(&dir, &DirectoryListing::Missing, true), PruneDecision::Keep);
}

#[test]
fn deepest_directory_is_inspected_first() {
    let paths: Vec<RelativePath> = ["a/b.txt", "c/d/e/f.txt", "g/h/i.txt"]
        .iter()
        .map(|f| RelativePath { components: split(f) })
        .collect();
    let mut pruner = Pruner::new(&paths, false);
    match pruner.step(PruneEvent::Start) {
        PruneAction::Inspect(d) => assert_eq!(d.components, split("c/d/e")),
        _ => panic!("expected an inspection"),
    }
}

#[test]
fn parent_of_path() {
    let p = RelativePath { components: split("lib/a/b.txt") };
    assert_eq!(p.parent().components, split("lib/a"));
    assert!(!p.is_root());
    assert!(RelativePath { components: vec![] }.is_root());
}

#[test]
fn same_depth_is_taken_in_reverse_lexicographic_order() {
    let paths: Vec<RelativePath> = ["a/x/1.txt", "a/y/2.txt", "a/b/3.txt"]
        .iter()
        .map(|f| RelativePath { components: split(f) })
        .collect();
    let mut pruner = Pruner::new(&paths, false);
    match pruner.step(PruneEvent::Start) {
        PruneAction::Inspect(d) => assert_eq!(d.components, split("a/y")),
        _ => panic!("expected an inspection"),
    }
}

#[test]
fn string_and_path_order() {
    assert!(string_before(&"abc".to_string(), &"abd".to_string()));
    assert!(string_before(&"ab".to_string(), &"abc".to_string()));
    assert!(!string_before(&"abc".to_string(), &"abc".to_string()));
    assert!(!string_before(&"b".to_string(), &"abc".to_string()));
    let deep = RelativePath { components: split("a/b/c") };
    let shallow = RelativePath { components: split("z/z") };
    assert!(goes_first(&deep, &shallow));
    assert!(!goes_first(&shallow, &deep));
    let x = RelativePath { components: split("a/x") };
    let y = RelativePath { components: split("a/y") };
    assert!(goes_first(&y, &x));
    assert!(!goes_first(&x, &x));
}
