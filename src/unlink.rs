//! The decisions of removing an installed package from an environment.
//!
//! The filesystem work is done by the caller, which reports each outcome back:
//! file removals go through [`file_removal_result`], the pruning of directories that
//! became empty is driven by a [`Pruner`], and the removal of the package's own
//! metadata record goes through [`record_removal_result`].

use vstd::prelude::*;
use crate::lock_data::strings_view;
use crate::path::{
    deeper_first, goes_first, is_strict_ancestor, lemma_deeper_first_transitive,
    lemma_path_before_irreflexive, paths_view, strict_ancestor, RelativePath,
};

verus! {

/// Error that can occur while unlinking a package: the offending path and the cause.
#[derive(Debug)]
pub enum UnlinkError {
    /// Failed to delete a directory.
    FailedToDeleteDirectory(String, String),
    /// Failed to delete a file.
    FailedToDeleteFile(String, String),
    /// Failed to read a directory.
    FailedToReadDirectory(String, String),
}

/// What came of removing one file.
#[derive(Debug)]
pub enum RemovalOutcome {
    /// The file was removed.
    Removed,
    /// The removal failed; `not_found` tells whether the file was not there.
    Failed { not_found: bool, cause: String },
}

/// The result of removing a file that the package owns: a file that is already
/// gone counts as removed, any other failure is an error naming `relative_path`.
pub fn file_removal_result(relative_path: &String, outcome: RemovalOutcome) -> (r: Result<
    (),
    UnlinkError,
>)
    ensures
        match outcome {
            RemovalOutcome::Removed => r is Ok,
            RemovalOutcome::Failed { not_found, cause } => if not_found {
                r is Ok
            } else {
                r matches Err(UnlinkError::FailedToDeleteFile(p, c)) && p@ == relative_path@
                    && c@ == cause@
            },
        },
{
    match outcome {
        RemovalOutcome::Removed => Ok(()),
        RemovalOutcome::Failed { not_found, cause } => {
            if not_found {
                Ok(())
            } else {
                Err(UnlinkError::FailedToDeleteFile(relative_path.clone(), cause))
            }
        },
    }
}

/// The result of removing the package's metadata record: every failure is an
/// error naming `record_path`, a missing record included.
pub fn record_removal_result(record_path: &String, outcome: RemovalOutcome) -> (r: Result<
    (),
    UnlinkError,
>)
    ensures
        match outcome {
            RemovalOutcome::Removed => r is Ok,
            RemovalOutcome::Failed { not_found, cause } => r matches Err(
                UnlinkError::FailedToDeleteFile(p, c),
            ) && p@ == record_path@ && c@ == cause@,
        },
{
    match outcome {
        RemovalOutcome::Removed => Ok(()),
        RemovalOutcome::Failed { not_found, cause } => Err(
            UnlinkError::FailedToDeleteFile(record_path.clone(), cause),
        ),
    }
}

/// The directories below the root that hold one of `paths`.
pub open spec fn parent_set(paths: Seq<Seq<Seq<char>>>) -> Set<Seq<Seq<char>>> {
    Set::new(
        |d: Seq<Seq<char>>|
            exists|i: int| 0 <= i < paths.len() && paths[i].len() >= 2 && paths[i].drop_last() == d,
    )
}

/// Whether `v` holds a path equal to `p`.
fn contains_path(v: &Vec<RelativePath>, p: &RelativePath) -> (r: bool)
    ensures
        r == paths_view(v@).contains(p@),
{
    let mut i: usize = 0;
    while i < v.len()
        invariant
            i <= v@.len(),
            forall|k: int| 0 <= k < i ==> v@[k]@ != p@,
        decreases v@.len() - i,
    {
        if v[i].same_path(p) {
            assert(paths_view(v@)[i as int] == p@);
            return true;
        }
        i = i + 1;
    }
    proof {
        if paths_view(v@).contains(p@) {
            let k = choose|k: int| 0 <= k < paths_view(v@).len() && paths_view(v@)[k] == p@;
            assert(v@[k]@ == p@);
        }
    }
    false
}

/// The distinct directories below the root that hold the given files, each once.
pub fn parent_directories(paths: &Vec<RelativePath>) -> (r: Vec<RelativePath>)
    ensures
        paths_view(r@).no_duplicates(),
        paths_view(r@).to_set() == parent_set(paths_view(paths@)),
{
    let mut r: Vec<RelativePath> = Vec::new();
    let mut i: usize = 0;
    while i < paths.len()
        invariant
            i <= paths@.len(),
            paths_view(r@).no_duplicates(),
            paths_view(r@).to_set() == parent_set(paths_view(paths@.subrange(0, i as int))),
        decreases paths@.len() - i,
    {
        let ghost before = paths_view(r@);
        let ghost prev = paths_view(paths@.subrange(0, i as int));
        let ghost next = paths_view(paths@.subrange(0, i as int + 1));
        assert(next =~= prev.push(paths@[i as int]@));
        if paths[i].components.len() >= 2 {
            let parent = paths[i].parent();
            if !contains_path(&r, &parent) {
                r.push(parent);
                assert(paths_view(r@) =~= before.push(parent@));
            }
        }
        proof {
            let now = paths_view(r@);
            assert(now.no_duplicates()) by {
                assert forall|a: int, b: int|
                    0 <= a < now.len() && 0 <= b < now.len() && a != b implies now[a] != now[b] by {
                    if a < before.len() && b < before.len() {
                        assert(now[a] == before[a] && now[b] == before[b]);
                    } else if a >= before.len() {
                        assert(now[b] == before[b]);
                    } else {
                        assert(now[a] == before[a]);
                    }
                }
            }
            assert forall|d: Seq<Seq<char>>| now.to_set().contains(d) == parent_set(next).contains(d) by {
                if now.to_set().contains(d) {
                    let k = choose|k: int| 0 <= k < now.len() && now[k] == d;
                    if k < before.len() {
                        assert(before[k] == d);
                        assert(before.to_set().contains(d));
                        let j = choose|j: int| 0 <= j < prev.len() && prev[j].len() >= 2 && prev[j].drop_last() == d;
                        assert(next[j] == prev[j]);
                    } else {
                        assert(next[i as int] == paths@[i as int]@);
                    }
                }
                if parent_set(next).contains(d) {
                    let j = choose|j: int| 0 <= j < next.len() && next[j].len() >= 2 && next[j].drop_last() == d;
                    if j < i {
                        assert(prev[j] == next[j]);
                        assert(parent_set(prev).contains(d));
                        assert(before.to_set().contains(d));
                        let k = choose|k: int| 0 <= k < before.len() && before[k] == d;
                        assert(now[k] == d);
                    } else {
                        assert(next[j] == paths@[i as int]@);
                        if before.contains(d) {
                            let k = choose|k: int| 0 <= k < before.len() && before[k] == d;
                            assert(now[k] == d);
                        } else {
                            assert(now[before.len() as int] == d);
                        }
                    }
                }
            }
            assert(now.to_set() =~= parent_set(next));
        }
        i = i + 1;
    }
    assert(paths@.subrange(0, paths@.len() as int) =~= paths@);
    r
}

/// What a directory held when it was read.
#[derive(Debug)]
pub enum DirectoryListing {
    /// The directory is not there.
    Missing,
    /// The names of its entries.
    Entries(Vec<String>),
}

impl DirectoryListing {
    /// The entry names, or `None` for a directory that is not there.
    pub open spec fn entries(&self) -> Option<Seq<Seq<char>>> {
        match self {
            DirectoryListing::Missing => None,
            DirectoryListing::Entries(e) => Some(strings_view(e@)),
        }
    }
}

/// What to do with a directory on the way up from a removed file.
#[derive(Clone, Copy, Debug, PartialEq, Eq, Structural)]
pub enum PruneDecision {
    /// Leave it, and stop going up.
    Keep,
    /// It is empty: remove it and go on with its parent.
    RemoveEmpty,
    /// It holds only a bytecode cache: remove both and go on with its parent.
    RemoveWithCache,
}

/// The name of the bytecode cache directory of python.
pub open spec fn cache_dir_name() -> Seq<char> {
    "__pycache__"@
}

/// The pruning rule: the root and missing directories are kept; an empty directory
/// is removed; for a python noarch package, so is one whose only entry is the
/// bytecode cache; everything else is kept.
pub open spec fn prune_rule(
    dir: Seq<Seq<char>>,
    entries: Option<Seq<Seq<char>>>,
    is_python_noarch: bool,
) -> PruneDecision {
    if dir.len() == 0 {
        PruneDecision::Keep
    } else {
        match entries {
            None => PruneDecision::Keep,
            Some(e) => if e.len() == 0 {
                PruneDecision::RemoveEmpty
            } else if is_python_noarch && e.len() == 1 && e[0] == cache_dir_name() {
                PruneDecision::RemoveWithCache
            } else {
                PruneDecision::Keep
            },
        }
    }
}

/// Applies the pruning rule to a directory as it was read.
pub fn decide_prune(dir: &RelativePath, listing: &DirectoryListing, is_python_noarch: bool) -> (r:
    PruneDecision)
    ensures
        r == prune_rule(dir@, listing.entries(), is_python_noarch),
{
    if dir.is_root() {
        return PruneDecision::Keep;
    }
    match listing {
        DirectoryListing::Missing => PruneDecision::Keep,
        DirectoryListing::Entries(e) => {
            if e.len() == 0 {
                PruneDecision::RemoveEmpty
            } else if is_python_noarch && e.len() == 1 {
                let cache = String::from_str("__pycache__");
                if e[0] == cache {
                    assert(strings_view(e@)[0] == e@[0]@);
                    PruneDecision::RemoveWithCache
                } else {
                    assert(strings_view(e@)[0] == e@[0]@);
                    PruneDecision::Keep
                }
            } else {
                PruneDecision::Keep
            }
        },
    }
}

/// The state of pruning: which directory is being looked at, or removed.
#[derive(Debug)]
pub enum PrunePhase {
    Idle,
    Inspecting(RelativePath),
    Removing(RelativePath),
}

/// What the pruner is told.
#[derive(Debug)]
pub enum PruneEvent {
    /// Begin.
    Start,
    /// The directory that was to be inspected was read.
    Listed(DirectoryListing),
    /// The directory that was to be removed is gone.
    Removed,
}

/// What the pruner asks for next.
#[derive(Debug)]
pub enum PruneAction {
    /// Read this directory and report [`PruneEvent::Listed`].
    Inspect(RelativePath),
    /// Remove this empty directory and report [`PruneEvent::Removed`].
    RemoveDir(RelativePath),
    /// Remove this directory with its bytecode cache and report [`PruneEvent::Removed`].
    RemoveDirAll(RelativePath),
    /// Nothing is left to do.
    Finished,
}

/// Removes the directories that a package's files leave empty, deepest first,
/// walking up from each toward the root and never removing the root.
pub struct Pruner {
    candidates: Vec<RelativePath>,
    phase: PrunePhase,
    is_python_noarch: bool,
}

impl Pruner {
    /// The directories that are still to be walked up from.
    pub closed spec fn candidate_set(&self) -> Set<Seq<Seq<char>>> {
        paths_view(self.candidates@).to_set()
    }

    /// The directory being inspected, if one is.
    pub closed spec fn inspecting(&self) -> Option<Seq<Seq<char>>> {
        match self.phase {
            PrunePhase::Inspecting(d) => Some(d@),
            _ => None,
        }
    }

    /// The directory being removed, if one is.
    pub closed spec fn removing(&self) -> Option<Seq<Seq<char>>> {
        match self.phase {
            PrunePhase::Removing(d) => Some(d@),
            _ => None,
        }
    }

    pub closed spec fn python_noarch(&self) -> bool {
        self.is_python_noarch
    }

    /// No candidate, and no directory being looked at, is the root.
    pub closed spec fn wf(&self) -> bool {
        &&& forall|k: int| 0 <= k < self.candidates@.len() ==> (#[trigger] self.candidates@[k])@.len() > 0
        &&& match self.phase {
            PrunePhase::Idle => true,
            PrunePhase::Inspecting(d) => d@.len() > 0,
            PrunePhase::Removing(d) => d@.len() > 0,
        }
    }

    /// Whether `event` answers what the pruner asked last.
    pub open spec fn accepts(&self, event: &PruneEvent) -> bool {
        match event {
            PruneEvent::Start => self.inspecting() is None && self.removing() is None,
            PruneEvent::Listed(_) => self.inspecting() is Some,
            PruneEvent::Removed => self.removing() is Some,
        }
    }

    /// A pruner for the directories that hold the removed files `paths`.
    pub fn new(paths: &Vec<RelativePath>, is_python_noarch: bool) -> (r: Self)
        ensures
            r.wf(),
            r.candidate_set() == parent_set(paths_view(paths@)),
            r.inspecting() is None,
            r.removing() is None,
            r.python_noarch() == is_python_noarch,
    {
        let candidates = parent_directories(paths);
        let r = Pruner { candidates, phase: PrunePhase::Idle, is_python_noarch };
        assert forall|k: int| 0 <= k < r.candidates@.len() implies (#[trigger] r.candidates@[k])@.len() > 0 by {
            assert(paths_view(r.candidates@)[k] == r.candidates@[k]@);
            assert(paths_view(r.candidates@).to_set().contains(r.candidates@[k]@));
        }
        r
    }

    /// Takes out a deepest candidate.
    fn pop_deepest(&mut self) -> (r: Option<RelativePath>)
        requires
            old(self).wf(),
        ensures
            final(self).wf(),
            final(self).phase == old(self).phase,
            final(self).is_python_noarch == old(self).is_python_noarch,
            final(self).candidate_set().subset_of(old(self).candidate_set()),
            match r {
                Some(c) => {
                    &&& c@.len() > 0
                    &&& old(self).candidate_set().contains(c@)
                    &&& forall|x: Seq<Seq<char>>| old(self).candidate_set().contains(x) ==> !deeper_first(x, c@)
                },
                None => old(self).candidate_set().is_empty() && final(self).candidate_set().is_empty(),
            },
    {
        let ghost old_view = paths_view(self.candidates@);
        if self.candidates.len() == 0 {
            proof {
                assert(old_view.to_set() =~= Set::<Seq<Seq<char>>>::empty());
            }
            return None;
        }
        let mut best: usize = 0;
        let mut i: usize = 1;
        proof {
            lemma_path_before_irreflexive(self.candidates@[0]@, 0);
        }
        while i < self.candidates.len()
            invariant
                0 <= best < i <= self.candidates@.len(),
                forall|k: int| 0 <= k < i ==> !deeper_first(self.candidates@[k]@, self.candidates@[best as int]@),
            decreases self.candidates@.len() - i,
        {
            if goes_first(&self.candidates[i], &self.candidates[best]) {
                proof {
                    assert forall|k: int| 0 <= k < i implies !deeper_first(self.candidates@[k]@, self.candidates@[i as int]@) by {
                        if deeper_first(self.candidates@[k]@, self.candidates@[i as int]@) {
                            lemma_deeper_first_transitive(self.candidates@[k]@, self.candidates@[i as int]@, self.candidates@[best as int]@);
                        }
                    }
                    assert(!deeper_first(self.candidates@[i as int]@, self.candidates@[i as int]@)) by {
                        lemma_path_before_irreflexive(self.candidates@[i as int]@, 0);
                    }
                }
                best = i;
            }
            i = i + 1;
        }
        let c = self.candidates.remove(best);
        proof {
            assert(old_view[best as int] == c@);
            assert(paths_view(self.candidates@) =~= old_view.remove(best as int));
            assert forall|x: Seq<Seq<char>>| old_view.to_set().contains(x) implies !deeper_first(x, c@) by {
                let k = choose|k: int| 0 <= k < old_view.len() && old_view[k] == x;
            }
            assert forall|x: Seq<Seq<char>>| paths_view(self.candidates@).to_set().contains(x) implies old_view.to_set().contains(x) by {
                let k = choose|k: int| 0 <= k < paths_view(self.candidates@).len() && paths_view(self.candidates@)[k] == x;
                if k < best {
                    assert(old_view[k] == x);
                } else {
                    assert(old_view[k + 1] == x);
                }
            }
            assert forall|k: int| 0 <= k < self.candidates@.len() implies (#[trigger] self.candidates@[k])@.len() > 0 by {
                if k < best {
                    assert(self.candidates@[k] == old(self).candidates@[k]);
                } else {
                    assert(self.candidates@[k] == old(self).candidates@[k + 1]);
                }
            }
        }
        Some(c)
    }

    /// Drops every candidate that lies strictly above `d`: a directory below it was
    /// kept, so none of them can be empty.
    fn strike_ancestors(&mut self, d: &RelativePath)
        requires
            old(self).wf(),
        ensures
            final(self).wf(),
            final(self).phase == old(self).phase,
            final(self).is_python_noarch == old(self).is_python_noarch,
            final(self).candidate_set() == old(self).candidate_set().filter(
                |x: Seq<Seq<char>>| !is_strict_ancestor(x, d@),
            ),
    {
        let ghost old_cands = self.candidates@;
        let mut rest: Vec<RelativePath> = Vec::new();
        std::mem::swap(&mut rest, &mut self.candidates);
        let mut kept: Vec<RelativePath> = Vec::new();
        let n = rest.len();
        let mut i: usize = 0;
        while rest.len() > 0
            invariant
                n == old_cands.len(),
                i <= n,
                rest@ == old_cands.subrange(i as int, n as int),
                forall|k: int| 0 <= k < kept@.len() ==> (#[trigger] kept@[k])@.len() > 0,
                forall|k: int| 0 <= k < old_cands.len() ==> (#[trigger] old_cands[k])@.len() > 0,
                paths_view(kept@).to_set() == paths_view(old_cands.subrange(0, i as int)).to_set().filter(
                    |x: Seq<Seq<char>>| !is_strict_ancestor(x, d@),
                ),
            decreases rest@.len(),
        {
            let ghost before = paths_view(kept@);
            let ghost prev = paths_view(old_cands.subrange(0, i as int));
            let c = rest.remove(0);
            assert(old_cands[i as int] == c);
            assert(paths_view(old_cands.subrange(0, i as int + 1)) =~= prev.push(c@));
            if !strict_ancestor(&c, d) {
                kept.push(c);
                assert(paths_view(kept@) =~= before.push(c@));
            }
            proof {
                let next = prev.push(c@);
                let now = paths_view(kept@);
                assert forall|x: Seq<Seq<char>>| now.to_set().contains(x) == next.to_set().filter(
                    |x: Seq<Seq<char>>| !is_strict_ancestor(x, d@),
                ).contains(x) by {
                    if now.to_set().contains(x) {
                        let k = choose|k: int| 0 <= k < now.len() && now[k] == x;
                        if k < before.len() {
                            assert(before[k] == x);
                            assert(before.to_set().contains(x));
                            let j = choose|j: int| 0 <= j < prev.len() && prev[j] == x;
                            assert(next[j] == x);
                        } else {
                            assert(next[prev.len() as int] == x);
                        }
                    }
                    if next.to_set().filter(|x: Seq<Seq<char>>| !is_strict_ancestor(x, d@)).contains(x) {
                        let j = choose|j: int| 0 <= j < next.len() && next[j] == x;
                        if j < prev.len() {
                            assert(prev[j] == x);
                            assert(prev.to_set().contains(x));
                            assert(before.to_set().contains(x));
                            let k = choose|k: int| 0 <= k < before.len() && before[k] == x;
                            assert(now[k] == x);
                        } else {
                            assert(now[before.len() as int] == x);
                        }
                    }
                }
            }
            i = i + 1;
            assert(rest@ =~= old_cands.subrange(i as int, n as int));
            assert(paths_view(kept@).to_set() =~= paths_view(old_cands.subrange(0, i as int)).to_set().filter(
                |x: Seq<Seq<char>>| !is_strict_ancestor(x, d@),
            ));
        }
        assert(old_cands.subrange(0, n as int) =~= old_cands);
        self.candidates = kept;
    }

    /// Takes the next deepest candidate, or finishes.
    fn select_next(&mut self) -> (action: PruneAction)
        requires
            old(self).wf(),
        ensures
            final(self).wf(),
            final(self).is_python_noarch == old(self).is_python_noarch,
            final(self).candidate_set().subset_of(old(self).candidate_set()),
            final(self).removing() is None,
            match action {
                PruneAction::Inspect(d) => {
                    &&& d@.len() > 0
                    &&& final(self).inspecting() == Some(d@)
                    &&& old(self).candidate_set().contains(d@)
                    &&& forall|x: Seq<Seq<char>>| old(self).candidate_set().contains(x) ==> !deeper_first(x, d@)
                },
                PruneAction::Finished => {
                    &&& old(self).candidate_set().is_empty()
                    &&& final(self).candidate_set().is_empty()
                    &&& final(self).inspecting() is None
                },
                _ => false,
            },
    {
        match self.pop_deepest() {
            Some(c) => {
                let d = c.duplicate();
                self.phase = PrunePhase::Inspecting(c);
                PruneAction::Inspect(d)
            },
            None => {
                self.phase = PrunePhase::Idle;
                PruneAction::Finished
            },
        }
    }

    /// Takes in what came of the last action and says what to do next.
    pub fn step(&mut self, event: PruneEvent) -> (action: PruneAction)
        requires
            old(self).wf(),
            old(self).accepts(&event),
        ensures
            final(self).wf(),
            final(self).python_noarch() == old(self).python_noarch(),
            final(self).candidate_set().subset_of(old(self).candidate_set()),
            step_taken(*old(self), event, *final(self), action),
    {
        let mut phase = PrunePhase::Idle;
        std::mem::swap(&mut phase, &mut self.phase);
        match phase {
            PrunePhase::Inspecting(d) => {
                match event {
                    PruneEvent::Listed(listing) => {
                        let decision = decide_prune(&d, &listing, self.is_python_noarch);
                        match decision {
                            PruneDecision::RemoveEmpty => {
                                let target = d.duplicate();
                                self.phase = PrunePhase::Removing(d);
                                PruneAction::RemoveDir(target)
                            },
                            PruneDecision::RemoveWithCache => {
                                let target = d.duplicate();
                                self.phase = PrunePhase::Removing(d);
                                PruneAction::RemoveDirAll(target)
                            },
                            PruneDecision::Keep => {
                                self.strike_ancestors(&d);
                                let ghost mid = *self;
                                let action = self.select_next();
                                assert(next_taken(mid, *self, action));
                                action
                            },
                        }
                    },
                    _ => self.select_next(),
                }
            },
            PrunePhase::Removing(d) => {
                let p = d.parent();
                if p.is_root() {
                    self.select_next()
                } else {
                    let target = p.duplicate();
                    self.phase = PrunePhase::Inspecting(p);
                    PruneAction::Inspect(target)
                }
            },
            PrunePhase::Idle => self.select_next(),
        }
    }
}

/// The entries that an event reports, if it reports a listing of a directory that is there.
pub open spec fn listed_entries(event: PruneEvent) -> Option<Seq<Seq<char>>> {
    match event {
        PruneEvent::Listed(l) => l.entries(),
        _ => None,
    }
}

/// A deepest candidate of `old` is taken out and inspected; or, where none is left,
/// pruning is finished.
pub open spec fn next_taken(old: Pruner, new: Pruner, action: PruneAction) -> bool {
    match action {
        PruneAction::Inspect(d) => {
            &&& new.inspecting() == Some(d@)
            &&& old.candidate_set().contains(d@)
            &&& forall|x: Seq<Seq<char>>| old.candidate_set().contains(x) ==> !deeper_first(x, d@)
        },
        PruneAction::Finished => old.candidate_set().is_empty() && new.candidate_set().is_empty()
            && new.inspecting() is None && new.removing() is None,
        _ => false,
    }
}

/// One step of pruning. A directory under inspection is removed when the pruning rule
/// says so, and then its parent is inspected unless it is the root; where the rule
/// keeps it, every candidate above it is dropped and the next deepest one is taken.
pub open spec fn step_taken(old: Pruner, event: PruneEvent, new: Pruner, action: PruneAction) -> bool {
    match (old.inspecting(), old.removing()) {
        (Some(d), _) => {
            let rule = prune_rule(d, listed_entries(event), old.python_noarch());
            if rule == PruneDecision::RemoveEmpty {
                &&& action matches PruneAction::RemoveDir(t) && t@ == d
                &&& new.removing() == Some(d)
                &&& new.candidate_set() == old.candidate_set()
            } else if rule == PruneDecision::RemoveWithCache {
                &&& action matches PruneAction::RemoveDirAll(t) && t@ == d
                &&& new.removing() == Some(d)
                &&& new.candidate_set() == old.candidate_set()
            } else {
                let struck = old.candidate_set().filter(|x: Seq<Seq<char>>| !is_strict_ancestor(x, d));
                &&& forall|x: Seq<Seq<char>>| new.candidate_set().contains(x) ==> struck.contains(x)
                &&& exists|mid: Pruner| mid.candidate_set() == struck && next_taken(mid, new, action)
            }
        },
        (None, Some(r)) => if r.len() > 1 {
            &&& action matches PruneAction::Inspect(t) && t@ == r.drop_last()
            &&& new.inspecting() == Some(r.drop_last())
            &&& new.candidate_set() == old.candidate_set()
        } else {
            next_taken(old, new, action)
        },
        (None, None) => next_taken(old, new, action),
    }
}

/// Pruning removes only what it was told is empty: a directory below the root that
/// was just read with no entries, or, for a python noarch package, with the bytecode
/// cache as its only entry. Anything that holds other files is never removed.
pub proof fn lemma_removes_only_empty_directories(
    old: Pruner,
    event: PruneEvent,
    new: Pruner,
    action: PruneAction,
)
    requires
        old.wf(),
        step_taken(old, event, new, action),
    ensures
        action matches PruneAction::RemoveDir(t) ==> {
            &&& t@.len() > 0
            &&& old.inspecting() == Some(t@)
            &&& listed_entries(event) == Some(Seq::<Seq<char>>::empty())
        },
        action matches PruneAction::RemoveDirAll(t) ==> {
            &&& t@.len() > 0
            &&& old.inspecting() == Some(t@)
            &&& old.python_noarch()
            &&& listed_entries(event) == Some(seq![cache_dir_name()])
        },
{
    if let Some(d) = old.inspecting() {
        let e = listed_entries(event);
        if let Some(x) = e {
            if x.len() == 0 {
                assert(x =~= Seq::<Seq<char>>::empty());
            } else if x.len() == 1 {
                assert(x =~= seq![x[0]]);
            }
        }
    }
}

/// A package without files leaves no directory to prune: pruning finishes at once,
/// and only the metadata record is left to remove.
pub proof fn lemma_no_files_nothing_to_prune(p0: Pruner, p1: Pruner, action: PruneAction)
    requires
        p0.candidate_set() == parent_set(Seq::<Seq<Seq<char>>>::empty()),
        p0.inspecting() is None,
        p0.removing() is None,
        step_taken(p0, PruneEvent::Start, p1, action),
    ensures
        action is Finished,
        p1.candidate_set().is_empty(),
{
    assert(parent_set(Seq::<Seq<Seq<char>>>::empty()) =~= Set::<Seq<Seq<char>>>::empty());
    if let PruneAction::Inspect(d) = action {
        assert(p0.candidate_set().contains(d@));
    }
}

/// A run of the pruner: `actions[i]` is what step `i` asked for, taking `states[i]`
/// with `events[i]` to `states[i + 1]`.
pub open spec fn is_run(states: Seq<Pruner>, events: Seq<PruneEvent>, actions: Seq<PruneAction>) -> bool {
    &&& states.len() == actions.len() + 1
    &&& events.len() == actions.len()
    &&& forall|i: int|
        0 <= i < actions.len() ==> #[trigger] states[i].wf() && step_taken(
            states[i],
            events[i],
            states[i + 1],
            actions[i],
        )
}

/// From step `k` on, for `n` steps, every directory inspected is read empty and every
/// removal succeeds.
pub open spec fn answered_empty(states: Seq<Pruner>, events: Seq<PruneEvent>, k: int, n: int) -> bool {
    &&& forall|i: int|
        k <= i < k + n && (#[trigger] states[i].inspecting()) is Some ==> listed_entries(events[i])
            == Some(Seq::<Seq<char>>::empty())
    &&& forall|i: int|
        k <= i < k + n && (#[trigger] states[i].removing()) is Some ==> events[i] == PruneEvent::Removed
}

proof fn lemma_chain_step(
    states: Seq<Pruner>,
    events: Seq<PruneEvent>,
    actions: Seq<PruneAction>,
    k: int,
    d: Seq<Seq<char>>,
    j: int,
)
    requires
        d.len() > 0,
        0 <= k,
        0 <= j < d.len(),
        k + 2 * d.len() <= actions.len(),
        is_run(states, events, actions),
        states[k].inspecting() == Some(d),
        answered_empty(states, events, k, 2 * d.len() as int),
    ensures
        states[k + 2 * j].inspecting() == Some(d.subrange(0, d.len() - j)),
        (actions[k + 2 * j] matches PruneAction::RemoveDir(t) && t@ == d.subrange(0, d.len() - j)),
        j + 1 < d.len() ==> (actions[k + 2 * j + 1] matches PruneAction::Inspect(t) && t@
            == d.subrange(0, d.len() - j - 1)),
        j + 1 < d.len() ==> states[k + 2 * j + 2].inspecting() == Some(
            d.subrange(0, d.len() - j - 1),
        ),
        j + 1 == d.len() ==> !(actions[k + 2 * j + 1] matches PruneAction::Inspect(t) && t@.len()
            == 0),
    decreases j,
{
    if j == 0 {
        assert(d.subrange(0, d.len() as int) =~= d);
    } else {
        lemma_chain_step(states, events, actions, k, d, j - 1);
    }
    let a = k + 2 * j;
    let p = d.subrange(0, d.len() - j);
    assert(states[a].wf());
    assert(states[a].inspecting() is Some);
    assert(listed_entries(events[a]) == Some(Seq::<Seq<char>>::empty()));
    assert(states[a + 1].removing() == Some(p));
    assert(states[a + 1].inspecting() is None) by {
        assert(states[a + 1].removing() is Some);
    }
    assert(states[a + 1].wf());
    assert(events[a + 1] == PruneEvent::Removed);
    assert(p.drop_last() =~= d.subrange(0, d.len() - j - 1));
    if j + 1 == d.len() {
        assert(next_taken(states[a + 1], states[a + 2], actions[a + 1]));
        if let PruneAction::Inspect(t) = actions[a + 1] {
            assert(states[a + 1].candidate_set().contains(t@));
            assert(t@.len() > 0) by {
                let cands = states[a + 1].candidates@;
                let m = choose|m: int|
                    0 <= m < paths_view(cands).len() && paths_view(cands)[m] == t@;
                assert(cands[m]@.len() > 0);
            }
        }
    }
}

/// Walking up from a directory whose whole chain up to the root is read empty removes
/// every directory of the chain, deepest first, each followed by the inspection of its
/// parent, and never inspects the root.
pub proof fn lemma_empty_chain_removed(
    states: Seq<Pruner>,
    events: Seq<PruneEvent>,
    actions: Seq<PruneAction>,
    k: int,
    d: Seq<Seq<char>>,
)
    requires
        d.len() > 0,
        0 <= k,
        k + 2 * d.len() <= actions.len(),
        is_run(states, events, actions),
        states[k].inspecting() == Some(d),
        answered_empty(states, events, k, 2 * d.len() as int),
    ensures
        forall|j: int|
            0 <= j < d.len() ==> ((#[trigger] actions[k + 2 * j]) matches PruneAction::RemoveDir(t)
                && t@ == d.subrange(0, d.len() - j)),
        !(actions[k + 2 * d.len() - 1] matches PruneAction::Inspect(t) && t@.len() == 0),
{
    assert forall|j: int| 0 <= j < d.len() implies (#[trigger] actions[k + 2 * j]) matches PruneAction::RemoveDir(t)
        && t@ == d.subrange(0, d.len() - j) by {
        lemma_chain_step(states, events, actions, k, d, j);
    }
    lemma_chain_step(states, events, actions, k, d, d.len() - 1);
}

} // verus!
