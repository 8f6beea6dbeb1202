//! Paths relative to an environment root, and the order in which directories are
//! pruned.

use vstd::prelude::*;
use crate::lock_data::{same_strings, strings_view};

verus! {

/// A path relative to the environment root, as its components.
#[derive(Debug)]
pub struct RelativePath {
    pub components: Vec<String>,
}

impl View for RelativePath {
    type V = Seq<Seq<char>>;

    open spec fn view(&self) -> Seq<Seq<char>> {
        strings_view(self.components@)
    }
}

impl RelativePath {
    /// Whether this is the environment root itself.
    pub fn is_root(&self) -> (r: bool)
        ensures
            r == (self@.len() == 0),
    {
        self.components.len() == 0
    }

    /// The first `n` components.
    pub fn prefix(&self, n: usize) -> (r: RelativePath)
        requires
            n <= self@.len(),
        ensures
            r@ == self@.subrange(0, n as int),
    {
        let mut components: Vec<String> = Vec::new();
        let mut i: usize = 0;
        while i < n
            invariant
                n <= self.components@.len(),
                i <= n,
                strings_view(components@) == self@.subrange(0, i as int),
            decreases n - i,
        {
            let ghost before = components@;
            let c = self.components[i].clone();
            assert(c@ == self@[i as int]);
            components.push(c);
            assert(components@ == before.push(c));
            assert(strings_view(components@) =~= strings_view(before).push(c@));
            i = i + 1;
            assert(strings_view(components@) =~= self@.subrange(0, i as int));
        }
        RelativePath { components }
    }

    /// The directory that holds this path.
    pub fn parent(&self) -> (r: RelativePath)
        requires
            self@.len() > 0,
        ensures
            r@ == self@.drop_last(),
    {
        let r = self.prefix(self.components.len() - 1);
        assert(self@.subrange(0, self@.len() - 1) =~= self@.drop_last());
        r
    }

    /// A copy of this path.
    pub fn duplicate(&self) -> (r: RelativePath)
        ensures
            r@ == self@,
    {
        let r = self.prefix(self.components.len());
        assert(self@.subrange(0, self@.len() as int) =~= self@);
        r
    }

    pub fn same_path(&self, other: &RelativePath) -> (r: bool)
        ensures
            r == (self@ == other@),
    {
        same_strings(&self.components, &other.components)
    }
}

/// The views of a sequence of paths.
pub open spec fn paths_view(s: Seq<RelativePath>) -> Seq<Seq<Seq<char>>> {
    s.map_values(|p: RelativePath| p@)
}

/// Whether `a` is a directory strictly above `d`.
pub open spec fn is_strict_ancestor(a: Seq<Seq<char>>, d: Seq<Seq<char>>) -> bool {
    a.len() < d.len() && a == d.subrange(0, a.len() as int)
}

/// Exec form of [`is_strict_ancestor`].
pub fn strict_ancestor(a: &RelativePath, d: &RelativePath) -> (r: bool)
    ensures
        r == is_strict_ancestor(a@, d@),
{
    if a.components.len() >= d.components.len() {
        return false;
    }
    let mut i: usize = 0;
    while i < a.components.len()
        invariant
            a@.len() < d@.len(),
            i <= a@.len(),
            forall|k: int| 0 <= k < i ==> a@[k] == d@[k],
        decreases a@.len() - i,
    {
        if a.components[i] != d.components[i] {
            assert(a@[i as int] != d@.subrange(0, a@.len() as int)[i as int]);
            return false;
        }
        i = i + 1;
    }
    assert(a@ =~= d@.subrange(0, a@.len() as int));
    true
}

/// Whether `a` sorts strictly before `b` by code points, comparing from position `i` on.
pub open spec fn chars_before_from(a: Seq<char>, b: Seq<char>, i: int) -> bool
    decreases a.len() - i,
{
    if i < 0 {
        false
    } else if i >= a.len() {
        i < b.len()
    } else if i >= b.len() {
        false
    } else if a[i] != b[i] {
        (a[i] as u32) < (b[i] as u32)
    } else {
        chars_before_from(a, b, i + 1)
    }
}

/// Whether `a` sorts strictly before `b` by code points, which is the order of
/// their UTF-8 bytes.
pub open spec fn chars_before(a: Seq<char>, b: Seq<char>) -> bool {
    chars_before_from(a, b, 0)
}

/// Whether the path `a` sorts strictly before `b`, component by component, from
/// component `i` on.
pub open spec fn path_before_from(a: Seq<Seq<char>>, b: Seq<Seq<char>>, i: int) -> bool
    decreases a.len() - i,
{
    if i < 0 {
        false
    } else if i >= a.len() {
        i < b.len()
    } else if i >= b.len() {
        false
    } else if a[i] != b[i] {
        chars_before(a[i], b[i])
    } else {
        path_before_from(a, b, i + 1)
    }
}

/// Whether the path `a` sorts strictly before `b`, component by component.
pub open spec fn path_before(a: Seq<Seq<char>>, b: Seq<Seq<char>>) -> bool {
    path_before_from(a, b, 0)
}

/// Whether directory `x` is to be walked up from before `y`: deeper ones first, and
/// of two at the same depth the one that sorts later.
pub open spec fn deeper_first(x: Seq<Seq<char>>, y: Seq<Seq<char>>) -> bool {
    x.len() > y.len() || (x.len() == y.len() && path_before(y, x))
}

proof fn lemma_chars_before_irreflexive(a: Seq<char>, i: int)
    requires
        0 <= i,
    ensures
        !chars_before_from(a, a, i),
    decreases a.len() - i,
{
    if i < a.len() {
        lemma_chars_before_irreflexive(a, i + 1);
    }
}

pub(crate) proof fn lemma_path_before_irreflexive(a: Seq<Seq<char>>, i: int)
    requires
        0 <= i,
    ensures
        !path_before_from(a, a, i),
    decreases a.len() - i,
{
    if i < a.len() {
        lemma_path_before_irreflexive(a, i + 1);
    }
}

proof fn lemma_chars_before_transitive(a: Seq<char>, b: Seq<char>, c: Seq<char>, i: int)
    requires
        0 <= i,
        chars_before_from(a, b, i),
        chars_before_from(b, c, i),
    ensures
        chars_before_from(a, c, i),
    decreases a.len() - i,
{
    if i < a.len() && i < b.len() && i < c.len() && a[i] == b[i] && b[i] == c[i] {
        lemma_chars_before_transitive(a, b, c, i + 1);
    }
}

proof fn lemma_path_before_transitive(
    a: Seq<Seq<char>>,
    b: Seq<Seq<char>>,
    c: Seq<Seq<char>>,
    i: int,
)
    requires
        0 <= i,
        path_before_from(a, b, i),
        path_before_from(b, c, i),
    ensures
        path_before_from(a, c, i),
    decreases a.len() - i,
{
    if i < a.len() && i < b.len() && i < c.len() {
        if a[i] == b[i] && b[i] == c[i] {
            lemma_path_before_transitive(a, b, c, i + 1);
        } else if a[i] != b[i] && b[i] != c[i] {
            lemma_chars_before_transitive(a[i], b[i], c[i], 0);
            if a[i] == c[i] {
                lemma_chars_before_irreflexive(a[i], 0);
            }
        }
    }
}

pub(crate) proof fn lemma_deeper_first_transitive(x: Seq<Seq<char>>, y: Seq<Seq<char>>, z: Seq<Seq<char>>)
    requires
        deeper_first(x, y),
        deeper_first(y, z),
    ensures
        deeper_first(x, z),
{
    if x.len() == y.len() && y.len() == z.len() {
        lemma_path_before_transitive(z, y, x, 0);
    }
}

/// Exec form of [`chars_before`].
pub fn string_before(a: &String, b: &String) -> (r: bool)
    ensures
        r == chars_before(a@, b@),
{
    let sa = a.as_str();
    let sb = b.as_str();
    let na = sa.unicode_len();
    let nb = sb.unicode_len();
    let mut i: usize = 0;
    while i < na && i < nb
        invariant
            sa@ == a@,
            sb@ == b@,
            na == a@.len(),
            nb == b@.len(),
            i <= na,
            i <= nb,
            chars_before_from(a@, b@, 0) == chars_before_from(a@, b@, i as int),
        decreases na - i,
    {
        let ca = sa.get_char(i);
        let cb = sb.get_char(i);
        if ca != cb {
            assert(a@[i as int] != b@[i as int]);
            assert(chars_before_from(a@, b@, i as int) == ((ca as u32) < (cb as u32)));
            return (ca as u32) < (cb as u32);
        }
        assert(chars_before_from(a@, b@, i as int) == chars_before_from(a@, b@, i as int + 1));
        i = i + 1;
    }
    i < nb
}

/// Exec form of [`path_before`].
pub fn path_sorts_before(a: &RelativePath, b: &RelativePath) -> (r: bool)
    ensures
        r == path_before(a@, b@),
{
    let na = a.components.len();
    let nb = b.components.len();
    let mut i: usize = 0;
    while i < na && i < nb
        invariant
            na == a@.len(),
            nb == b@.len(),
            i <= na,
            i <= nb,
            path_before_from(a@, b@, 0) == path_before_from(a@, b@, i as int),
        decreases na - i,
    {
        if a.components[i] != b.components[i] {
            assert(a@[i as int] != b@[i as int]);
            return string_before(&a.components[i], &b.components[i]);
        }
        assert(a@[i as int] == b@[i as int]);
        i = i + 1;
    }
    i < nb
}

/// Exec form of [`deeper_first`].
pub fn goes_first(x: &RelativePath, y: &RelativePath) -> (r: bool)
    ensures
        r == deeper_first(x@, y@),
{
    let nx = x.components.len();
    let ny = y.components.len();
    nx > ny || (nx == ny && path_sorts_before(y, x))
}

} // verus!
