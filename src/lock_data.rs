//! The values that a lock file is made of.

use vstd::prelude::*;
use crate::pool::PoolValue;

verus! {

/// Whether two vectors of strings hold the same strings in the same order.
pub fn same_strings(a: &Vec<String>, b: &Vec<String>) -> (r: bool)
    ensures
        r == (strings_view(a@) == strings_view(b@)),
{
    if a.len() != b.len() {
        proof {
            assert(strings_view(a@).len() != strings_view(b@).len());
        }
        return false;
    }
    let mut i: usize = 0;
    while i < a.len()
        invariant
            a@.len() == b@.len(),
            i <= a@.len(),
            forall|k: int| 0 <= k < i ==> a@[k]@ == b@[k]@,
        decreases a@.len() - i,
    {
        if a[i] != b[i] {
            proof {
                assert(strings_view(a@)[i as int] != strings_view(b@)[i as int]);
            }
            return false;
        }
        i = i + 1;
    }
    assert(strings_view(a@) =~= strings_view(b@));
    true
}

/// The character sequences of a sequence of strings.
pub open spec fn strings_view(s: Seq<String>) -> Seq<Seq<char>> {
    s.map_values(|x: String| x@)
}

/// Whether `s` occurs in `v`.
pub fn contains_string(v: &Vec<String>, s: &String) -> (r: bool)
    ensures
        r == strings_view(v@).contains(s@),
{
    let mut i: usize = 0;
    while i < v.len()
        invariant
            i <= v@.len(),
            forall|k: int| 0 <= k < i ==> v@[k]@ != s@,
        decreases v@.len() - i,
    {
        if v[i] == *s {
            proof {
                assert(strings_view(v@)[i as int] == s@);
            }
            return true;
        }
        i = i + 1;
    }
    proof {
        if strings_view(v@).contains(s@) {
            let k = choose|k: int| 0 <= k < strings_view(v@).len() && strings_view(v@)[k] == s@;
            assert(v@[k]@ == s@);
        }
    }
    false
}

/// Whether every string of `a` occurs in `b`.
pub fn all_contained(a: &Vec<String>, b: &Vec<String>) -> (r: bool)
    ensures
        r == strings_view(a@).to_set().subset_of(strings_view(b@).to_set()),
{
    let mut i: usize = 0;
    while i < a.len()
        invariant
            i <= a@.len(),
            forall|k: int| 0 <= k < i ==> strings_view(b@).contains(#[trigger] a@[k]@),
        decreases a@.len() - i,
    {
        if !contains_string(b, &a[i]) {
            proof {
                assert(strings_view(a@)[i as int] == a@[i as int]@);
                assert(strings_view(a@).to_set().contains(a@[i as int]@));
            }
            return false;
        }
        i = i + 1;
    }
    proof {
        assert forall|x: Seq<char>| strings_view(a@).to_set().contains(x) implies strings_view(
            b@,
        ).to_set().contains(x) by {
            let k = choose|k: int| 0 <= k < strings_view(a@).len() && strings_view(a@)[k] == x;
            assert(a@[k]@ == x);
        }
    }
    true
}

/// The platform that a list of packages is meant for, by its name (`linux-64`).
#[derive(Debug)]
pub struct Platform {
    pub name: String,
}

impl View for Platform {
    type V = Seq<char>;

    open spec fn view(&self) -> Seq<char> {
        self.name@
    }
}

impl Platform {
    pub fn new(name: &str) -> (r: Self)
        ensures
            r@ == name@,
    {
        Platform { name: name.to_string() }
    }

    pub fn same_platform(&self, other: &Platform) -> (r: bool)
        ensures
            r == (self@ == other@),
    {
        self.name == other.name
    }
}

/// A channel that the packages of an environment come from, by its url.
#[derive(Debug)]
pub struct Channel {
    pub url: String,
}

impl View for Channel {
    type V = Seq<char>;

    open spec fn view(&self) -> Seq<char> {
        self.url@
    }
}

impl Channel {
    pub fn new(url: &str) -> (r: Self)
        ensures
            r@ == url@,
    {
        Channel { url: url.to_string() }
    }
}

/// The view of a [`CondaPackageData`]: name, version, build and url.
pub type CondaView = (Seq<char>, Seq<char>, Seq<char>, Seq<char>);

/// The view of a [`PypiPackageData`]: name, version and url.
pub type PypiView = (Seq<char>, Seq<char>, Seq<char>);

/// A locked conda package.
#[derive(Debug)]
pub struct CondaPackageData {
    pub name: String,
    pub version: String,
    pub build: String,
    pub url: String,
}

impl View for CondaPackageData {
    type V = CondaView;

    open spec fn view(&self) -> CondaView {
        (self.name@, self.version@, self.build@, self.url@)
    }
}

impl PoolValue for CondaPackageData {
    fn same_value(&self, other: &Self) -> (r: bool) {
        self.name == other.name && self.version == other.version && self.build == other.build
            && self.url == other.url
    }
}

/// A locked pypi package.
#[derive(Debug)]
pub struct PypiPackageData {
    pub name: String,
    pub version: String,
    pub url: String,
}

impl View for PypiPackageData {
    type V = PypiView;

    open spec fn view(&self) -> PypiView {
        (self.name@, self.version@, self.url@)
    }
}

impl PoolValue for PypiPackageData {
    fn same_value(&self, other: &Self) -> (r: bool) {
        self.name == other.name && self.version == other.version && self.url == other.url
    }
}

/// What a pypi package needs in one environment: the extras that were selected.
#[derive(Debug)]
pub struct PypiPackageEnvironmentData {
    pub extras: Vec<String>,
}

impl View for PypiPackageEnvironmentData {
    type V = Seq<Seq<char>>;

    open spec fn view(&self) -> Seq<Seq<char>> {
        strings_view(self.extras@)
    }
}

/// The pooling key of a [`PypiPackageEnvironmentData`]: its extras as a set, so
/// that the order in which they were given does not matter.
#[derive(Debug)]
pub struct HashablePypiPackageEnvironmentData {
    pub extras: Vec<String>,
}

impl View for HashablePypiPackageEnvironmentData {
    type V = Set<Seq<char>>;

    open spec fn view(&self) -> Set<Seq<char>> {
        strings_view(self.extras@).to_set()
    }
}

impl PoolValue for HashablePypiPackageEnvironmentData {
    fn same_value(&self, other: &Self) -> (r: bool) {
        let a = all_contained(&self.extras, &other.extras);
        let b = all_contained(&other.extras, &self.extras);
        proof {
            if a && b {
                assert(self@ =~= other@);
            }
        }
        a && b
    }
}

impl HashablePypiPackageEnvironmentData {
    pub fn from_data(value: PypiPackageEnvironmentData) -> (r: Self)
        ensures
            r.extras@ == value.extras@,
            r@ == value@.to_set(),
    {
        HashablePypiPackageEnvironmentData { extras: value.extras }
    }

    pub fn into_data(self) -> (r: PypiPackageEnvironmentData)
        ensures
            r.extras@ == self.extras@,
            r@.to_set() == self@,
    {
        PypiPackageEnvironmentData { extras: self.extras }
    }
}

/// A reference from an environment to pooled package data.
#[derive(Clone, Copy, Debug, PartialEq, Eq, Structural)]
pub enum EnvironmentPackageData {
    /// The index of a conda package.
    Conda(usize),
    /// The index of a pypi package and the index of its environment data.
    Pypi(usize, usize),
}

impl EnvironmentPackageData {
    /// Whether the reference points into pools of the given lengths.
    pub open spec fn points_within(self, conda: nat, pypi: nat, runtime: nat) -> bool {
        match self {
            EnvironmentPackageData::Conda(i) => i < conda,
            EnvironmentPackageData::Pypi(i, j) => i < pypi && j < runtime,
        }
    }
}

} // verus!
