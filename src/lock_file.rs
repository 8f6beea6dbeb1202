//! The finished, read-only lock file.

use vstd::prelude::*;
use crate::environment::EnvironmentData;
use crate::lock_data::{CondaPackageData, CondaView, PypiPackageData, PypiPackageEnvironmentData, PypiView};

verus! {

/// Pooled packages and the environments that refer to them, each environment at the
/// index that its name is looked up to.
pub struct LockFile {
    pub(crate) conda_packages: Vec<CondaPackageData>,
    pub(crate) pypi_packages: Vec<PypiPackageData>,
    pub(crate) pypi_environment_package_datas: Vec<PypiPackageEnvironmentData>,
    pub(crate) environments: Vec<EnvironmentData>,
    pub(crate) environment_lookup: Vec<(String, usize)>,
}

impl LockFile {
    /// The environment names in lookup order.
    pub open(crate) spec fn environment_names(&self) -> Seq<Seq<char>> {
        self.environment_lookup@.map_values(|e: (String, usize)| e.0@)
    }

    /// The index that the `i`-th name of the lookup leads to.
    pub open(crate) spec fn lookup_index(&self, i: int) -> int {
        self.environment_lookup@[i].1 as int
    }

    /// The environments, by index.
    pub open(crate) spec fn environments_view(&self) -> Seq<EnvironmentData> {
        self.environments@
    }

    pub open(crate) spec fn conda_view(&self) -> Seq<CondaView> {
        self.conda_packages@.map_values(|p: CondaPackageData| p@)
    }

    pub open(crate) spec fn pypi_view(&self) -> Seq<PypiView> {
        self.pypi_packages@.map_values(|p: PypiPackageData| p@)
    }

    pub open(crate) spec fn runtime_view(&self) -> Seq<Seq<Seq<char>>> {
        self.pypi_environment_package_datas@.map_values(|p: PypiPackageEnvironmentData| p@)
    }

    /// Every reference of every environment points into the pools.
    pub open(crate) spec fn references_resolve(&self) -> bool {
        forall|i: int|
            0 <= i < self.environments@.len() ==> (#[trigger] self.environments@[i]).references_within(
                self.conda_packages@.len(),
                self.pypi_packages@.len(),
                self.pypi_environment_package_datas@.len(),
            )
    }

    /// The pooled conda packages.
    pub fn conda_packages(&self) -> (r: &Vec<CondaPackageData>)
        ensures
            r@.map_values(|p: CondaPackageData| p@) == self.conda_view(),
    {
        &self.conda_packages
    }

    /// The pooled pypi packages.
    pub fn pypi_packages(&self) -> (r: &Vec<PypiPackageData>)
        ensures
            r@.map_values(|p: PypiPackageData| p@) == self.pypi_view(),
    {
        &self.pypi_packages
    }

    /// The pooled environment data of pypi packages.
    pub fn pypi_environment_package_datas(&self) -> (r: &Vec<PypiPackageEnvironmentData>)
        ensures
            r@.map_values(|p: PypiPackageEnvironmentData| p@) == self.runtime_view(),
    {
        &self.pypi_environment_package_datas
    }

    /// The environments, by index.
    pub fn environments(&self) -> (r: &Vec<EnvironmentData>)
        ensures
            r@ == self.environments_view(),
    {
        &self.environments
    }

    /// The index of the environment called `name`, if there is one.
    pub fn environment_index(&self, name: &str) -> (r: Option<usize>)
        ensures
            match r {
                Some(i) => exists|k: int|
                    0 <= k < self.environment_names().len() && self.environment_names()[k]
                        == name@ && self.lookup_index(k) == i,
                None => !self.environment_names().contains(name@),
            },
    {
        let owned = name.to_string();
        let mut k: usize = 0;
        while k < self.environment_lookup.len()
            invariant
                k <= self.environment_lookup@.len(),
                owned@ == name@,
                forall|j: int| 0 <= j < k ==> self.environment_names()[j] != name@,
            decreases self.environment_lookup@.len() - k,
        {
            if self.environment_lookup[k].0 == owned {
                assert(self.environment_names()[k as int] == name@);
                assert(self.lookup_index(k as int) == self.environment_lookup@[k as int].1);
                return Some(self.environment_lookup[k].1);
            }
            k = k + 1;
        }
        proof {
            if self.environment_names().contains(name@) {
                let j = choose|j: int|
                    0 <= j < self.environment_names().len() && self.environment_names()[j]
                        == name@;
                assert(self.environment_names()[j] != name@);
            }
        }
        None
    }
}

} // verus!
