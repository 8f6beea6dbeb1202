//! Incremental construction of a lock file.

use vstd::prelude::*;
use crate::environment::EnvironmentData;
use crate::lock_data::{
    Channel, CondaPackageData, CondaView, EnvironmentPackageData, HashablePypiPackageEnvironmentData,
    Platform, PypiPackageData, PypiPackageEnvironmentData, PypiView,
};
use crate::lock_file::LockFile;
use crate::pool::{Pool, position_of, lemma_position_of_unique};

verus! {

/// Collects environments and packages, storing each distinct package once, until
/// [`LockFileBuilder::finish`] turns it into a lock file.
pub struct LockFileBuilder {
    environments: Vec<(String, EnvironmentData)>,
    conda_packages: Pool<CondaPackageData>,
    pypi_packages: Pool<PypiPackageData>,
    pypi_runtime_configurations: Pool<HashablePypiPackageEnvironmentData>,
}

impl LockFileBuilder {
    /// The environment names, in the order in which they were first used.
    pub closed spec fn environment_names(&self) -> Seq<Seq<char>> {
        self.environments@.map_values(|e: (String, EnvironmentData)| e.0@)
    }

    /// The data of an environment that the builder has.
    pub closed spec fn environment(&self, name: Seq<char>) -> EnvironmentData {
        self.environments@[position_of(self.environment_names(), name)].1
    }

    /// The channels of an environment; none where the builder does not have it.
    pub open spec fn channels_of(&self, name: Seq<char>) -> Seq<Seq<char>> {
        if self.environment_names().contains(name) {
            self.environment(name).channel_urls()
        } else {
            Seq::empty()
        }
    }

    /// The package references of an environment for a platform, in insertion order.
    pub open spec fn packages_of(&self, name: Seq<char>, platform: Seq<char>) -> Seq<
        EnvironmentPackageData,
    > {
        if self.environment_names().contains(name) {
            self.environment(name).packages_for(platform)
        } else {
            Seq::empty()
        }
    }

    /// The pooled conda packages, in first-seen order.
    pub closed spec fn conda_pool(&self) -> Seq<CondaView> {
        self.conda_packages@
    }

    /// The pooled pypi packages, in first-seen order.
    pub closed spec fn pypi_pool(&self) -> Seq<PypiView> {
        self.pypi_packages@
    }

    /// The pooled pypi extras, each as a set, in first-seen order.
    pub closed spec fn runtime_pool(&self) -> Seq<Set<Seq<char>>> {
        self.pypi_runtime_configurations@
    }

    /// Names are unique, each environment is well formed, and the pools hold each
    /// value once.
    pub closed spec fn wf(&self) -> bool {
        &&& self.environment_names().no_duplicates()
        &&& forall|i: int|
            0 <= i < self.environments@.len() ==> (#[trigger] self.environments@[i]).1.wf()
        &&& self.conda_packages.wf()
        &&& self.pypi_packages.wf()
        &&& self.pypi_runtime_configurations.wf()
        &&& self.references_resolve()
    }

    /// Every reference of every environment points into its pools.
    pub closed spec fn references_resolve(&self) -> bool {
        forall|i: int|
            0 <= i < self.environments@.len() ==> (#[trigger] self.environments@[i]).1.references_within(
                self.conda_pool().len(),
                self.pypi_pool().len(),
                self.runtime_pool().len(),
            )
    }

    /// Whether `r` points into the pools of this builder.
    pub open spec fn resolves(&self, r: EnvironmentPackageData) -> bool {
        r.points_within(self.conda_pool().len(), self.pypi_pool().len(), self.runtime_pool().len())
    }

    /// The pools only grew from `old` to `self`, and the environments stayed as they were.
    proof fn lemma_pools_grew(&self, old: LockFileBuilder)
        requires
            old.references_resolve(),
            self.environments == old.environments,
            old.conda_pool().len() <= self.conda_pool().len(),
            old.pypi_pool().len() <= self.pypi_pool().len(),
            old.runtime_pool().len() <= self.runtime_pool().len(),
        ensures
            self.references_resolve(),
    {
        assert forall|i: int| 0 <= i < self.environments@.len() implies (
        #[trigger] self.environments@[i]).1.references_within(
            self.conda_pool().len(),
            self.pypi_pool().len(),
            self.runtime_pool().len(),
        ) by {
            assert(old.environments@[i] == self.environments@[i]);
            crate::environment::lemma_references_within_grow(
                self.environments@[i].1,
                old.conda_pool().len(),
                old.pypi_pool().len(),
                old.runtime_pool().len(),
                self.conda_pool().len(),
                self.pypi_pool().len(),
                self.runtime_pool().len(),
            );
        }
    }

    /// A builder without environments or packages.
    pub fn new() -> (r: Self)
        ensures
            r.wf(),
            r.environment_names() == Seq::<Seq<char>>::empty(),
            r.conda_pool() == Seq::<CondaView>::empty(),
            r.pypi_pool() == Seq::<PypiView>::empty(),
            r.runtime_pool() == Seq::<Set<Seq<char>>>::empty(),
    {
        let r = LockFileBuilder {
            environments: Vec::new(),
            conda_packages: Pool::new(),
            pypi_packages: Pool::new(),
            pypi_runtime_configurations: Pool::new(),
        };
        assert(r.environment_names() =~= Seq::<Seq<char>>::empty());
        r
    }

    /// The slot of the environment `name`, made empty where the builder does not
    /// have it yet.
    fn environment_entry(&mut self, name: &str) -> (i: usize)
        requires
            old(self).wf(),
        ensures
            final(self).wf(),
            i < final(self).environments@.len(),
            final(self).environment_names()[i as int] == name@,
            old(self).environment_names().contains(name@) ==> final(self).environments@ == old(
                self,
            ).environments@,
            !old(self).environment_names().contains(name@) ==> {
                &&& final(self).environments@ == old(self).environments@.push(
                    final(self).environments@[i as int],
                )
                &&& i == old(self).environments@.len()
                &&& final(self).environments@[i as int].1.channel_urls() == Seq::<
                    Seq<char>,
                >::empty()
                &&& forall|p: Seq<char>|
                    final(self).environments@[i as int].1.packages_for(p) == Seq::<
                        EnvironmentPackageData,
                    >::empty()
            },
            final(self).conda_packages == old(self).conda_packages,
            final(self).pypi_packages == old(self).pypi_packages,
            final(self).pypi_runtime_configurations == old(self).pypi_runtime_configurations,
    {
        let owned = name.to_string();
        let mut i: usize = 0;
        while i < self.environments.len()
            invariant
                i <= self.environments@.len(),
                owned@ == name@,
                self.wf(),
                forall|k: int| 0 <= k < i ==> self.environment_names()[k] != name@,
            decreases self.environments@.len() - i,
        {
            if self.environments[i].0 == owned {
                assert(self.environment_names()[i as int] == name@);
                return i;
            }
            i = i + 1;
        }
        let ghost old_self = *self;
        proof {
            if old_self.environment_names().contains(name@) {
                let k = choose|k: int|
                    0 <= k < old_self.environment_names().len() && old_self.environment_names()[k]
                        == name@;
                assert(old_self.environment_names()[k] != name@);
            }
        }
        self.environments.push((owned, EnvironmentData::new()));
        assert(self.environment_names() =~= old_self.environment_names().push(name@));
        assert forall|k: int| 0 <= k < self.environments@.len() implies (
        #[trigger] self.environments@[k]).1.references_within(
            self.conda_pool().len(),
            self.pypi_pool().len(),
            self.runtime_pool().len(),
        ) by {
            if k < i {
                assert(self.environments@[k] == old_self.environments@[k]);
            }
        }
        assert(self.environment_names().no_duplicates()) by {
            let s = self.environment_names();
            assert forall|a: int, b: int| 0 <= a < s.len() && 0 <= b < s.len() && a != b implies s[a]
                != s[b] by {
                if a == i {
                    assert(old_self.environment_names()[b] == s[b]);
                } else if b == i {
                    assert(old_self.environment_names()[a] == s[a]);
                }
            }
        }
        i
    }

    /// Puts `env` back at slot `i`, whose name it keeps.
    proof fn lemma_replace_environment(
        old_b: LockFileBuilder,
        new_b: LockFileBuilder,
        i: int,
        env: EnvironmentData,
    )
        requires
            old_b.environment_names().no_duplicates(),
            0 <= i < old_b.environments@.len(),
            new_b.environments@ == old_b.environments@.update(i, (old_b.environments@[i].0, env)),
        ensures
            new_b.environment_names() == old_b.environment_names(),
            new_b.environment(old_b.environment_names()[i]) == env,
            forall|q: Seq<char>|
                q != old_b.environment_names()[i] && old_b.environment_names().contains(q)
                    ==> new_b.environment(q) == old_b.environment(q),
    {
        assert(new_b.environment_names() =~= old_b.environment_names());
        lemma_position_of_unique(old_b.environment_names(), old_b.environment_names()[i], i);
        assert forall|q: Seq<char>|
            q != old_b.environment_names()[i] && old_b.environment_names().contains(
                q,
            ) implies new_b.environment(q) == old_b.environment(q) by {
            let j = position_of(old_b.environment_names(), q);
            assert(j != i);
        }
    }

    /// Appends `reference` to the list of `name` for `platform`, creating either as
    /// needed.
    fn push_reference(&mut self, name: &str, platform: Platform, reference: EnvironmentPackageData)
        requires
            old(self).wf(),
            old(self).resolves(reference),
        ensures
            final(self).wf(),
            old(self).environment_names().contains(name@) ==> final(self).environment_names()
                == old(self).environment_names(),
            !old(self).environment_names().contains(name@) ==> final(self).environment_names()
                == old(self).environment_names().push(name@),
            forall|e: Seq<char>| #[trigger]
                final(self).channels_of(e) == old(self).channels_of(e),
            final(self).packages_of(name@, platform@) == old(self).packages_of(
                name@,
                platform@,
            ).push(reference),
            forall|e: Seq<char>, p: Seq<char>|
                (e, p) != (name@, platform@) ==> #[trigger] final(self).packages_of(e, p)
                    == old(self).packages_of(e, p),
            final(self).conda_packages == old(self).conda_packages,
            final(self).pypi_packages == old(self).pypi_packages,
            final(self).pypi_runtime_configurations == old(self).pypi_runtime_configurations,
    {
        let ghost old_self = *self;
        let i = self.environment_entry(name);
        let ghost mid = *self;
        let (n, mut env) = self.environments.remove(i);
        assert(mid.environments@[i as int].1.wf());
        let ghost env0 = env;
        env.push_package(platform, reference);
        self.environments.insert(i, (n, env));
        proof {
            assert(self.environments@ =~= mid.environments@.update(i as int, (n, env)));
            Self::lemma_replace_environment(mid, *self, i as int, env);
            lemma_position_of_unique(mid.environment_names(), name@, i as int);
            assert forall|k: int| 0 <= k < self.environments@.len() implies (
            #[trigger] self.environments@[k]).1.wf() && self.environments@[k].1.references_within(
                self.conda_pool().len(),
                self.pypi_pool().len(),
                self.runtime_pool().len(),
            ) by {
                if k != i {
                    assert(self.environments@[k] == mid.environments@[k]);
                } else {
                    assert(mid.environments@[k].1 == env0);
                }
            }
            if old_self.environment_names().contains(name@) {
                assert(mid.environment_names() == old_self.environment_names());
            } else {
                assert(mid.environment_names() =~= old_self.environment_names().push(name@));
                assert forall|q: Seq<char>| old_self.environment_names().contains(q) implies mid.environment(q) == old_self.environment(q) by {
                    let j = position_of(old_self.environment_names(), q);
                    assert(mid.environment_names()[j] == q);
                    lemma_position_of_unique(mid.environment_names(), q, j);
                }
            }
            assert(mid.environment(name@) == env0);
            assert(self.environment(name@) == env);
            assert(self.environment_names() == mid.environment_names());
            if old_self.environment_names().contains(name@) {
                assert(env0 == old_self.environment(name@));
            } else {
                assert(env0.channel_urls() == old_self.channels_of(name@));
                assert forall|p: Seq<char>| env0.packages_for(p) == old_self.packages_of(name@, p) by {
                }
            }
            assert forall|e: Seq<char>| e != name@ && old_self.environment_names().contains(e) implies
                self.environment(e) == old_self.environment(e) && self.environment_names().contains(e) by {
                let j = choose|j: int| 0 <= j < old_self.environment_names().len() && old_self.environment_names()[j] == e;
                assert(mid.environment_names()[j] == e);
                assert(mid.environment_names().contains(e));
                assert(self.environment(e) == mid.environment(e));
            }
            assert forall|e: Seq<char>| !old_self.environment_names().contains(e) && e != name@ implies
                !self.environment_names().contains(e) by {
                if self.environment_names().contains(e) {
                    let j = choose|j: int| 0 <= j < self.environment_names().len() && self.environment_names()[j] == e;
                    if old_self.environment_names().contains(name@) {
                    } else {
                        assert(j != i);
                        assert(old_self.environment_names()[j] == e);
                    }
                }
            }
            assert forall|e: Seq<char>| #[trigger]
                self.channels_of(e) == old_self.channels_of(e) by {
                if e == name@ {
                    assert(self.environment_names().contains(e));
                } else if old_self.environment_names().contains(e) {
                    let j = choose|j: int|
                        0 <= j < old_self.environment_names().len()
                            && old_self.environment_names()[j] == e;
                    assert(mid.environment_names()[j] == e);
                    assert(self.environment_names()[j] == e);
                    assert(self.environment(e) == old_self.environment(e));
                } else {
                    assert(!self.environment_names().contains(e));
                }
            }
            assert forall|e: Seq<char>, p: Seq<char>|
                (e, p) != (name@, platform@) implies #[trigger] self.packages_of(e, p)
                    == old_self.packages_of(e, p) by {
                if e == name@ {
                } else if old_self.environment_names().contains(e) {
                    let j = choose|j: int|
                        0 <= j < old_self.environment_names().len()
                            && old_self.environment_names()[j] == e;
                    assert(mid.environment_names()[j] == e);
                    assert(self.environment_names()[j] == e);
                    assert(self.environment(e) == old_self.environment(e));
                } else {
                    assert(!self.environment_names().contains(e));
                }
            }
        }
    }

    /// Sets the channels of `environment`, creating it if needed.
    pub fn set_channels(&mut self, environment: &str, channels: Vec<Channel>)
        requires
            old(self).wf(),
        ensures
            final(self).wf(),
            environment_added(
                old(self).environment_names(),
                final(self).environment_names(),
                environment@,
            ),
            final(self).channels_of(environment@) == channels@.map_values(|c: Channel| c@),
            forall|e: Seq<char>|
                e != environment@ ==> #[trigger] final(self).channels_of(e) == old(
                    self,
                ).channels_of(e),
            forall|e: Seq<char>, p: Seq<char>| #[trigger]
                final(self).packages_of(e, p) == old(self).packages_of(e, p),
            final(self).conda_pool() == old(self).conda_pool(),
            final(self).pypi_pool() == old(self).pypi_pool(),
            final(self).runtime_pool() == old(self).runtime_pool(),
    {
        let ghost old_self = *self;
        let ghost name = environment@;
        let i = self.environment_entry(environment);
        let ghost mid = *self;
        let (n, mut env) = self.environments.remove(i);
        assert(mid.environments@[i as int].1.wf());
        let ghost env0 = env;
        env.set_channels(channels);
        self.environments.insert(i, (n, env));
        proof {
            assert(self.environments@ =~= mid.environments@.update(i as int, (n, env)));
            Self::lemma_replace_environment(mid, *self, i as int, env);
            lemma_position_of_unique(mid.environment_names(), name, i as int);
            assert forall|k: int| 0 <= k < self.environments@.len() implies (
            #[trigger] self.environments@[k]).1.wf() && self.environments@[k].1.references_within(
                self.conda_pool().len(),
                self.pypi_pool().len(),
                self.runtime_pool().len(),
            ) by {
                if k != i {
                    assert(self.environments@[k] == mid.environments@[k]);
                } else {
                    assert(mid.environments@[k].1 == env0);
                }
            }
            assert(env.channel_urls() =~= channels@.map_values(|c: Channel| c@));
            assert forall|p: Seq<char>| env.packages_for(p) == env0.packages_for(p) by {
                assert(env.platforms() =~= env0.platforms());
            }
            if old_self.environment_names().contains(name) {
                assert(mid.environment_names() == old_self.environment_names());
                assert(env0 == old_self.environment(name));
            } else {
                assert(mid.environment_names() =~= old_self.environment_names().push(name));
                assert forall|p: Seq<char>| env0.packages_for(p) == old_self.packages_of(name, p) by {
                }
            }
            assert forall|e: Seq<char>| e != name && old_self.environment_names().contains(e) implies
                self.environment(e) == old_self.environment(e) && self.environment_names().contains(e) by {
                let j = choose|j: int| 0 <= j < old_self.environment_names().len() && old_self.environment_names()[j] == e;
                assert(mid.environment_names()[j] == e);
                if !old_self.environment_names().contains(name) {
                    lemma_position_of_unique(mid.environment_names(), e, j);
                }
                assert(self.environment(e) == mid.environment(e));
            }
            assert forall|e: Seq<char>| !old_self.environment_names().contains(e) && e != name implies
                !self.environment_names().contains(e) by {
                if self.environment_names().contains(e) {
                    let j = choose|j: int| 0 <= j < self.environment_names().len() && self.environment_names()[j] == e;
                    if !old_self.environment_names().contains(name) {
                        assert(j != i);
                        assert(old_self.environment_names()[j] == e);
                    }
                }
            }
            assert forall|e: Seq<char>| e != name implies #[trigger] self.channels_of(e) == old_self.channels_of(e) by {
                if old_self.environment_names().contains(e) {
                    let j = choose|j: int|
                        0 <= j < old_self.environment_names().len()
                            && old_self.environment_names()[j] == e;
                    assert(mid.environment_names()[j] == e);
                    assert(self.environment_names()[j] == e);
                    assert(self.environment(e) == old_self.environment(e));
                } else {
                    assert(!self.environment_names().contains(e));
                }
            }
            assert forall|e: Seq<char>, p: Seq<char>| #[trigger] self.packages_of(e, p)
                    == old_self.packages_of(e, p) by {
                if e == name {
                    assert(self.environment_names()[i as int] == e);
                } else if old_self.environment_names().contains(e) {
                    let j = choose|j: int|
                        0 <= j < old_self.environment_names().len()
                            && old_self.environment_names()[j] == e;
                    assert(mid.environment_names()[j] == e);
                    assert(self.environment_names()[j] == e);
                    assert(self.environment(e) == old_self.environment(e));
                } else {
                    assert(!self.environment_names().contains(e));
                }
            }
        }
    }

    /// Adds a conda package to the list of `environment` for `platform`, storing the
    /// package in the pool unless an equal one is there already.
    pub fn add_conda_package(
        &mut self,
        environment: &str,
        platform: Platform,
        locked_package: CondaPackageData,
    )
        requires
            old(self).wf(),
        ensures
            final(self).wf(),
            conda_package_added(*old(self), *final(self), environment@, platform@, locked_package@),
    {
        let ghost old_self = *self;
        let (package_idx, _) = self.conda_packages.insert_full(locked_package);
        proof {
            self.lemma_pools_grew(old_self);
        }
        self.push_reference(environment, platform, EnvironmentPackageData::Conda(package_idx));
    }

    /// Adds a pypi package with its environment data to the list of `environment` for
    /// `platform`. The package and the data are each pooled; data with the same extras,
    /// in whatever order, share one slot.
    pub fn add_pypi_package(
        &mut self,
        environment: &str,
        platform: Platform,
        locked_package: PypiPackageData,
        environment_data: PypiPackageEnvironmentData,
    )
        requires
            old(self).wf(),
        ensures
            final(self).wf(),
            pypi_package_added(
                *old(self),
                *final(self),
                environment@,
                platform@,
                locked_package@,
                environment_data@.to_set(),
            ),
    {
        let ghost old_self = *self;
        let (package_idx, _) = self.pypi_packages.insert_full(locked_package);
        let key = HashablePypiPackageEnvironmentData::from_data(environment_data);
        let (runtime_idx, _) = self.pypi_runtime_configurations.insert_full(key);
        proof {
            self.lemma_pools_grew(old_self);
        }
        self.push_reference(
            environment,
            platform,
            EnvironmentPackageData::Pypi(package_idx, runtime_idx),
        );
    }

    /// Consuming form of [`LockFileBuilder::add_conda_package`].
    pub fn with_conda_package(
        self,
        environment: &str,
        platform: Platform,
        locked_package: CondaPackageData,
    ) -> (r: Self)
        requires
            self.wf(),
        ensures
            r.wf(),
            conda_package_added(self, r, environment@, platform@, locked_package@),
    {
        let mut b = self;
        b.add_conda_package(environment, platform, locked_package);
        b
    }

    /// Consuming form of [`LockFileBuilder::add_pypi_package`].
    pub fn with_pypi_package(
        self,
        environment: &str,
        platform: Platform,
        locked_package: PypiPackageData,
        environment_data: PypiPackageEnvironmentData,
    ) -> (r: Self)
        requires
            self.wf(),
        ensures
            r.wf(),
            pypi_package_added(
                self,
                r,
                environment@,
                platform@,
                locked_package@,
                environment_data@.to_set(),
            ),
    {
        let mut b = self;
        b.add_pypi_package(environment, platform, locked_package, environment_data);
        b
    }

    /// Consuming form of [`LockFileBuilder::set_channels`].
    pub fn with_channels(self, environment: &str, channels: Vec<Channel>) -> (r: Self)
        requires
            self.wf(),
        ensures
            r.wf(),
            environment_added(self.environment_names(), r.environment_names(), environment@),
            r.channels_of(environment@) == channels@.map_values(|c: Channel| c@),
            forall|e: Seq<char>|
                e != environment@ ==> #[trigger] r.channels_of(e) == self.channels_of(e),
            forall|e: Seq<char>, p: Seq<char>| #[trigger]
                r.packages_of(e, p) == self.packages_of(e, p),
            r.conda_pool() == self.conda_pool(),
            r.pypi_pool() == self.pypi_pool(),
            r.runtime_pool() == self.runtime_pool(),
    {
        let mut b = self;
        b.set_channels(environment, channels);
        b
    }
}

impl LockFileBuilder {
    /// Turns the builder into a lock file: each environment gets the index of its
    /// first use, and the pools keep their first-seen order.
    pub fn finish(self) -> (lf: LockFile)
        requires
            self.wf(),
        ensures
            finished_from(self, lf),
            lf.references_resolve(),
    {
        let ghost b = self;
        let LockFileBuilder {
            environments,
            conda_packages,
            pypi_packages,
            pypi_runtime_configurations,
        } = self;
        let mut rest = environments;
        let n = rest.len();
        let mut environment_lookup: Vec<(String, usize)> = Vec::new();
        let mut environment_datas: Vec<EnvironmentData> = Vec::new();
        let mut idx: usize = 0;
        while rest.len() > 0
            invariant
                n == b.environments@.len(),
                idx <= n,
                rest@ == b.environments@.subrange(idx as int, n as int),
                environment_lookup@.len() == idx,
                environment_datas@.len() == idx,
                forall|k: int|
                    0 <= k < idx ==> (#[trigger] environment_lookup@[k]).0@ == b.environments@[k].0@,
                forall|k: int| 0 <= k < idx ==> (#[trigger] environment_lookup@[k]).1 == k,
                forall|k: int|
                    0 <= k < idx ==> #[trigger] environment_datas@[k] == b.environments@[k].1,
            decreases rest@.len(),
        {
            let (name, env) = rest.remove(0);
            assert(b.environments@[idx as int] == (name, env));
            let ghost pre_lookup = environment_lookup@;
            let ghost pre_datas = environment_datas@;
            environment_lookup.push((name, idx));
            environment_datas.push(env);
            assert(environment_lookup@ == pre_lookup.push((name, idx)));
            assert(environment_datas@ == pre_datas.push(env));
            assert forall|k: int| 0 <= k <= idx implies environment_lookup@[k].0@
                == b.environments@[k].0@ && environment_lookup@[k].1 == k && environment_datas@[k]
                == b.environments@[k].1 by {
                if k < idx {
                    assert(environment_lookup@[k] == pre_lookup[k]);
                    assert(environment_datas@[k] == pre_datas[k]);
                }
            }
            idx = idx + 1;
            assert(rest@ =~= b.environments@.subrange(idx as int, n as int));
        }
        assert(idx == n);
        let mut keys = pypi_runtime_configurations.into_vec();
        let ghost key_view = keys@;
        let m = keys.len();
        let mut datas: Vec<PypiPackageEnvironmentData> = Vec::new();
        let mut j: usize = 0;
        while keys.len() > 0
            invariant
                m == key_view.len(),
                j <= m,
                keys@ == key_view.subrange(j as int, m as int),
                datas@.len() == j,
                forall|k: int| 0 <= k < j ==> (#[trigger] datas@[k])@.to_set() == key_view[k]@,
            decreases keys@.len(),
        {
            let key = keys.remove(0);
            assert(key_view[j as int] == key);
            datas.push(key.into_data());
            j = j + 1;
        }
        assert(j == m);
        let lf = LockFile {
            conda_packages: conda_packages.into_vec(),
            pypi_packages: pypi_packages.into_vec(),
            pypi_environment_package_datas: datas,
            environments: environment_datas,
            environment_lookup,
        };
        proof {
            assert(lf.environment_names().len() == b.environment_names().len());
            assert forall|i: int| 0 <= i < n implies lf.environment_names()[i] == b.environment_names()[i] by {
                assert(lf.environment_lookup@[i].0@ == b.environments@[i].0@);
            }
            assert(lf.environment_names() =~= b.environment_names());
            assert forall|i: int| 0 <= i < n implies lf.environments_view()[i] == b.environment(
                b.environment_names()[i],
            ) by {
                lemma_position_of_unique(b.environment_names(), b.environment_names()[i], i);
            }
            assert forall|i: int| 0 <= i < lf.environments@.len() implies (
            #[trigger] lf.environments@[i]).references_within(
                lf.conda_packages@.len(),
                lf.pypi_packages@.len(),
                lf.pypi_environment_package_datas@.len(),
            ) by {
                assert(lf.environments@[i] == b.environments@[i].1);
                assert(lf.conda_packages@.len() == lf.conda_view().len());
                assert(lf.pypi_packages@.len() == lf.pypi_view().len());
                assert(b.environments@[i].1.references_within(
                    b.conda_pool().len(),
                    b.pypi_pool().len(),
                    b.runtime_pool().len(),
                ));
            }
            assert forall|i: int| 0 <= i < n implies lf.lookup_index(i) == i by {
                assert(lf.environment_lookup@[i].1 == i);
            }
            assert forall|i: int| 0 <= i < m implies lf.runtime_view()[i].to_set() == b.runtime_pool()[i] by {
                assert(lf.runtime_view()[i] == datas@[i]@);
            }
        }
        lf
    }
}

/// `lf` holds what `b` had: the environments in the order of their names, each name
/// looked up to its own position, and the pools as they were.
pub open spec fn finished_from(b: LockFileBuilder, lf: LockFile) -> bool {
    &&& lf.environment_names() == b.environment_names()
    &&& lf.environments_view().len() == b.environment_names().len()
    &&& forall|i: int| 0 <= i < b.environment_names().len() ==> lf.lookup_index(i) == i
    &&& forall|i: int|
        0 <= i < b.environment_names().len() ==> lf.environments_view()[i] == b.environment(
            b.environment_names()[i],
        )
    &&& lf.conda_view() == b.conda_pool()
    &&& lf.pypi_view() == b.pypi_pool()
    &&& lf.runtime_view().len() == b.runtime_pool().len()
    &&& forall|i: int|
        0 <= i < b.runtime_pool().len() ==> (#[trigger] lf.runtime_view()[i]).to_set()
            == b.runtime_pool()[i]
}

/// `new` is `old` with `name` appended unless it was there.
pub open spec fn environment_added(old: Seq<Seq<char>>, new: Seq<Seq<char>>, name: Seq<char>) -> bool {
    if old.contains(name) {
        new == old
    } else {
        new == old.push(name)
    }
}

/// `new` is `old` with `v` appended unless it was there.
pub open spec fn pooled<V>(old: Seq<V>, new: Seq<V>, v: V) -> bool {
    if old.contains(v) {
        new == old
    } else {
        new == old.push(v)
    }
}

/// `new` is `old` with `reference` appended to the list of `name` for `platform`,
/// and nothing else of the environments changed.
pub open spec fn reference_appended(
    old: LockFileBuilder,
    new: LockFileBuilder,
    name: Seq<char>,
    platform: Seq<char>,
    reference: EnvironmentPackageData,
) -> bool {
    &&& environment_added(old.environment_names(), new.environment_names(), name)
    &&& forall|e: Seq<char>| #[trigger] new.channels_of(e) == old.channels_of(e)
    &&& new.packages_of(name, platform) == old.packages_of(name, platform).push(reference)
    &&& forall|e: Seq<char>, p: Seq<char>|
        (e, p) != (name, platform) ==> #[trigger] new.packages_of(e, p) == old.packages_of(e, p)
}

/// What adding the conda package `package` to `name` for `platform` does.
pub open spec fn conda_package_added(
    old: LockFileBuilder,
    new: LockFileBuilder,
    name: Seq<char>,
    platform: Seq<char>,
    package: CondaView,
) -> bool {
    &&& pooled(old.conda_pool(), new.conda_pool(), package)
    &&& new.pypi_pool() == old.pypi_pool()
    &&& new.runtime_pool() == old.runtime_pool()
    &&& reference_appended(
        old,
        new,
        name,
        platform,
        EnvironmentPackageData::Conda(position_of(new.conda_pool(), package) as usize),
    )
}

/// What adding the pypi package `package`, with extras `extras`, to `name` for
/// `platform` does.
pub open spec fn pypi_package_added(
    old: LockFileBuilder,
    new: LockFileBuilder,
    name: Seq<char>,
    platform: Seq<char>,
    package: PypiView,
    extras: Set<Seq<char>>,
) -> bool {
    &&& new.conda_pool() == old.conda_pool()
    &&& pooled(old.pypi_pool(), new.pypi_pool(), package)
    &&& pooled(old.runtime_pool(), new.runtime_pool(), extras)
    &&& reference_appended(
        old,
        new,
        name,
        platform,
        EnvironmentPackageData::Pypi(
            position_of(new.pypi_pool(), package) as usize,
            position_of(new.runtime_pool(), extras) as usize,
        ),
    )
}

/// Adding one conda package under two (environment, platform) pairs takes at most one
/// pool slot, and both references carry the same pool index.
pub proof fn lemma_conda_package_stored_once(
    b0: LockFileBuilder,
    b1: LockFileBuilder,
    b2: LockFileBuilder,
    e1: Seq<char>,
    p1: Seq<char>,
    e2: Seq<char>,
    p2: Seq<char>,
    package: CondaView,
)
    requires
        b0.wf(),
        b1.wf(),
        b2.wf(),
        conda_package_added(b0, b1, e1, p1, package),
        conda_package_added(b1, b2, e2, p2, package),
    ensures
        b2.conda_pool() == b1.conda_pool(),
        b2.conda_pool().len() == b0.conda_pool().len() + if b0.conda_pool().contains(package) {
            0int
        } else {
            1int
        },
        b1.packages_of(e1, p1).last() == b2.packages_of(e2, p2).last(),
        b2.packages_of(e2, p2).last() == EnvironmentPackageData::Conda(
            position_of(b2.conda_pool(), package) as usize,
        ),
{
    assert(b1.conda_pool().contains(package)) by {
        if !b0.conda_pool().contains(package) {
            assert(b1.conda_pool()[b0.conda_pool().len() as int] == package);
        }
    }
}

/// Pypi environment data whose extras are the same set, in whatever order, share one
/// slot of the pool, and references to them carry the same index.
pub proof fn lemma_extras_order_does_not_matter(
    b0: LockFileBuilder,
    b1: LockFileBuilder,
    b2: LockFileBuilder,
    e1: Seq<char>,
    p1: Seq<char>,
    e2: Seq<char>,
    p2: Seq<char>,
    package1: PypiView,
    package2: PypiView,
    extras1: Seq<Seq<char>>,
    extras2: Seq<Seq<char>>,
)
    requires
        b0.wf(),
        b1.wf(),
        b2.wf(),
        extras1.to_set() == extras2.to_set(),
        pypi_package_added(b0, b1, e1, p1, package1, extras1.to_set()),
        pypi_package_added(b1, b2, e2, p2, package2, extras2.to_set()),
    ensures
        b2.runtime_pool() == b1.runtime_pool(),
        b1.packages_of(e1, p1).last()->Pypi_1 == b2.packages_of(e2, p2).last()->Pypi_1,
{
    assert(b1.runtime_pool().contains(extras1.to_set())) by {
        if !b0.runtime_pool().contains(extras1.to_set()) {
            assert(b1.runtime_pool()[b0.runtime_pool().len() as int] == extras1.to_set());
        }
    }
}

/// The lock file keeps the order in which the builder first saw each environment:
/// the `i`-th name leads to index `i`, where that environment's data stands.
pub proof fn lemma_finish_keeps_environment_order(b: LockFileBuilder, lf: LockFile)
    requires
        b.wf(),
        finished_from(b, lf),
    ensures
        forall|i: int|
            0 <= i < b.environment_names().len() ==> {
                &&& lf.environment_names()[i] == b.environment_names()[i]
                &&& lf.lookup_index(i) == i
                &&& lf.environments_view()[lf.lookup_index(i)] == b.environment(
                    b.environment_names()[i],
                )
            },
        lf.environment_names().len() == b.environment_names().len(),
{
}

} // verus!
