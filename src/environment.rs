//! The data that a lock file holds for one environment.

use vstd::prelude::*;
use crate::lock_data::{Channel, EnvironmentPackageData, Platform};
use crate::pool::position_of;

verus! {

/// The channels of an environment and, for each platform, its packages in the
/// order in which they were added.
#[derive(Debug)]
pub struct EnvironmentData {
    pub channels: Vec<Channel>,
    pub packages: Vec<(Platform, Vec<EnvironmentPackageData>)>,
}

impl EnvironmentData {
    /// The urls of the channels, in order.
    pub open spec fn channel_urls(&self) -> Seq<Seq<char>> {
        self.channels@.map_values(|c: Channel| c@)
    }

    /// The platforms that have a package list, in the order they first got one.
    pub open spec fn platforms(&self) -> Seq<Seq<char>> {
        self.packages@.map_values(|e: (Platform, Vec<EnvironmentPackageData>)| e.0@)
    }

    /// The packages for a platform; none where it has no list.
    pub open spec fn packages_for(&self, platform: Seq<char>) -> Seq<EnvironmentPackageData> {
        if self.platforms().contains(platform) {
            self.packages@[position_of(self.platforms(), platform)].1@
        } else {
            Seq::empty()
        }
    }

    /// Every reference points into pools of the given lengths.
    pub open spec fn references_within(&self, conda: nat, pypi: nat, runtime: nat) -> bool {
        forall|j: int, k: int|
            0 <= j < self.packages@.len() && 0 <= k < self.packages@[j].1@.len()
                ==> (#[trigger] self.packages@[j].1@[k]).points_within(conda, pypi, runtime)
    }

    /// Each platform has one list.
    pub open spec fn wf(&self) -> bool {
        self.platforms().no_duplicates()
    }

    /// An environment without channels or packages.
    pub fn new() -> (r: Self)
        ensures
            r.wf(),
            r.channel_urls() == Seq::<Seq<char>>::empty(),
            r.platforms() == Seq::<Seq<char>>::empty(),
            forall|c: nat, p: nat, q: nat| r.references_within(c, p, q),
            forall|p: Seq<char>| r.packages_for(p) == Seq::<EnvironmentPackageData>::empty(),
    {
        let r = EnvironmentData { channels: Vec::new(), packages: Vec::new() };
        assert(r.channel_urls() =~= Seq::<Seq<char>>::empty());
        assert(r.platforms() =~= Seq::<Seq<char>>::empty());
        r
    }

    /// The slot of a platform's list, if it has one.
    fn platform_position(&self, platform: &Platform) -> (r: Option<usize>)
        requires
            self.wf(),
        ensures
            match r {
                Some(i) => i < self.packages@.len() && self.platforms()[i as int] == platform@
                    && i == position_of(self.platforms(), platform@),
                None => !self.platforms().contains(platform@),
            },
    {
        let mut i: usize = 0;
        while i < self.packages.len()
            invariant
                i <= self.packages@.len(),
                self.wf(),
                forall|k: int| 0 <= k < i ==> self.platforms()[k] != platform@,
            decreases self.packages@.len() - i,
        {
            if self.packages[i].0.same_platform(platform) {
                proof {
                    crate::pool::lemma_position_of_unique(self.platforms(), platform@, i as int);
                }
                return Some(i);
            }
            i = i + 1;
        }
        proof {
            if self.platforms().contains(platform@) {
                let k = choose|k: int|
                    0 <= k < self.platforms().len() && self.platforms()[k] == platform@;
                assert(self.platforms()[k] != platform@);
            }
        }
        None
    }

    /// Appends `reference` to the list of `platform`, creating the list if needed.
    pub fn push_package(&mut self, platform: Platform, reference: EnvironmentPackageData)
        requires
            old(self).wf(),
        ensures
            final(self).wf(),
            forall|c: nat, p: nat, q: nat|
                old(self).references_within(c, p, q) && reference.points_within(c, p, q)
                    ==> #[trigger] final(self).references_within(c, p, q),
            final(self).channel_urls() == old(self).channel_urls(),
            final(self).packages_for(platform@) == old(self).packages_for(platform@).push(
                reference,
            ),
            forall|p: Seq<char>|
                p != platform@ ==> final(self).packages_for(p) == old(self).packages_for(p),
            old(self).platforms().contains(platform@) ==> final(self).platforms() == old(
                self,
            ).platforms(),
            !old(self).platforms().contains(platform@) ==> final(self).platforms() == old(
                self,
            ).platforms().push(platform@),
    {
        let ghost old_self = *self;
        let ghost pl = platform@;
        match self.platform_position(&platform) {
            Some(i) => {
                let (p, mut list) = self.packages.remove(i);
                list.push(reference);
                self.packages.insert(i, (p, list));
                assert forall|c: nat, pp: nat, q: nat|
                    old_self.references_within(c, pp, q) && reference.points_within(c, pp, q)
                        implies #[trigger] self.references_within(c, pp, q) by {
                    assert forall|j: int, k: int|
                        0 <= j < self.packages@.len() && 0 <= k < self.packages@[j].1@.len()
                            implies (#[trigger] self.packages@[j].1@[k]).points_within(c, pp, q) by {
                        if j != i {
                            assert(self.packages@[j] == old_self.packages@[j]);
                        } else if k < old_self.packages@[j].1@.len() {
                            assert(self.packages@[j].1@[k] == old_self.packages@[j].1@[k]);
                        }
                    }
                }
                assert(self.platforms() =~= old_self.platforms());
                assert(self.channel_urls() =~= old_self.channel_urls());
                assert forall|q: Seq<char>| q != pl implies self.packages_for(q)
                    == old_self.packages_for(q) by {
                    if old_self.platforms().contains(q) {
                        let j = position_of(old_self.platforms(), q);
                        assert(j != i);
                        assert(self.packages@[j] == old_self.packages@[j]);
                    }
                }
            },
            None => {
                let n = self.packages.len();
                let mut list = Vec::new();
                list.push(reference);
                self.packages.push((platform, list));
                assert forall|c: nat, pp: nat, q: nat|
                    old_self.references_within(c, pp, q) && reference.points_within(c, pp, q)
                        implies #[trigger] self.references_within(c, pp, q) by {
                    assert forall|j: int, k: int|
                        0 <= j < self.packages@.len() && 0 <= k < self.packages@[j].1@.len()
                            implies (#[trigger] self.packages@[j].1@[k]).points_within(c, pp, q) by {
                        if j < n {
                            assert(self.packages@[j] == old_self.packages@[j]);
                        }
                    }
                }
                assert(self.platforms() =~= old_self.platforms().push(pl));
                assert(self.channel_urls() =~= old_self.channel_urls());
                assert(self.wf()) by {
                    assert forall|a: int, b: int|
                        0 <= a < self.platforms().len() && 0 <= b < self.platforms().len() && a
                            != b implies self.platforms()[a] != self.platforms()[b] by {
                        if a == n {
                            assert(old_self.platforms()[b] == self.platforms()[b]);
                        } else if b == n {
                            assert(old_self.platforms()[a] == self.platforms()[a]);
                        }
                    }
                }
                proof {
                    assert(self.platforms()[n as int] == pl);
                    crate::pool::lemma_position_of_unique(self.platforms(), pl, n as int);
                    assert(self.packages@[n as int].1@ == seq![reference]);
                    assert(self.packages_for(pl) =~= seq![reference]);
                    assert(old_self.packages_for(pl) =~= Seq::<EnvironmentPackageData>::empty());
                }
                assert forall|q: Seq<char>| q != pl implies self.packages_for(q)
                    == old_self.packages_for(q) by {
                    if old_self.platforms().contains(q) {
                        let j = position_of(old_self.platforms(), q);
                        assert(self.platforms()[j] == q);
                        crate::pool::lemma_position_of_unique(self.platforms(), q, j);
                    } else {
                        assert(!self.platforms().contains(q)) by {
                            if self.platforms().contains(q) {
                                let j = choose|j: int|
                                    0 <= j < self.platforms().len() && self.platforms()[j] == q;
                                assert(j != n);
                                assert(old_self.platforms()[j] == q);
                            }
                        }
                    }
                }
            },
        }
    }

    /// Replaces the channels.
    pub fn set_channels(&mut self, channels: Vec<Channel>)
        requires
            old(self).wf(),
        ensures
            final(self).wf(),
            final(self).channels@ == channels@,
            final(self).packages@ == old(self).packages@,
            forall|c: nat, p: nat, q: nat|
                old(self).references_within(c, p, q) ==> #[trigger] final(self).references_within(c, p, q),
    {
        self.channels = channels;
    }
}

/// References that point into pools still do after the pools grow.
pub proof fn lemma_references_within_grow(
    env: EnvironmentData,
    c0: nat,
    p0: nat,
    q0: nat,
    c1: nat,
    p1: nat,
    q1: nat,
)
    requires
        env.references_within(c0, p0, q0),
        c0 <= c1,
        p0 <= p1,
        q0 <= q1,
    ensures
        env.references_within(c1, p1, q1),
{
    assert forall|j: int, k: int|
        0 <= j < env.packages@.len() && 0 <= k < env.packages@[j].1@.len()
            implies (#[trigger] env.packages@[j].1@[k]).points_within(c1, p1, q1) by {
        assert(env.packages@[j].1@[k].points_within(c0, p0, q0));
    }
}

} // verus!
