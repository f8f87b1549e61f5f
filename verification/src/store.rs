//! The community store: the one map from community identifier to its
//! ledger, created lazily and never implicitly destroyed, plus the
//! aggregate statistics the status rotation reports.

use vstd::prelude::*;

use crate::assoc::{assoc_get, assoc_index, keys_unique, lemma_assoc_get_none,
    lemma_keys_unique_push};
use crate::ledger::{default_ledger, LedgerEntity, LedgerView};
use crate::maps::{sat64, sum_counts};

verus! {

/// Every community's ledger, keyed by community identifier, in the order
/// first seen.
pub struct CommunityStore {
    pub communities: Vec<(u64, LedgerEntity)>,
}

impl View for CommunityStore {
    type V = Seq<(u64, LedgerView)>;

    open spec fn view(&self) -> Seq<(u64, LedgerView)> {
        Seq::new(self.communities@.len(), |i: int| (self.communities@[i].0, self.communities@[i].1@))
    }
}

impl CommunityStore {
    /// Keys never repeat and every ledger is well formed.
    pub open spec fn wf(&self) -> bool {
        &&& keys_unique(self@)
        &&& forall|i: int| 0 <= i < self@.len() ==> (#[trigger] self@[i]).1.wf()
    }

    /// The ledger a community currently has, if any.
    pub open spec fn spec_get(&self, id: u64) -> Option<LedgerView> {
        assoc_get(self@, id)
    }

    /// An empty store.
    pub fn new() -> (r: CommunityStore)
        ensures
            r@ =~= Seq::<(u64, LedgerView)>::empty(),
            r.wf(),
    {
        let r = CommunityStore { communities: Vec::new() };
        proof {
            assert(r@ =~= Seq::<(u64, LedgerView)>::empty());
        }
        r
    }

    /// Number of communities served.
    pub fn len(&self) -> (r: usize)
        ensures
            r == self@.len(),
    {
        self.communities.len()
    }

    /// Finds a community's slot, creating it with the default
    /// configuration on first touch.  Returns the slot's index.
    pub fn get_or_create(&mut self, community_id: u64) -> (i: usize)
        requires
            old(self).wf(),
        ensures
            final(self).wf(),
            i < final(self)@.len(),
            final(self)@[i as int].0 == community_id,
            match old(self).spec_get(community_id) {
                Some(_) => *final(self) == *old(self) && i == assoc_index(old(self)@, community_id),
                None => final(self)@ =~= old(self)@.push((community_id, default_ledger())) && i
                    == old(self)@.len(),
            },
    {
        let ghost pre = self@;
        let n = self.communities.len();
        let mut i: usize = 0;
        while i < n
            invariant
                pre == self@,
                *self == *old(self),
                old(self).wf(),
                n == pre.len(),
                i <= n,
                forall|j: int| 0 <= j < i ==> (#[trigger] pre[j]).0 != community_id,
            decreases n - i,
        {
            if self.communities[i].0 == community_id {
                proof {
                    crate::assoc::lemma_assoc_get_none(pre, community_id);
                    lemma_index_of_first(pre, community_id, i as int);
                }
                return i;
            }
            i = i + 1;
        }
        proof {
            lemma_assoc_get_none(pre, community_id);
        }
        self.communities.push((community_id, LedgerEntity::new()));
        proof {
            assert(self@ =~= pre.push((community_id, default_ledger())));
            lemma_keys_unique_push(pre, community_id, default_ledger());
            assert(keys_unique(self@));
            assert forall|j: int| 0 <= j < self@.len() implies (#[trigger] self@[j]).1.wf() by {
                if j < pre.len() {
                    assert(self@[j] == pre[j]);
                } else {
                    assert(self@[j].1 == default_ledger());
                }
            }
        }
        n
    }

    /// A borrow of the ledger at a slot.
    pub fn at(&self, i: usize) -> (r: &LedgerEntity)
        requires
            i < self@.len(),
        ensures
            r@ == self@[i as int].1,
    {
        &self.communities[i].1
    }

    /// The community identifier at a slot.
    pub fn id_at(&self, i: usize) -> (r: u64)
        requires
            i < self@.len(),
        ensures
            r == self@[i as int].0,
    {
        self.communities[i].0
    }
}

/// Helper: the first matching slot is the assoc index.
proof fn lemma_index_of_first(s: Seq<(u64, LedgerView)>, id: u64, i: int)
    requires
        0 <= i < s.len(),
        s[i].0 == id,
        forall|j: int| 0 <= j < i ==> (#[trigger] s[j]).0 != id,
    ensures
        assoc_get(s, id) is Some,
        assoc_index(s, id) == i,
    decreases s.len(),
{
    if s[0].0 != id {
        assert(forall|j: int| 0 <= j < i - 1 ==> (#[trigger] s.drop_first()[j]) == s[j + 1]);
        assert(s.drop_first()[i - 1] == s[i]);
        lemma_index_of_first(s.drop_first(), id, i - 1);
    }
}

/// Total votes handed out across every community.
pub open spec fn total_given_of(s: Seq<(u64, LedgerView)>) -> nat
    decreases s.len(),
{
    if s.len() == 0 {
        0
    } else {
        (total_given_of(s.drop_last()) + sum_counts(s.last().1.taters_given)) as nat
    }
}

/// Total tracked messages across every community.
pub open spec fn total_messages_of(s: Seq<(u64, LedgerView)>) -> nat
    decreases s.len(),
{
    if s.len() == 0 {
        0
    } else {
        (total_messages_of(s.drop_last()) + s.last().1.tatered_messages.len()) as nat
    }
}

impl CommunityStore {
    /// Total votes handed out everywhere, saturating at the machine
    /// maximum.
    pub fn total_given(&self) -> (r: u64)
        ensures
            r == sat64(total_given_of(self@)),
    {
        let ghost s = self@;
        let mut acc: u64 = 0;
        let mut i: usize = 0;
        while i < self.communities.len()
            invariant
                s == self@,
                i <= s.len(),
                acc == sat64(total_given_of(s.subrange(0, i as int))),
            decreases s.len() - i,
        {
            let v = self.communities[i].1.taters_given.total();
            proof {
                assert(s.subrange(0, i + 1).drop_last() =~= s.subrange(0, i as int));
                assert(s.subrange(0, i + 1).last() == s[i as int]);
            }
            acc = if acc > u64::MAX - v {
                u64::MAX
            } else {
                acc + v
            };
            i = i + 1;
        }
        proof {
            assert(s.subrange(0, s.len() as int) =~= s);
        }
        acc
    }

    /// Total tracked messages everywhere, saturating at the machine
    /// maximum.
    pub fn total_messages(&self) -> (r: u64)
        ensures
            r == sat64(total_messages_of(self@)),
    {
        let ghost s = self@;
        let mut acc: u64 = 0;
        let mut i: usize = 0;
        while i < self.communities.len()
            invariant
                s == self@,
                i <= s.len(),
                acc == sat64(total_messages_of(s.subrange(0, i as int))),
            decreases s.len() - i,
        {
            let v = self.communities[i].1.tatered_messages.len();
            proof {
                assert(s.subrange(0, i + 1).drop_last() =~= s.subrange(0, i as int));
                assert(s.subrange(0, i + 1).last() == s[i as int]);
            }
            let v64: u64 = if (v as u64) > u64::MAX {
                u64::MAX
            } else {
                v as u64
            };
            acc = if acc > u64::MAX - v64 {
                u64::MAX
            } else {
                acc + v64
            };
            i = i + 1;
        }
        proof {
            assert(s.subrange(0, s.len() as int) =~= s);
        }
        acc
    }

    /// The highest vote count cached on any single message anywhere.
    pub fn max_single_count(&self) -> (r: u64)
        ensures
            r == store_max(self@),
    {
        let ghost s = self@;
        let mut best: u64 = 0;
        let mut i: usize = 0;
        while i < self.communities.len()
            invariant
                s == self@,
                i <= s.len(),
                best == store_max(s.subrange(0, i as int)),
            decreases s.len() - i,
        {
            let m = self.communities[i].1.tatered_messages.max_count();
            proof {
                assert(s.subrange(0, i + 1).drop_last() =~= s.subrange(0, i as int));
                assert(s.subrange(0, i + 1).last() == s[i as int]);
                assert(self.communities@[i as int].1@.tatered_messages == s[i as int].1.tatered_messages);
            }
            if m > best {
                best = m;
            }
            i = i + 1;
        }
        proof {
            assert(s.subrange(0, s.len() as int) =~= s);
        }
        best
    }
}

/// The highest single-message vote count across every community, zero
/// when nothing is tracked.
pub open spec fn store_max(s: Seq<(u64, LedgerView)>) -> u64
    decreases s.len(),
{
    if s.len() == 0 {
        0u64
    } else if crate::maps::msg_max(s.last().1.tatered_messages) > store_max(s.drop_last()) {
        crate::maps::msg_max(s.last().1.tatered_messages)
    } else {
        store_max(s.drop_last())
    }
}

} // verus!
