//! The two map shapes the ledger keeps: per-user counters and per-message
//! cached state.  Both preserve insertion order and keep keys unique.

use vstd::prelude::*;

use crate::assoc::{
    assoc_get, assoc_index, find_index, keys_unique, lemma_assoc_get_push, lemma_assoc_get_update,
    lemma_assoc_index, lemma_keys_unique_push, lemma_keys_unique_update,
};
use crate::ledger::TateredMessage;

verus! {

/// A counter map after one counter was raised by one: the existing binding
/// is bumped in place, a missing key enters at the back with count 1.
pub open spec fn bumped(s: Seq<(u64, u64)>, k: u64) -> Seq<(u64, u64)> {
    match assoc_get(s, k) {
        Some(v) => s.update(assoc_index(s, k), (k, (v + 1) as u64)),
        None => s.push((k, 1u64)),
    }
}

/// A counter map after one counter was lowered by one, clamped at zero: a
/// missing key enters at the back with count 0.
pub open spec fn lowered(s: Seq<(u64, u64)>, k: u64) -> Seq<(u64, u64)> {
    match assoc_get(s, k) {
        Some(v) => s.update(
            assoc_index(s, k),
            (k, if v == 0 {
                0u64
            } else {
                (v - 1) as u64
            }),
        ),
        None => s.push((k, 0u64)),
    }
}

/// The count bound to `k`, reading a missing key as zero.
pub open spec fn count_at(s: Seq<(u64, u64)>, k: u64) -> nat {
    match assoc_get(s, k) {
        Some(v) => v as nat,
        None => 0,
    }
}

/// Sum of every counter in the map.
pub open spec fn sum_counts(s: Seq<(u64, u64)>) -> nat
    decreases s.len(),
{
    if s.len() == 0 {
        0
    } else {
        (sum_counts(s.drop_last()) + s.last().1) as nat
    }
}

/// Saturation of an unbounded count into a machine word.
pub open spec fn sat64(n: nat) -> u64 {
    if n > u64::MAX {
        u64::MAX
    } else {
        n as u64
    }
}

/// Both counter moves keep keys unique.
pub proof fn lemma_moves_keep_keys_unique(s: Seq<(u64, u64)>, k: u64)
    requires
        keys_unique(s),
    ensures
        keys_unique(bumped(s, k)),
        keys_unique(lowered(s, k)),
{
    match assoc_get(s, k) {
        Some(v) => {
            lemma_keys_unique_update(s, k, (v + 1) as u64);
            lemma_keys_unique_update(s, k, if v == 0 { 0u64 } else { (v - 1) as u64 });
        },
        None => {
            lemma_keys_unique_push(s, k, 1u64);
            lemma_keys_unique_push(s, k, 0u64);
        },
    }
}

/// Ordered map from user identifier to an accumulated counter.
pub struct CountMap {
    pub entries: Vec<(u64, u64)>,
}

impl View for CountMap {
    type V = Seq<(u64, u64)>;

    open spec fn view(&self) -> Seq<(u64, u64)> {
        self.entries@
    }
}

impl CountMap {
    /// Keys never repeat.
    pub open spec fn wf(&self) -> bool {
        keys_unique(self@)
    }

    /// The binding for `k`, if any.
    pub open spec fn spec_get(&self, k: u64) -> Option<u64> {
        assoc_get(self@, k)
    }

    /// An empty counter map.
    pub fn new() -> (r: CountMap)
        ensures
            r@ =~= Seq::<(u64, u64)>::empty(),
            r.wf(),
    {
        CountMap { entries: Vec::new() }
    }

    /// Looks a counter up.
    pub fn get(&self, k: u64) -> (r: Option<u64>)
        ensures
            r == self.spec_get(k),
    {
        match find_index(&self.entries, k) {
            Some(i) => {
                proof {
                    lemma_assoc_index(self@, k);
                }
                Some(self.entries[i].1)
            },
            None => None,
        }
    }

    /// Number of users carrying a counter.
    pub fn len(&self) -> (r: usize)
        ensures
            r == self@.len(),
    {
        self.entries.len()
    }

    /// Raises `k`'s counter by one, unless it already sits at the machine
    /// maximum, in which case nothing changes.
    pub fn bump(&mut self, k: u64) -> (ok: bool)
        ensures
            ok == (old(self).spec_get(k) != Some(u64::MAX)),
            ok ==> final(self)@ == bumped(old(self)@, k),
            !ok ==> *final(self) == *old(self),
    {
        match find_index(&self.entries, k) {
            Some(i) => {
                proof {
                    lemma_assoc_index(self@, k);
                }
                let v = self.entries[i].1;
                if v == u64::MAX {
                    false
                } else {
                    self.entries[i] = (k, v + 1);
                    true
                }
            },
            None => {
                self.entries.push((k, 1));
                true
            },
        }
    }

    /// Lowers `k`'s counter by one, clamping at zero; reports whether the
    /// clamp fired (the counter was missing or already zero).
    pub fn lower(&mut self, k: u64) -> (clamped: bool)
        ensures
            clamped == (count_at(old(self)@, k) == 0),
            final(self)@ == lowered(old(self)@, k),
    {
        match find_index(&self.entries, k) {
            Some(i) => {
                proof {
                    lemma_assoc_index(self@, k);
                }
                let v = self.entries[i].1;
                if v == 0 {
                    self.entries[i] = (k, 0);
                    true
                } else {
                    self.entries[i] = (k, v - 1);
                    false
                }
            },
            None => {
                self.entries.push((k, 0));
                true
            },
        }
    }

    /// Sum of every counter, saturating at the machine maximum.
    pub fn total(&self) -> (r: u64)
        ensures
            r == sat64(sum_counts(self@)),
    {
        let ghost s = self@;
        let mut acc: u64 = 0;
        let mut i: usize = 0;
        while i < self.entries.len()
            invariant
                s == self@,
                i <= s.len(),
                acc == sat64(sum_counts(s.subrange(0, i as int))),
            decreases s.len() - i,
        {
            let v = self.entries[i].1;
            proof {
                assert(s.subrange(0, i + 1).drop_last() =~= s.subrange(0, i as int));
                assert(s.subrange(0, i + 1).last() == s[i as int]);
            }
            acc = if acc > u64::MAX - v {
                u64::MAX
            } else {
                acc + v
            };
            i = i + 1;
        }
        proof {
            assert(s.subrange(0, s.len() as int) =~= s);
        }
        acc
    }
}

/// The highest vote count in a run of cached messages, zero when empty.
pub open spec fn msg_max(s: Seq<(u64, TateredMessage)>) -> u64
    decreases s.len(),
{
    if s.len() == 0 {
        0u64
    } else if s.last().1.count > msg_max(s.drop_last()) {
        s.last().1.count
    } else {
        msg_max(s.drop_last())
    }
}

/// Predicate picking the cached messages a given user sent.
pub open spec fn sent_by(sender: u64) -> spec_fn((u64, TateredMessage)) -> bool {
    |p: (u64, TateredMessage)| p.1.sender == sender
}

/// What a message's cached entry becomes once its state is replaced.
pub open spec fn msg_updated(
    s: Seq<(u64, TateredMessage)>,
    k: u64,
    tm: TateredMessage,
) -> Seq<(u64, TateredMessage)> {
    match assoc_get(s, k) {
        Some(_) => s.update(assoc_index(s, k), (k, tm)),
        None => s.push((k, tm)),
    }
}

/// Replacing one message's entry changes that key's binding alone.
pub proof fn lemma_msg_updated_get(
    s: Seq<(u64, TateredMessage)>,
    k: u64,
    tm: TateredMessage,
    k2: u64,
)
    ensures
        assoc_get(msg_updated(s, k, tm), k2) == if k2 == k {
            Some(tm)
        } else {
            assoc_get(s, k2)
        },
        keys_unique(s) ==> keys_unique(msg_updated(s, k, tm)),
{
    match assoc_get(s, k) {
        Some(_) => {
            lemma_assoc_get_update(s, k, tm, k2);
            if keys_unique(s) {
                lemma_keys_unique_update(s, k, tm);
            }
        },
        None => {
            lemma_assoc_get_push(s, k, tm, k2);
            if keys_unique(s) {
                lemma_keys_unique_push(s, k, tm);
            }
        },
    }
}

/// Ordered map from message identifier to its cached voting state.
pub struct MsgMap {
    pub entries: Vec<(u64, TateredMessage)>,
}

impl View for MsgMap {
    type V = Seq<(u64, TateredMessage)>;

    open spec fn view(&self) -> Seq<(u64, TateredMessage)> {
        self.entries@
    }
}

impl MsgMap {
    /// Keys never repeat.
    pub open spec fn wf(&self) -> bool {
        keys_unique(self@)
    }

    /// The cached state for a message, if any.
    pub open spec fn spec_get(&self, k: u64) -> Option<TateredMessage> {
        assoc_get(self@, k)
    }

    /// An empty message map.
    pub fn new() -> (r: MsgMap)
        ensures
            r@ =~= Seq::<(u64, TateredMessage)>::empty(),
            r.wf(),
    {
        MsgMap { entries: Vec::new() }
    }

    /// Looks a message's cached state up.
    pub fn get(&self, k: u64) -> (r: Option<TateredMessage>)
        ensures
            r == self.spec_get(k),
    {
        match find_index(&self.entries, k) {
            Some(i) => {
                proof {
                    lemma_assoc_index(self@, k);
                }
                Some(self.entries[i].1)
            },
            None => None,
        }
    }

    /// Number of tracked messages.
    pub fn len(&self) -> (r: usize)
        ensures
            r == self@.len(),
    {
        self.entries.len()
    }

    /// Replaces (or introduces) the cached state of one message.
    pub fn put(&mut self, k: u64, tm: TateredMessage)
        ensures
            final(self)@ == msg_updated(old(self)@, k, tm),
    {
        match find_index(&self.entries, k) {
            Some(i) => {
                proof {
                    lemma_assoc_index(self@, k);
                }
                self.entries[i] = (k, tm);
            },
            None => {
                self.entries.push((k, tm));
            },
        }
    }

    /// The highest vote count cached for any message, zero when empty.
    pub fn max_count(&self) -> (r: u64)
        ensures
            r == msg_max(self@),
    {
        let ghost s = self@;
        let mut best: u64 = 0;
        let mut i: usize = 0;
        while i < self.entries.len()
            invariant
                s == self@,
                i <= s.len(),
                best == msg_max(s.subrange(0, i as int)),
            decreases s.len() - i,
        {
            let c = self.entries[i].1.count;
            proof {
                assert(s.subrange(0, i + 1).drop_last() =~= s.subrange(0, i as int));
                assert(s.subrange(0, i + 1).last() == s[i as int]);
            }
            if c > best {
                best = c;
            }
            i = i + 1;
        }
        proof {
            assert(s.subrange(0, s.len() as int) =~= s);
        }
        best
    }

    /// How many cached messages a given user sent.
    pub fn count_by_sender(&self, sender: u64) -> (r: usize)
        ensures
            r == self@.filter(sent_by(sender)).len(),
    {
        let ghost s = self@;
        let ghost pred = sent_by(sender);
        let mut n: usize = 0;
        let mut i: usize = 0;
        while i < self.entries.len()
            invariant
                s == self@,
                pred == sent_by(sender),
                i <= s.len(),
                n == s.subrange(0, i as int).filter(pred).len(),
                n <= i,
            decreases s.len() - i,
        {
            proof {
                assert(s.subrange(0, i + 1).filter(pred).len() == s.subrange(0, i as int).filter(
                    pred,
                ).len() + (if pred(s[i as int]) {
                    1int
                } else {
                    0int
                })) by {
                    reveal(Seq::filter);
                    assert(s.subrange(0, i + 1).drop_last() =~= s.subrange(0, i as int));
                    assert(s.subrange(0, i + 1).last() == s[i as int]);
                    s.subrange(0, i as int).lemma_filter_len(pred);
                }
                assert(pred(s[i as int]) == (s[i as int].1.sender == sender));
            }
            if self.entries[i].1.sender == sender {
                n = n + 1;
            }
            i = i + 1;
        }
        proof {
            assert(s.subrange(0, s.len() as int) =~= s);
        }
        n
    }
}

} // verus!
