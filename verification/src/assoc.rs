//! Association sequences: the ordered key/value lists behind every map the
//! ledger keeps.  Keys are plain identifiers; insertion order is preserved,
//! which the leaderboard, the persistence codec and the status statistics
//! all rely on.

use vstd::prelude::*;

verus! {

/// First value bound to `k`, scanning from the front.
pub open spec fn assoc_get<V>(s: Seq<(u64, V)>, k: u64) -> Option<V>
    decreases s.len(),
{
    if s.len() == 0 {
        None
    } else if s[0].0 == k {
        Some(s[0].1)
    } else {
        assoc_get(s.drop_first(), k)
    }
}

/// Index of the first entry bound to `k` (meaningful only when present).
pub open spec fn assoc_index<V>(s: Seq<(u64, V)>, k: u64) -> int
    decreases s.len(),
{
    if s.len() == 0 {
        0
    } else if s[0].0 == k {
        0
    } else {
        1 + assoc_index(s.drop_first(), k)
    }
}

/// No key occurs twice.
pub open spec fn keys_unique<V>(s: Seq<(u64, V)>) -> bool {
    forall|i: int, j: int| 0 <= i < j < s.len() ==> (#[trigger] s[i]).0 != (#[trigger] s[j]).0
}

/// What `assoc_index` points at when `assoc_get` finds something.
pub proof fn lemma_assoc_index<V>(s: Seq<(u64, V)>, k: u64)
    requires
        assoc_get(s, k) is Some,
    ensures
        0 <= assoc_index(s, k) < s.len(),
        s[assoc_index(s, k)].0 == k,
        s[assoc_index(s, k)].1 == assoc_get(s, k)->Some_0,
        forall|j: int| 0 <= j < assoc_index(s, k) ==> (#[trigger] s[j]).0 != k,
    decreases s.len(),
{
    if s.len() > 0 && s[0].0 != k {
        lemma_assoc_index(s.drop_first(), k);
        assert forall|j: int| 0 <= j < assoc_index(s, k) implies (#[trigger] s[j]).0 != k by {
            if j > 0 {
                assert(s.drop_first()[j - 1] == s[j]);
            }
        }
    }
}

/// `assoc_get` is `None` exactly when no entry carries the key.
pub proof fn lemma_assoc_get_none<V>(s: Seq<(u64, V)>, k: u64)
    ensures
        assoc_get(s, k) is None <==> (forall|i: int| 0 <= i < s.len() ==> (#[trigger] s[i]).0 != k),
    decreases s.len(),
{
    if s.len() > 0 {
        lemma_assoc_get_none(s.drop_first(), k);
        if s[0].0 != k {
            assert forall|i: int| 0 <= i < s.len() && (#[trigger] s[i]).0 == k implies !(assoc_get(
                s,
                k,
            ) is None) by {
                assert(s.drop_first()[i - 1] == s[i]);
            }
            if assoc_get(s, k) is Some {
                let i = choose|i: int|
                    0 <= i < s.drop_first().len() && (#[trigger] s.drop_first()[i]).0 == k;
                assert(s[i + 1] == s.drop_first()[i]);
            }
        }
    }
}

/// Updating the entry a key points at changes that key's binding alone.
pub proof fn lemma_assoc_get_update<V>(s: Seq<(u64, V)>, k: u64, v: V, k2: u64)
    requires
        assoc_get(s, k) is Some,
    ensures
        assoc_get(s.update(assoc_index(s, k), (k, v)), k2) == if k2 == k {
            Some(v)
        } else {
            assoc_get(s, k2)
        },
    decreases s.len(),
{
    let i = assoc_index(s, k);
    lemma_assoc_index(s, k);
    if s[0].0 == k {
        assert(s.update(0, (k, v)).drop_first() =~= s.drop_first());
    } else {
        lemma_assoc_get_update(s.drop_first(), k, v, k2);
        assert(s.update(i, (k, v)).drop_first() =~= s.drop_first().update(i - 1, (k, v)));
    }
}

/// Appending a fresh entry changes that key's binding alone.
pub proof fn lemma_assoc_get_push<V>(s: Seq<(u64, V)>, k: u64, v: V, k2: u64)
    requires
        assoc_get(s, k) is None,
    ensures
        assoc_get(s.push((k, v)), k2) == if k2 == k {
            Some(v)
        } else {
            assoc_get(s, k2)
        },
    decreases s.len(),
{
    let t = s.push((k, v));
    assert(t.len() == s.len() + 1);
    assert(t[s.len() as int] == (k, v));
    if s.len() == 0 {
        assert(t[0] == (k, v));
        assert(t.drop_first() =~= Seq::<(u64, V)>::empty());
        assert(assoc_get(t.drop_first(), k2) is None);
        if k2 == k {
            assert(assoc_get(t, k2) == Some(v));
        } else {
            assert(assoc_get(t, k2) is None);
        }
    } else {
        assert(t[0] == s[0]);
        assert(s[0].0 != k);
        lemma_assoc_get_push(s.drop_first(), k, v, k2);
        assert(t.drop_first() =~= s.drop_first().push((k, v)));
        if t[0].0 == k2 {
            assert(assoc_get(t, k2) == Some(s[0].1));
            assert(assoc_get(s, k2) == Some(s[0].1));
        } else {
            assert(assoc_get(t, k2) == assoc_get(t.drop_first(), k2));
            assert(assoc_get(s, k2) == assoc_get(s.drop_first(), k2));
        }
    }
}

/// An in-place update keeps keys unique.
pub proof fn lemma_keys_unique_update<V>(s: Seq<(u64, V)>, k: u64, v: V)
    requires
        keys_unique(s),
        assoc_get(s, k) is Some,
    ensures
        keys_unique(s.update(assoc_index(s, k), (k, v))),
{
    lemma_assoc_index(s, k);
}

/// Appending a fresh key keeps keys unique.
pub proof fn lemma_keys_unique_push<V>(s: Seq<(u64, V)>, k: u64, v: V)
    requires
        keys_unique(s),
        assoc_get(s, k) is None,
    ensures
        keys_unique(s.push((k, v))),
{
    lemma_assoc_get_none(s, k);
}

/// Finds the index of the first entry carrying `k`, if any.
pub fn find_index<V>(entries: &Vec<(u64, V)>, k: u64) -> (r: Option<usize>)
    ensures
        match r {
            Some(i) => i == assoc_index(entries@, k) && assoc_get(entries@, k) is Some,
            None => assoc_get(entries@, k) is None,
        },
{
    let ghost s = entries@;
    let mut i: usize = 0;
    while i < entries.len()
        invariant
            s == entries@,
            i <= s.len(),
            forall|j: int| 0 <= j < i ==> (#[trigger] s[j]).0 != k,
        decreases s.len() - i,
    {
        if entries[i].0 == k {
            proof {
                lemma_assoc_get_none_prefix(s, k, i as int);
            }
            return Some(i);
        }
        i = i + 1;
    }
    proof {
        lemma_assoc_get_none(s, k);
    }
    None
}

/// Helper: when the first match sits at `i`, that is the assoc index.
proof fn lemma_assoc_get_none_prefix<V>(s: Seq<(u64, V)>, k: u64, i: int)
    requires
        0 <= i < s.len(),
        s[i].0 == k,
        forall|j: int| 0 <= j < i ==> (#[trigger] s[j]).0 != k,
    ensures
        assoc_get(s, k) is Some,
        assoc_index(s, k) == i,
        assoc_get(s, k)->Some_0 == s[i].1,
    decreases s.len(),
{
    if s[0].0 != k {
        assert(forall|j: int|
            0 <= j < i - 1 ==> (#[trigger] s.drop_first()[j]).0 == s[j + 1].0 && s[j + 1].0 != k);
        assert(s.drop_first()[i - 1] == s[i]);
        lemma_assoc_get_none_prefix(s.drop_first(), k, i - 1);
    }
}

/// Whether no key repeats in an association list.
pub fn check_keys_unique<V>(entries: &Vec<(u64, V)>) -> (r: bool)
    ensures
        r == keys_unique(entries@),
{
    let ghost s = entries@;
    let mut i: usize = 0;
    while i < entries.len()
        invariant
            s == entries@,
            i <= s.len(),
            forall|a: int, b: int| 0 <= a < b < s.len() && b < i ==> (#[trigger] s[a]).0 != (
            #[trigger] s[b]).0,
        decreases s.len() - i,
    {
        let mut j: usize = 0;
        while j < i
            invariant
                s == entries@,
                j <= i < s.len(),
                forall|a: int| 0 <= a < j ==> (#[trigger] s[a]).0 != s[i as int].0,
            decreases i - j,
        {
            if entries[j].0 == entries[i].0 {
                return false;
            }
            j = j + 1;
        }
        i = i + 1;
    }
    true
}

/// Whether no identifier repeats in a plain list.
pub fn check_no_duplicates(v: &Vec<u64>) -> (r: bool)
    ensures
        r == v@.no_duplicates(),
{
    let ghost s = v@;
    let mut i: usize = 0;
    while i < v.len()
        invariant
            s == v@,
            i <= s.len(),
            forall|a: int, b: int| 0 <= a < b < s.len() && b < i ==> s[a] != s[b],
        decreases s.len() - i,
    {
        let mut j: usize = 0;
        while j < i
            invariant
                s == v@,
                j <= i < s.len(),
                forall|a: int| 0 <= a < j ==> s[a] != s[i as int],
            decreases i - j,
        {
            if v[j] == v[i] {
                proof {
                    assert(!s.no_duplicates());
                }
                return false;
            }
            j = j + 1;
        }
        i = i + 1;
    }
    true
}

/// Whether a plain identifier list contains `x`.
pub fn contains_u64(v: &Vec<u64>, x: u64) -> (r: bool)
    ensures
        r == v@.contains(x),
{
    let mut i: usize = 0;
    while i < v.len()
        invariant
            i <= v@.len(),
            forall|j: int| 0 <= j < i ==> v@[j] != x,
        decreases v@.len() - i,
    {
        if v[i] == x {
            return true;
        }
        i = i + 1;
    }
    false
}

} // verus!
