//! The general properties of the interval map, stated and proved once
//! over the contracts of `IpAddrMap` and `IpAddrEntry`.

use vstd::prelude::*;

use crate::entry::{model_le, EntryModel};
use crate::key::MapKey;
use crate::map::{disjoint, no_adjacent_dup, IpAddrMap};
use crate::value::MapValue;

verus! {

/// Ordering invariant: in a finalized map, every adjacent pair of
/// entries is ordered by `(start, end)` lexicographically.
pub proof fn lemma_finalized_ordering<A: MapKey, T: MapValue>(m: &IpAddrMap<A, T>)
    requires
        m.inv(),
        !m.spec_dirty(),
    ensures
        forall|i: int|
            0 <= i && i + 1 < m.entries().len() ==> model_le(
                #[trigger] m.entries()[i],
                m.entries()[i + 1],
            ),
{
}

/// The three-way comparison of a valid entry against a bare key is
/// total: every key falls into exactly one of "beyond the entry's end",
/// "within the entry's range", and "before the entry's start".
pub proof fn lemma_three_way_compare_total<A: MapKey, TV>(e: EntryModel<A, TV>, k: A)
    requires
        e.wf(),
    ensures
        e.end.as_int() < k.as_int() || e.contains_key(k) || k.as_int() < e.start.as_int(),
        e.end.as_int() < k.as_int() ==> !e.contains_key(k) && !(k.as_int() < e.start.as_int()),
        k.as_int() < e.start.as_int() ==> !e.contains_key(k) && !(e.end.as_int() < k.as_int()),
        e.contains_key(k) ==> !(e.end.as_int() < k.as_int()) && !(k.as_int() < e.start.as_int()),
{
}

/// Over pairwise disjoint ranges, at most one entry contains any given
/// key.
pub proof fn lemma_containing_entry_unique<A: MapKey, TV>(
    s: Seq<EntryModel<A, TV>>,
    k: A,
    i: int,
    j: int,
)
    requires
        disjoint(s),
        0 <= i < s.len(),
        0 <= j < s.len(),
        s[i].contains_key(k),
        s[j].contains_key(k),
    ensures
        i == j,
{
}

/// Containment correctness: in a finalized map whose entries cover
/// pairwise disjoint ranges, every key inside the range of an entry `e`
/// is contained in exactly `e` and in no other entry. Together with the
/// contract of `search` and `try_search` — which return the value of a
/// containing entry whenever they succeed, and succeed on a clean
/// disjoint map whenever a containing entry exists — the value they
/// return for such a key is exactly `e`'s value.
pub proof fn lemma_containment_correctness<A: MapKey, T: MapValue>(
    m: &IpAddrMap<A, T>,
    k: A,
    i: int,
)
    requires
        m.inv(),
        !m.spec_dirty(),
        disjoint(m.entries()),
        0 <= i < m.entries().len(),
        m.entries()[i].contains_key(k),
    ensures
        exists|j: int|
            0 <= j < m.entries().len() && (#[trigger] m.entries()[j]).contains_key(k),
        forall|j: int|
            0 <= j < m.entries().len() && (#[trigger] m.entries()[j]).contains_key(k)
                ==> m.entries()[j] == m.entries()[i],
{
    assert((m.entries()[i]).contains_key(k));
    assert forall|j: int|
        0 <= j < m.entries().len() && (#[trigger] m.entries()[j]).contains_key(k)
            implies m.entries()[j] == m.entries()[i] by {
        lemma_containing_entry_unique(m.entries(), k, i, j);
    }
}

/// Duplicate collapse: a sequence with no adjacent duplicates that holds
/// exactly the models of two equal inserted entries — the state of the
/// backing storage after inserting the same entry twice into an empty
/// map and finalizing it — is the singleton of that model.
pub proof fn lemma_duplicate_collapse<A: MapKey, TV>(e: EntryModel<A, TV>, t: Seq<EntryModel<A, TV>>)
    requires
        no_adjacent_dup(t),
        forall|x: EntryModel<A, TV>| t.contains(x) <==> seq![e, e].contains(x),
    ensures
        t.len() == 1,
        t[0] == e,
{
    assert(seq![e, e][0] == e);
    assert(seq![e, e].contains(e));
    assert(t.contains(e));
    assert forall|i: int| 0 <= i < t.len() implies t[i] == e by {
        assert(t.contains(t[i]));
        assert(seq![e, e].contains(t[i]));
        let j = choose|j: int| 0 <= j < seq![e, e].len() && seq![e, e][j] == t[i];
        assert(seq![e, e][j] == e);
    }
    if t.len() >= 2 {
        assert(t[0] == e && t[1] == e);
        assert(false);
    }
}

} // verus!
