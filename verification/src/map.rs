use vstd::prelude::*;
use vstd::seq_lib::group_to_multiset_ensures;

use crate::entry::{model_le, model_lt, EntryModel, IpAddrEntry};
use crate::error::Error;
use crate::key::MapKey;
use crate::value::MapValue;

verus! {

/// The models of a sequence of entries.
pub open spec fn models<A: MapKey, T: MapValue>(s: Seq<IpAddrEntry<A, T>>) -> Seq<
    EntryModel<A, T::V>,
> {
    s.map_values(|e: IpAddrEntry<A, T>| e@)
}

/// Every entry of the sequence is a valid range.
pub open spec fn all_wf<A: MapKey, TV>(s: Seq<EntryModel<A, TV>>) -> bool {
    forall|i: int| 0 <= i < s.len() ==> (#[trigger] s[i]).wf()
}

/// The sequence is sorted by `(start, end)` lexicographically.
pub open spec fn sorted<A: MapKey, TV>(s: Seq<EntryModel<A, TV>>) -> bool {
    forall|i: int, j: int| 0 <= i < j < s.len() ==> model_le(#[trigger] s[i], #[trigger] s[j])
}

/// No two adjacent entries of the sequence are equal. After `cleanup`
/// this holds of the map: adjacent duplicate elimination has run.
pub open spec fn no_adjacent_dup<A: MapKey, TV>(s: Seq<EntryModel<A, TV>>) -> bool {
    forall|i: int| 0 <= i && i + 1 < s.len() ==> #[trigger] s[i] != s[i + 1]
}

/// The entries cover pairwise disjoint ranges, listed in ascending order:
/// each entry ends strictly before any later entry starts. The map never
/// checks or enforces this; it is the input-quality assumption under
/// which a lookup is exact.
pub open spec fn disjoint<A: MapKey, TV>(s: Seq<EntryModel<A, TV>>) -> bool {
    forall|i: int, j: int| 0 <= i < j < s.len() ==> (#[trigger] s[i]).end.as_int() < (
    #[trigger] s[j]).start.as_int()
}

/// Relies on std's Vec::shrink_to_fit: it only affects the vector's
/// capacity, never its length or its elements.
#[verifier::external_body]
fn shrink_vec<T>(v: &mut Vec<T>)
    ensures
        final(v)@ == old(v)@,
{
    v.shrink_to_fit();
}

/// A sequence extended by one element contains exactly the old elements
/// and the new one.
proof fn lemma_push_contains<X>(s: Seq<X>, a: X, x: X)
    ensures
        s.push(a).contains(x) <==> (s.contains(x) || x == a),
{
    if s.contains(x) {
        let i = choose|i: int| 0 <= i < s.len() && s[i] == x;
        assert(s.push(a)[i] == x);
    }
    if x == a {
        assert(s.push(a)[s.len() as int] == x);
    }
    if s.push(a).contains(x) {
        let i = choose|i: int| 0 <= i < s.push(a).len() && s.push(a)[i] == x;
        if i < s.len() {
            assert(s[i] == x);
        }
    }
}

/// Taking the models of a sequence commutes with inserting an element.
proof fn lemma_models_insert<A: MapKey, T: MapValue>(s: Seq<IpAddrEntry<A, T>>, i: int, e: IpAddrEntry<A, T>)
    requires
        0 <= i <= s.len(),
    ensures
        models(s.insert(i, e)) == models(s).insert(i, e@),
{
    s.insert_ensures(i, e);
    models(s).insert_ensures(i, e@);
    assert(models(s.insert(i, e)) =~= models(s).insert(i, e@));
}

/// Taking the models of a sequence commutes with removing an element.
proof fn lemma_models_remove<A: MapKey, T: MapValue>(s: Seq<IpAddrEntry<A, T>>, i: int)
    requires
        0 <= i < s.len(),
    ensures
        models(s.remove(i)) == models(s).remove(i),
{
    s.remove_ensures(i);
    models(s).remove_ensures(i);
    assert(models(s.remove(i)) =~= models(s).remove(i));
}

/// Decide the strict `(start, end)` order on two entries.
fn entry_key_lt<A: MapKey, T: MapValue>(a: &IpAddrEntry<A, T>, b: &IpAddrEntry<A, T>) -> (r: bool)
    ensures
        r == model_lt(a@, b@),
{
    let sa = *a.start();
    let sb = *b.start();
    if sa.le(sb) {
        if sb.le(sa) {
            let ea = *a.end();
            let eb = *b.end();
            ea.le(eb) && !eb.le(ea)
        } else {
            true
        }
    } else {
        false
    }
}

/// Decide structural equality of two entries: both bounds and the views
/// of the values agree.
fn entry_eq<A: MapKey, T: MapValue>(a: &IpAddrEntry<A, T>, b: &IpAddrEntry<A, T>) -> (r: bool)
    ensures
        r == (a@ == b@),
{
    let sa = *a.start();
    let sb = *b.start();
    let ea = *a.end();
    let eb = *b.end();
    let starts_eq = sa.le(sb) && sb.le(sa);
    let ends_eq = ea.le(eb) && eb.le(ea);
    if starts_eq && ends_eq {
        proof {
            sa.lemma_as_int_injective(sb);
            ea.lemma_as_int_injective(eb);
        }
        a.value().eq_value(b.value())
    } else {
        false
    }
}

/// Insert an entry into a sorted vector at a position that keeps the
/// vector sorted.
fn insert_sorted<A: MapKey, T: MapValue>(out: &mut Vec<IpAddrEntry<A, T>>, e: IpAddrEntry<A, T>)
    requires
        sorted(models(old(out)@)),
    ensures
        sorted(models(final(out)@)),
        models(final(out)@).to_multiset() == models(old(out)@).to_multiset().insert(e@),
{
    let mut i: usize = 0;
    loop
        invariant_except_break
            i <= out.len(),
            *out == *old(out),
            forall|j: int| 0 <= j < i ==> model_lt(models(out@)[j], e@),
        ensures
            i <= out.len(),
            *out == *old(out),
            forall|j: int| 0 <= j < i ==> model_lt(models(out@)[j], e@),
            i < out.len() ==> !model_lt(models(out@)[i as int], e@),
        decreases out.len() - i,
    {
        if i >= out.len() {
            break;
        }
        if !entry_key_lt(&out[i], &e) {
            break;
        }
        i = i + 1;
    }
    let ghost pre = models(out@);
    let ghost p = i as int;
    out.insert(i, e);
    proof {
        broadcast use group_to_multiset_ensures;

        lemma_models_insert(old(out)@, p, e);
        pre.insert_ensures(p, e@);
        let post = models(out@);
        assert forall|x: int, y: int| 0 <= x < y < post.len() implies model_le(
            post[x],
            post[y],
        ) by {
            if x < p && y < p {
                assert(post[x] == pre[x]);
                assert(post[y] == pre[y]);
            } else if x < p && y == p {
                assert(post[x] == pre[x]);
            } else if x < p && y > p {
                assert(post[x] == pre[x]);
                assert(post[y] == pre[y - 1]);
            } else if x == p && y > p {
                assert(post[y] == pre[y - 1]);
                if y - 1 > p {
                    assert(model_le(pre[p], pre[y - 1]));
                }
            } else {
                assert(post[x] == pre[x - 1]);
                assert(post[y] == pre[y - 1]);
            }
        }
    }
}

/// Sort the given entries by `(start, end)`, draining the input vector.
fn sort_drain<A: MapKey, T: MapValue>(input: &mut Vec<IpAddrEntry<A, T>>) -> (out: Vec<
    IpAddrEntry<A, T>,
>)
    ensures
        sorted(models(out@)),
        models(out@).to_multiset() == models(old(input)@).to_multiset(),
{
    let mut out: Vec<IpAddrEntry<A, T>> = Vec::new();
    proof {
        broadcast use group_to_multiset_ensures;

        assert(models(out@) =~= Seq::<EntryModel<A, T::V>>::empty());
        assert(models(out@).to_multiset().add(models(input@).to_multiset()) =~= models(
            old(input)@,
        ).to_multiset());
    }
    while input.len() > 0
        invariant
            sorted(models(out@)),
            models(out@).to_multiset().add(models(input@).to_multiset()) == models(
                old(input)@,
            ).to_multiset(),
        decreases input.len(),
    {
        let ghost pre_vec = input@;
        let ghost pre_in = models(input@);
        let e = input.pop().unwrap();
        proof {
            broadcast use group_to_multiset_ensures;

            let n = pre_vec.len() as int;
            assert(pre_vec.subrange(0, n - 1) =~= pre_vec.remove(n - 1));
            lemma_models_remove(pre_vec, n - 1);
            assert(models(input@) == pre_in.remove(n - 1));
            assert(pre_in.contains(pre_in[n - 1]));
        }
        insert_sorted(&mut out, e);
        proof {
            broadcast use group_to_multiset_ensures;

            assert(models(out@).to_multiset().add(models(input@).to_multiset())
                =~= models(old(input)@).to_multiset());
        }
    }
    proof {
        broadcast use group_to_multiset_ensures;

        assert(models(input@) =~= Seq::<EntryModel<A, T::V>>::empty());
        assert(models(out@).to_multiset() =~= models(old(input)@).to_multiset());
    }
    out
}

/// Remove adjacent duplicates from a sorted vector of entries, consuming
/// it. The result is sorted, has no two adjacent equal entries, and holds
/// exactly the entries of the input (as a set of models).
fn dedup_sorted<A: MapKey, T: MapValue>(v: Vec<IpAddrEntry<A, T>>) -> (out: Vec<
    IpAddrEntry<A, T>,
>)
    requires
        sorted(models(v@)),
    ensures
        sorted(models(out@)),
        no_adjacent_dup(models(out@)),
        forall|x: EntryModel<A, T::V>| models(out@).contains(x) <==> models(v@).contains(x),
        out@.len() <= v@.len(),
{
    let ghost orig = models(v@);
    let mut input = v;
    let mut out: Vec<IpAddrEntry<A, T>> = Vec::new();
    proof {
        assert(models(out@) =~= Seq::<EntryModel<A, T::V>>::empty());
        assert(input@ =~= input@.subrange(0, input@.len() as int));
    }
    while input.len() > 0
        invariant
            sorted(orig),
            orig.len() >= input.len(),
            models(input@) == orig.subrange(orig.len() - input.len(), orig.len() as int),
            sorted(models(out@)),
            no_adjacent_dup(models(out@)),
            out@.len() <= orig.len() - input.len(),
            forall|j: int, i: int|
                0 <= j < out@.len() && orig.len() - input.len() <= i < orig.len() ==> model_le(
                    #[trigger] models(out@)[j],
                    #[trigger] orig[i],
                ),
            forall|x: EntryModel<A, T::V>|
                models(out@).contains(x) <==> orig.subrange(
                    0,
                    orig.len() - input.len(),
                ).contains(x),
        decreases input.len(),
    {
        let ghost k = orig.len() - input.len();
        let ghost pre_vec = input@;
        let ghost pre_out = models(out@);
        let e = input.remove(0);
        proof {
            lemma_models_remove(pre_vec, 0);
            assert(models(input@) =~= orig.subrange(k + 1, orig.len() as int));
            assert(models(pre_vec)[0] == pre_vec[0]@);
            assert(e@ == orig[k]);
            assert(orig.subrange(0, k + 1) =~= orig.subrange(0, k).push(orig[k]));
        }
        let keep: bool;
        if out.len() == 0 {
            keep = true;
        } else {
            proof {
                assert(pre_out[pre_out.len() - 1] == out@[out@.len() - 1]@);
            }
            keep = !entry_eq(&out[out.len() - 1], &e);
        }
        if keep {
            out.push(e);
            proof {
                assert(models(out@) =~= pre_out.push(e@));
                assert(pre_out.len() > 0 ==> pre_out[pre_out.len() - 1] != e@);
                assert forall|i: int| 0 <= i && i + 1 < models(out@).len() implies #[trigger] models(
                    out@,
                )[i] != models(out@)[i + 1] by {
                    if i + 1 < pre_out.len() {
                        assert(pre_out[i] != pre_out[i + 1]);
                    } else {
                        assert(models(out@)[i] == pre_out[pre_out.len() - 1]);
                        assert(models(out@)[i + 1] == e@);
                    }
                }
                assert forall|x: EntryModel<A, T::V>|
                    models(out@).contains(x) <==> orig.subrange(0, k + 1).contains(x) by {
                    lemma_push_contains(pre_out, e@, x);
                    lemma_push_contains(orig.subrange(0, k), orig[k], x);
                }
            }
        } else {
            proof {
                assert(pre_out[pre_out.len() - 1] == e@);
                assert(pre_out.contains(e@));
                assert forall|x: EntryModel<A, T::V>|
                    models(out@).contains(x) <==> orig.subrange(0, k + 1).contains(x) by {
                    lemma_push_contains(orig.subrange(0, k), orig[k], x);
                }
            }
        }
    }
    proof {
        assert(orig.subrange(0, orig.len() as int) =~= orig);
    }
    out
}

/// Stores a searchable collection of `IpAddrEntry` values.
///
/// Lifecycle: entries are appended through `insert` (which marks the map
/// dirty), normalized once through `cleanup` (sort, adjacent dedup), and
/// then queried through `search` or `try_search`.
#[derive(Debug)]
pub struct IpAddrMap<A: MapKey, T: MapValue> {
    inner: Vec<IpAddrEntry<A, T>>,
    dirty: bool,
}

impl<A: MapKey, T: MapValue> IpAddrMap<A, T> {
    /// The models of the stored entries, in storage order.
    pub closed spec fn entries(&self) -> Seq<EntryModel<A, T::V>> {
        models(self.inner@)
    }

    /// Whether inserts are pending that `cleanup` has not yet normalized.
    pub closed spec fn spec_dirty(&self) -> bool {
        self.dirty
    }

    /// Well-formedness: every stored entry is a valid range, and a map
    /// that is not dirty is sorted with no adjacent duplicates.
    pub open spec fn inv(&self) -> bool {
        &&& all_wf(self.entries())
        &&& !self.spec_dirty() ==> sorted(self.entries()) && no_adjacent_dup(self.entries())
    }

    /// Create a new, empty map. An empty map is clean: the sequence is
    /// vacuously sorted and deduplicated.
    pub fn new() -> (r: Self)
        ensures
            r.inv(),
            r.entries() == Seq::<EntryModel<A, T::V>>::empty(),
            !r.spec_dirty(),
    {
        let r = Self { inner: Vec::new(), dirty: false };
        proof {
            assert(r.entries() =~= Seq::<EntryModel<A, T::V>>::empty());
        }
        r
    }

    /// Create a new, empty map with a starting capacity for the backing
    /// storage, to avoid reallocation during a bulk load.
    pub fn new_with_capacity(capacity: usize) -> (r: Self)
        ensures
            r.inv(),
            r.entries() == Seq::<EntryModel<A, T::V>>::empty(),
            !r.spec_dirty(),
    {
        let r = Self { inner: Vec::with_capacity(capacity), dirty: false };
        proof {
            assert(r.entries() =~= Seq::<EntryModel<A, T::V>>::empty());
        }
        r
    }

    /// Append an entry to the map and mark the map dirty. No ordering or
    /// duplicate-elimination work happens here; it is deferred to
    /// `cleanup`.
    pub fn insert(&mut self, entry: IpAddrEntry<A, T>)
        requires
            old(self).inv(),
            entry@.wf(),
        ensures
            final(self).inv(),
            final(self).spec_dirty(),
            final(self).entries() == old(self).entries().push(entry@),
    {
        self.inner.push(entry);
        self.dirty = true;
        proof {
            assert(self.entries() =~= old(self).entries().push(entry@));
        }
    }

    /// For a given address, find the value of the stored entry that
    /// contains it. Cleans the map first, if necessary, so the result is
    /// never `DirtyIpAddrMap`.
    ///
    /// When the cleaned entries cover pairwise disjoint ranges,
    /// `NoValueFound` comes back if and only if no entry contains the
    /// address. Overlapping ranges are never checked for: a success is
    /// then still a containing entry, but which one is unspecified.
    pub fn search(&mut self, address: A) -> (r: Result<&T, Error>)
        requires
            old(self).inv(),
        ensures
            final(self).inv(),
            !final(self).spec_dirty(),
            sorted(final(self).entries()),
            no_adjacent_dup(final(self).entries()),
            !old(self).spec_dirty() ==> *final(self) == *old(self),
            forall|x: EntryModel<A, T::V>|
                final(self).entries().contains(x) <==> old(self).entries().contains(x),
            final(self).entries().len() <= old(self).entries().len(),
            match r {
                Ok(v) => exists|i: int|
                    0 <= i < final(self).entries().len()
                        && (#[trigger] final(self).entries()[i]).contains_key(address)
                        && v@ == final(self).entries()[i].value,
                Err(e) => e == Error::NoValueFound,
            },
            (disjoint(final(self).entries()) && r matches Err(_)) ==> forall|i: int|
                0 <= i < final(self).entries().len()
                    ==> !(#[trigger] final(self).entries()[i]).contains_key(address),
    {
        self.cleanup();
        self.try_search(address)
    }

    /// For a given address, find the value of the stored entry that
    /// contains it, without touching the map: fails with
    /// `DirtyIpAddrMap` if and only if inserts are pending that
    /// `cleanup` has not normalized.
    ///
    /// On a clean map whose entries cover pairwise disjoint ranges,
    /// `NoValueFound` comes back if and only if no entry contains the
    /// address.
    pub fn try_search(&self, address: A) -> (r: Result<&T, Error>)
        requires
            self.inv(),
        ensures
            self.spec_dirty() ==> (r matches Err(e) && e == Error::DirtyIpAddrMap),
            !self.spec_dirty() ==> match r {
                Ok(v) => exists|i: int|
                    0 <= i < self.entries().len() && (#[trigger] self.entries()[i]).contains_key(
                        address,
                    ) && v@ == self.entries()[i].value,
                Err(e) => e == Error::NoValueFound,
            },
            (!self.spec_dirty() && disjoint(self.entries()) && r matches Err(_)) ==> forall|i: int|
                0 <= i < self.entries().len() ==> !(#[trigger] self.entries()[i]).contains_key(
                    address,
                ),
    {
        if self.dirty {
            return Err(Error::DirtyIpAddrMap);
        }
        let ghost s = self.entries();
        let mut lo: usize = 0;
        let mut hi: usize = self.inner.len();
        while lo < hi
            invariant
                self.inv(),
                !self.spec_dirty(),
                s == self.entries(),
                s.len() == self.inner@.len(),
                lo <= hi <= s.len(),
                disjoint(s) ==> forall|i: int|
                    0 <= i < s.len() && !(lo <= i < hi) ==> !(#[trigger] s[i]).contains_key(
                        address,
                    ),
            decreases hi - lo,
        {
            let mid = lo + (hi - lo) / 2;
            let e = &self.inner[mid];
            proof {
                assert(e@ == s[mid as int]);
            }
            if !address.le(*e.end()) {
                proof {
                    if disjoint(s) {
                        assert forall|i: int| 0 <= i <= mid as int implies !(
                        #[trigger] s[i]).contains_key(address) by {
                            if i < mid as int {
                                assert(s[i].end.as_int() < s[mid as int].start.as_int());
                                assert(s[mid as int].wf());
                            }
                        }
                    }
                }
                lo = mid + 1;
            } else if !(*e.start()).le(address) {
                proof {
                    if disjoint(s) {
                        assert forall|i: int| mid as int <= i < s.len() implies !(
                        #[trigger] s[i]).contains_key(address) by {
                            if i > mid as int {
                                assert(s[mid as int].end.as_int() < s[i].start.as_int());
                                assert(s[mid as int].wf());
                            }
                        }
                    }
                }
                hi = mid;
            } else {
                return Ok(e.value());
            }
        }
        Err(Error::NoValueFound)
    }

    /// If necessary, prepare the map for searching: sort the entries by
    /// `(start, end)`, remove adjacent duplicates, release excess
    /// reserved capacity, and clear the dirty flag. A clean map is left
    /// exactly as it was, so calling this twice in succession is the
    /// same as calling it once.
    pub fn cleanup(&mut self)
        requires
            old(self).inv(),
        ensures
            final(self).inv(),
            !final(self).spec_dirty(),
            sorted(final(self).entries()),
            no_adjacent_dup(final(self).entries()),
            !old(self).spec_dirty() ==> *final(self) == *old(self),
            forall|x: EntryModel<A, T::V>|
                final(self).entries().contains(x) <==> old(self).entries().contains(x),
            final(self).entries().len() <= old(self).entries().len(),
    {
        if !self.dirty {
            return;
        }
        let sorted_vec = sort_drain(&mut self.inner);
        let ghost sorted_models = models(sorted_vec@);
        let deduped = dedup_sorted(sorted_vec);
        self.inner = deduped;
        shrink_vec(&mut self.inner);
        self.dirty = false;
        proof {
            broadcast use group_to_multiset_ensures;

            assert forall|x: EntryModel<A, T::V>|
                self.entries().contains(x) <==> old(self).entries().contains(x) by {
                assert(sorted_models.contains(x) <==> sorted_models.to_multiset().count(x) > 0);
                assert(old(self).entries().contains(x) <==> old(
                    self,
                ).entries().to_multiset().count(x) > 0);
            }
            assert(sorted_models.to_multiset().len() == sorted_models.len());
            assert(old(self).entries().to_multiset().len() == old(self).entries().len());
            assert(sorted_models.len() == old(self).entries().len());
            assert forall|i: int| 0 <= i < self.entries().len() implies (
            #[trigger] self.entries()[i]).wf() by {
                assert(self.entries().contains(self.entries()[i]));
                let j = choose|j: int|
                    0 <= j < old(self).entries().len() && old(self).entries()[j]
                        == self.entries()[i];
                assert(old(self).entries()[j].wf());
            }
        }
    }

    /// Return the number of stored entries.
    pub fn len(&self) -> (r: usize)
        ensures
            r == self.entries().len(),
    {
        self.inner.len()
    }

    /// Return whether the map stores no entries.
    pub fn is_empty(&self) -> (r: bool)
        ensures
            r == (self.entries().len() == 0),
    {
        self.inner.is_empty()
    }

    /// Return the entry at a given position of the backing storage, or
    /// `None` when the position is out of bounds.
    pub fn get_from_index_as_ref(&self, index: usize) -> (r: Option<&IpAddrEntry<A, T>>)
        ensures
            index < self.entries().len() ==> (r matches Some(e) && e@ == self.entries()[index as int]),
            index >= self.entries().len() ==> r is None,
    {
        if index < self.inner.len() {
            Some(&self.inner[index])
        } else {
            None
        }
    }

    /// Consume the map and hand out the backing storage, in storage
    /// order: after `cleanup`, the entries in final sorted order.
    pub fn into_vec(self) -> (r: Vec<IpAddrEntry<A, T>>)
        ensures
            models(r@) == self.entries(),
    {
        self.inner
    }
}

impl<A: MapKey, T: MapValue> Default for IpAddrMap<A, T> {
    /// The default map is the new, empty map.
    fn default() -> (r: Self)
        ensures
            r.inv(),
            r.entries() == Seq::<EntryModel<A, T::V>>::empty(),
            !r.spec_dirty(),
    {
        Self::new()
    }
}

} // verus!
