use vstd::prelude::*;

use crate::error::Error;
use crate::key::MapKey;
use crate::value::MapValue;

verus! {

/// The mathematical model of an entry: its two inclusive bounds and the
/// view of its value.
pub struct EntryModel<A, TV> {
    pub start: A,
    pub end: A,
    pub value: TV,
}

impl<A: MapKey, TV> EntryModel<A, TV> {
    /// Range validity: the start bound does not exceed the end bound.
    /// Construction through `IpAddrEntry::new` establishes it; it can be
    /// broken only through the explicit mutator accessors.
    pub open spec fn wf(self) -> bool {
        self.start.as_int() <= self.end.as_int()
    }

    /// Containment of a bare key: `start <= k <= end`, both bounds
    /// inclusive.
    pub open spec fn contains_key(self, k: A) -> bool {
        self.start.as_int() <= k.as_int() <= self.end.as_int()
    }
}

/// Lexicographic `(start, end)` order on entry models: the order that
/// `cleanup` sorts by and that the binary search relies on. The value
/// plays no part in it.
pub open spec fn model_le<A: MapKey, TV>(a: EntryModel<A, TV>, b: EntryModel<A, TV>) -> bool {
    a.start.as_int() < b.start.as_int() || (a.start.as_int() == b.start.as_int()
        && a.end.as_int() <= b.end.as_int())
}

/// The strict part of `model_le`: `(start, end)` strictly below
/// `(start, end)` of the other entry, lexicographically.
pub open spec fn model_lt<A: MapKey, TV>(a: EntryModel<A, TV>, b: EntryModel<A, TV>) -> bool {
    a.start.as_int() < b.start.as_int() || (a.start.as_int() == b.start.as_int()
        && a.end.as_int() < b.end.as_int())
}

/// Stores an inclusive range of addresses and a value.
#[derive(Clone, Copy, Debug, Hash, PartialEq, Eq, PartialOrd, Ord)]
pub struct IpAddrEntry<A: MapKey, T: MapValue> {
    start: A,
    end: A,
    value: T,
}

impl<A: MapKey, T: MapValue> View for IpAddrEntry<A, T> {
    type V = EntryModel<A, T::V>;

    closed spec fn view(&self) -> EntryModel<A, T::V> {
        EntryModel { start: self.start, end: self.end, value: self.value@ }
    }
}

impl<A: MapKey, T: MapValue> IpAddrEntry<A, T> {
    /// Create an entry from the start and the end of an address range and
    /// a value. Fails with `EmptyRangeError` if and only if the range is
    /// invalid, that is `start > end`; a single-address range
    /// (`start == end`) is valid.
    pub fn new(start: A, end: A, value: T) -> (r: Result<Self, Error>)
        ensures
            start.as_int() <= end.as_int() ==> (r matches Ok(e) && e@ == (EntryModel {
                start,
                end,
                value: value@,
            })),
            start.as_int() > end.as_int() ==> r == Err::<Self, Error>(Error::EmptyRangeError),
    {
        if start.le(end) {
            Ok(Self { start, end, value })
        } else {
            Err(Error::EmptyRangeError)
        }
    }

    /// Return a reference to the first address of the stored range.
    pub fn start(&self) -> (r: &A)
        ensures
            *r == self@.start,
    {
        &self.start
    }

    /// Return a mutable reference to the first address of the stored range.
    /// Writing through it may break `wf`, which `IpAddrMap::insert`
    /// requires.
    pub fn start_mut(&mut self) -> (r: &mut A)
        ensures
            *r == old(self)@.start,
            final(self)@.start == *final(r),
            final(self)@.end == old(self)@.end,
            final(self)@.value == old(self)@.value,
    {
        &mut self.start
    }

    /// Return a reference to the last address of the stored range.
    pub fn end(&self) -> (r: &A)
        ensures
            *r == self@.end,
    {
        &self.end
    }

    /// Return a mutable reference to the last address of the stored range.
    /// Writing through it may break `wf`, which `IpAddrMap::insert`
    /// requires.
    pub fn end_mut(&mut self) -> (r: &mut A)
        ensures
            *r == old(self)@.end,
            final(self)@.end == *final(r),
            final(self)@.start == old(self)@.start,
            final(self)@.value == old(self)@.value,
    {
        &mut self.end
    }

    /// Return a reference to the stored value.
    pub fn value(&self) -> (r: &T)
        ensures
            r@ == self@.value,
    {
        &self.value
    }

    /// Return a mutable reference to the stored value.
    pub fn value_mut(&mut self) -> (r: &mut T)
        ensures
            (*r)@ == old(self)@.value,
            final(self)@.value == (*final(r))@,
            final(self)@.start == old(self)@.start,
            final(self)@.end == old(self)@.end,
    {
        &mut self.value
    }

    /// Return the stored address range as an inclusive range value,
    /// `start..=end`.
    pub fn range(&self) -> (r: core::ops::RangeInclusive<A>)
        ensures
            r@.start == self@.start,
            r@.end == self@.end,
            r@.exhausted == false,
    {
        core::ops::RangeInclusive::new(self.start, self.end)
    }

    /// Consume the entry and hand its parts out as a tuple
    /// `(start, end, value)`.
    pub fn unwrap(self) -> (r: (A, A, T))
        ensures
            r.0 == self@.start,
            r.1 == self@.end,
            r.2@ == self@.value,
    {
        let Self { start, end, value } = self;
        (start, end, value)
    }
}

/// Stores a range of 32-bit (IPv4) addresses and a value.
pub type Ipv4AddrEntry<T> = IpAddrEntry<u32, T>;

/// Stores a range of 128-bit (IPv6) addresses and a value.
pub type Ipv6AddrEntry<T> = IpAddrEntry<u128, T>;

impl<A: MapKey, T: MapValue> PartialEq<A> for IpAddrEntry<A, T> {
    /// An entry "equals" a bare key exactly when the key falls within
    /// its inclusive range.
    fn eq(&self, other: &A) -> bool {
        let o = *other;
        self.start.le(o) && o.le(self.end)
    }
}

impl<A: MapKey, T: MapValue> vstd::std_specs::cmp::PartialEqSpecImpl<A> for IpAddrEntry<A, T> {
    open spec fn obeys_eq_spec() -> bool {
        true
    }

    open spec fn eq_spec(&self, other: &A) -> bool {
        self@.contains_key(*other)
    }
}

impl<A: MapKey, T: MapValue> PartialOrd<A> for IpAddrEntry<A, T> {
    /// Three-way comparison of an entry against a bare key: the entry is
    /// `Less` when it ends before the key, `Greater` when it starts
    /// after the key, and `Equal` when the key falls within its range.
    /// Exactly one branch fires for every key.
    fn partial_cmp(&self, other: &A) -> Option<core::cmp::Ordering> {
        let o = *other;
        if !o.le(self.end) {
            Some(core::cmp::Ordering::Less)
        } else if !self.start.le(o) {
            Some(core::cmp::Ordering::Greater)
        } else {
            Some(core::cmp::Ordering::Equal)
        }
    }
}

impl<A: MapKey, T: MapValue> vstd::std_specs::cmp::PartialOrdSpecImpl<A> for IpAddrEntry<A, T> {
    open spec fn obeys_partial_cmp_spec() -> bool {
        true
    }

    open spec fn partial_cmp_spec(&self, other: &A) -> Option<core::cmp::Ordering> {
        if self@.end.as_int() < other.as_int() {
            Some(core::cmp::Ordering::Less)
        } else if other.as_int() < self@.start.as_int() {
            Some(core::cmp::Ordering::Greater)
        } else {
            Some(core::cmp::Ordering::Equal)
        }
    }
}

} // verus!
