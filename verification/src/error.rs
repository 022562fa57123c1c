use vstd::prelude::*;

verus! {

/// The failure conditions of the interval map.
#[derive(Clone, Copy, Debug, PartialEq, Eq, Structural)]
pub enum Error {
    /// A clean-only operation was attempted on a map with pending
    /// unfinalized inserts.
    DirtyIpAddrMap,
    /// No entry of the map contains the queried key.
    NoValueFound,
    /// An entry was constructed with a start bound above its end bound.
    EmptyRangeError,
}

} // verus!
