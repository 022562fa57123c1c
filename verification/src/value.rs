use vstd::prelude::*;

verus! {

/// A value type storable in an interval map.
///
/// Values are compared at the level of their views; `cleanup` uses this
/// comparison to collapse duplicate entries.
pub trait MapValue: View + Sized {
    /// Decide whether two values have the same view.
    fn eq_value(&self, other: &Self) -> (r: bool)
        ensures
            r == (self@ == other@),
    ;
}

impl MapValue for String {
    fn eq_value(&self, other: &Self) -> (r: bool) {
        *self == *other
    }
}

impl MapValue for u32 {
    fn eq_value(&self, other: &Self) -> (r: bool) {
        *self == *other
    }
}

impl MapValue for u64 {
    fn eq_value(&self, other: &Self) -> (r: bool) {
        *self == *other
    }
}

} // verus!
