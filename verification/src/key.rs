use vstd::prelude::*;

verus! {

/// A key type usable as a bound of an address range: a totally ordered,
/// copyable scalar, modelled by an embedding into the mathematical integers.
///
/// All ordering facts about keys are obtained from the embedding, so a
/// fixed-width unsigned integer (a 32-bit or a 128-bit address) is a key
/// without further proof work.
pub trait MapKey: Sized + Copy {
    /// The integer that this key stands for.
    spec fn as_int(self) -> int;

    /// Distinct keys stand for distinct integers, so the order that
    /// `as_int` induces is total and antisymmetric on keys themselves.
    proof fn lemma_as_int_injective(self, other: Self)
        ensures
            self.as_int() == other.as_int() ==> self == other,
    ;

    /// Decide `self <= other` in the order of the embedding.
    fn le(self, other: Self) -> (r: bool)
        ensures
            r == (self.as_int() <= other.as_int()),
    ;
}

impl MapKey for u32 {
    open spec fn as_int(self) -> int {
        self as int
    }

    proof fn lemma_as_int_injective(self, other: Self) {
    }

    fn le(self, other: Self) -> (r: bool) {
        self <= other
    }
}

impl MapKey for u128 {
    open spec fn as_int(self) -> int {
        self as int
    }

    proof fn lemma_as_int_injective(self, other: Self) {
    }

    fn le(self, other: Self) -> (r: bool) {
        self <= other
    }
}

} // verus!
