use vstd::prelude::*;

use crate::value::MapValue;

verus! {

/// The view of a `CountryPair`: the character sequences of its code and
/// its name.
pub struct CountryPairModel {
    pub code: Seq<char>,
    pub name: Seq<char>,
}

/// A country name together with its ISO 3166-1 alpha-2 code.
#[derive(Clone, Debug)]
pub struct CountryPair {
    /// Ex. Belgium
    pub name: String,
    /// Ex. BE
    pub code: String,
}

impl View for CountryPair {
    type V = CountryPairModel;

    open spec fn view(&self) -> CountryPairModel {
        CountryPairModel { code: self.code@, name: self.name@ }
    }
}

impl CountryPair {
    /// Create a new `CountryPair` from a code and a name.
    pub fn new(code: String, name: String) -> (r: Self)
        ensures
            r@.code == code@,
            r@.name == name@,
    {
        Self { name, code }
    }
}

impl MapValue for CountryPair {
    fn eq_value(&self, other: &Self) -> (r: bool) {
        self.code == other.code && self.name == other.name
    }
}

} // verus!
