//! Participant identities.

use vstd::prelude::*;

verus! {

/// The identity of an account, held as the text of its address. The contest
/// never looks inside an address: it only tells two of them apart.
#[derive(Clone, Debug)]
pub struct Address {
    strkey: String,
}

impl View for Address {
    type V = Seq<char>;

    closed spec fn view(&self) -> Seq<char> {
        self.strkey@
    }
}

impl Address {
    /// The address written as `strkey`.
    pub fn new(strkey: String) -> (address: Address)
        ensures
            address@ == strkey@,
    {
        Address { strkey }
    }

    /// The text of the address.
    pub fn as_str(&self) -> (text: &str)
        ensures
            text@ == self@,
    {
        self.strkey.as_str()
    }
}

impl PartialEq for Address {
    fn eq(&self, other: &Address) -> (same: bool) {
        self.strkey == other.strkey
    }
}

impl Eq for Address {}

impl vstd::std_specs::cmp::PartialEqSpecImpl for Address {
    open spec fn obeys_eq_spec() -> bool {
        true
    }

    open spec fn eq_spec(&self, other: &Address) -> bool {
        self@ == other@
    }
}

} // verus!
