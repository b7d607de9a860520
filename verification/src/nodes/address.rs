//! Leftover address text.

use vstd::prelude::*;

use crate::chars::{trim_spaces, trim_str};

verus! {

broadcast use vstd::string::group_string_axioms;

/// Free-form address text left over after the other fields are resolved.
#[derive(Debug, Clone)]
pub struct Address {
    pub address: String,
}

/// The mathematical value of an [`Address`].
pub struct AddressV {
    pub address: Seq<char>,
}

impl View for Address {
    type V = AddressV;

    open spec fn view(&self) -> AddressV {
        AddressV { address: self.address@ }
    }
}

impl PartialEq for Address {
    /// Addresses are equal when their text agrees.
    fn eq(&self, other: &Address) -> (r: bool) {
        self.address == other.address
    }
}

impl vstd::std_specs::cmp::PartialEqSpecImpl for Address {
    open spec fn obeys_eq_spec() -> bool {
        true
    }

    open spec fn eq_spec(&self, other: &Address) -> bool {
        self.address@ == other.address@
    }
}

impl Address {
    /// An independent copy.
    pub fn duplicate(&self) -> (r: Address)
        ensures
            r@ == self@,
    {
        Address { address: self.address.clone() }
    }

    /// The display form of an address: its text, whitespace-trimmed.
    pub fn to_string(&self) -> (r: String)
        ensures
            r@ == trim_spaces(self.address@),
    {
        trim_str(&self.address)
    }
}

} // verus!

verus! {

/// What removing an address from a remainder yields: every occurrence of its
/// text deleted, then the normalizer run again.
pub open spec fn remove_address_spec(s: Seq<char>, a: Seq<char>) -> Seq<char> {
    crate::utils::clean_spec(
        if a.len() == 0 {
            s
        } else {
            crate::chars::replace_seq(s, a, Seq::empty())
        },
    )
}

impl crate::Parser {
    /// The leftover text taken as the address, verbatim.
    pub fn find_address(&self, input: &str) -> (r: Option<Address>)
        ensures
            r is Some,
            r->Some_0@.address == input@,
    {
        Some(Address { address: input.to_owned() })
    }

    /// Remove the address text from the remainder and re-run the normalizer.
    pub fn remove_address(&self, input: &mut String, address: &Address)
        ensures
            final(input)@ == remove_address_spec(old(input)@, address@.address),
    {
        let p = crate::chars::chars_vec(address.address.as_str());
        if p.len() > 0 {
            let v = crate::chars::chars_vec(input.as_str());
            let empty: Vec<char> = Vec::new();
            let out = crate::chars::replace_in(&v, &p, &empty);
            *input = crate::chars::string_of(&out);
        }
        crate::utils::clean(input);
    }
}

} // verus!
