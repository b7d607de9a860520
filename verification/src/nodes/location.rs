//! The composed location record and its canonical rendering.

use vstd::prelude::*;

use crate::chars::{join_sep, join_pieces, remove_char, string_of, trim_spaces};
use crate::nodes::address::{Address, AddressV};
use crate::nodes::city::{City, CityV};
use crate::nodes::country::{Country, CountryV};
use crate::nodes::state::{State, StateV};
use crate::nodes::zipcode::{Zipcode, ZipcodeV};

verus! {

broadcast use vstd::string::group_string_axioms;

/// The result of parsing one location string. Every field is independently
/// optional: a partial result is valid and expected.
#[derive(Debug, Clone)]
pub struct Location {
    pub city: Option<City>,
    pub state: Option<State>,
    pub country: Option<Country>,
    pub zipcode: Option<Zipcode>,
    pub address: Option<Address>,
}

/// The mathematical value of a [`Location`].
pub struct LocationV {
    pub city: Option<CityV>,
    pub state: Option<StateV>,
    pub country: Option<CountryV>,
    pub zipcode: Option<ZipcodeV>,
    pub address: Option<AddressV>,
}

impl View for Location {
    type V = LocationV;

    open spec fn view(&self) -> LocationV {
        LocationV {
            city: match self.city {
                Some(ref c) => Some(c@),
                None => None,
            },
            state: match self.state {
                Some(ref s) => Some(s@),
                None => None,
            },
            country: match self.country {
                Some(ref c) => Some(c@),
                None => None,
            },
            zipcode: match self.zipcode {
                Some(ref z) => Some(z@),
                None => None,
            },
            address: match self.address {
                Some(ref a) => Some(a@),
                None => None,
            },
        }
    }
}

/// Structural equality of location views, with city identity by name as in
/// [`City`]'s equality.
pub open spec fn loc_eq_spec(a: LocationV, b: LocationV) -> bool {
    &&& match (a.city, b.city) {
        (None, None) => true,
        (Some(x), Some(y)) => x.name == y.name,
        _ => false,
    }
    &&& match (a.state, b.state) {
        (None, None) => true,
        (Some(x), Some(y)) => x == y,
        _ => false,
    }
    &&& match (a.country, b.country) {
        (None, None) => true,
        (Some(x), Some(y)) => x == y,
        _ => false,
    }
    &&& match (a.zipcode, b.zipcode) {
        (None, None) => true,
        (Some(x), Some(y)) => x == y,
        _ => false,
    }
    &&& match (a.address, b.address) {
        (None, None) => true,
        (Some(x), Some(y)) => x == y,
        _ => false,
    }
}

impl PartialEq for Location {
    /// Locations are equal field by field.
    fn eq(&self, other: &Location) -> (r: bool) {
        let city_eq = match (&self.city, &other.city) {
            (None, None) => true,
            (Some(a), Some(b)) => a == b,
            _ => false,
        };
        let state_eq = match (&self.state, &other.state) {
            (None, None) => true,
            (Some(a), Some(b)) => a == b,
            _ => false,
        };
        let country_eq = match (&self.country, &other.country) {
            (None, None) => true,
            (Some(a), Some(b)) => a == b,
            _ => false,
        };
        let zipcode_eq = match (&self.zipcode, &other.zipcode) {
            (None, None) => true,
            (Some(a), Some(b)) => a == b,
            _ => false,
        };
        let address_eq = match (&self.address, &other.address) {
            (None, None) => true,
            (Some(a), Some(b)) => a == b,
            _ => false,
        };
        city_eq && state_eq && country_eq && zipcode_eq && address_eq
    }
}

impl vstd::std_specs::cmp::PartialEqSpecImpl for Location {
    open spec fn obeys_eq_spec() -> bool {
        true
    }

    open spec fn eq_spec(&self, other: &Location) -> bool {
        loc_eq_spec(self@, other@)
    }
}

/// The display fields of a location, in canonical order: city name, state
/// code, country code, zipcode with spaces stripped, address — each present
/// field trimmed.
pub open spec fn display_fields(l: LocationV) -> Seq<Seq<char>> {
    (match l.city {
        Some(c) => seq![trim_spaces(c.name)],
        None => Seq::empty(),
    }) + (match l.state {
        Some(s) => seq![trim_spaces(s.code)],
        None => Seq::empty(),
    }) + (match l.country {
        Some(c) => seq![trim_spaces(c.code)],
        None => Seq::empty(),
    }) + (match l.zipcode {
        Some(z) => seq![remove_char(z.zipcode, ' ')],
        None => Seq::empty(),
    }) + (match l.address {
        Some(a) => seq![trim_spaces(a.address)],
        None => Seq::empty(),
    })
}

/// The canonical rendering: the present display fields joined with `", "`.
pub open spec fn display_spec(l: LocationV) -> Seq<char> {
    join_sep(display_fields(l), ", "@)
}

impl Location {
    /// An independent copy.
    pub fn duplicate(&self) -> (r: Location)
        ensures
            r@ == self@,
    {
        Location {
            city: match &self.city {
                Some(c) => Some(c.duplicate()),
                None => None,
            },
            state: match &self.state {
                Some(s) => Some(s.duplicate()),
                None => None,
            },
            country: match &self.country {
                Some(c) => Some(c.duplicate()),
                None => None,
            },
            zipcode: match &self.zipcode {
                Some(z) => Some(z.duplicate()),
                None => None,
            },
            address: match &self.address {
                Some(a) => Some(a.duplicate()),
                None => None,
            },
        }
    }

    /// A location with every field absent.
    pub fn empty() -> (r: Location)
        ensures
            r@.city is None,
            r@.state is None,
            r@.country is None,
            r@.zipcode is None,
            r@.address is None,
    {
        Location { city: None, state: None, country: None, zipcode: None, address: None }
    }

    /// Renders the location: city name, state code, country code, zipcode
    /// (internal spaces stripped) and address, joined with `", "`, absent
    /// fields skipped.
    pub fn to_string(&self) -> (r: String)
        ensures
            r@ == display_spec(self@),
    {
        let mut parts: Vec<Vec<char>> = Vec::new();
        if let Some(c) = &self.city {
            let t = c.to_string();
            parts.push(crate::chars::chars_vec(t.as_str()));
        }
        if let Some(s) = &self.state {
            let t = s.to_string();
            parts.push(crate::chars::chars_vec(t.as_str()));
        }
        if let Some(c) = &self.country {
            let t = c.to_string();
            parts.push(crate::chars::chars_vec(t.as_str()));
        }
        if let Some(z) = &self.zipcode {
            let t = z.to_string();
            parts.push(crate::chars::chars_vec(t.as_str()));
        }
        if let Some(a) = &self.address {
            let t = a.to_string();
            parts.push(crate::chars::chars_vec(t.as_str()));
        }
        assert(crate::chars::pieces_view(parts@) =~= display_fields(self@));
        let sep = crate::chars::chars_vec(", ");
        let out = join_pieces(&parts, &sep);
        string_of(&out)
    }
}

} // verus!
