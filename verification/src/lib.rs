//! Best-effort extraction of geographic components (city, state or province,
//! country, postal code) from free-form location strings, resolved against
//! fixed United States and Canada gazetteers.

use vstd::prelude::*;

mod chars;
pub mod nodes;
pub mod utils;

pub use nodes::{
    read_cities, read_countries, read_states, Address, CitiesMap, City, CountriesMap, Country,
    CountryCities, CountryStates, Location, State, StatesMap, Zipcode,
};

use nodes::city::{cities_table_spec, country_cities_view};
use nodes::state::{country_states_view, states_of_spec};

verus! {

broadcast use vstd::string::group_string_axioms;

/// The mathematical value of a parser's gazetteer: the country table, the
/// per-country state tables and the per-country city tables.
pub struct GazV {
    pub countries: Seq<(Seq<char>, Seq<char>)>,
    pub states: Seq<(Seq<char>, Seq<(Seq<char>, Seq<char>)>)>,
    pub cities: Seq<(Seq<char>, Seq<(Seq<char>, Seq<Seq<char>>)>)>,
}

/// The resolver pipeline around an immutable gazetteer. Built once; parsing
/// never mutates the tables.
#[derive(Debug)]
pub struct Parser {
    pub countries: CountriesMap,
    pub states: CountryStates,
    pub cities: CountryCities,
}

impl Parser {
    /// The gazetteer as a mathematical value.
    pub open spec fn gaz(&self) -> GazV {
        GazV {
            countries: self.countries.view_pairs(),
            states: country_states_view(self.states@),
            cities: country_cities_view(self.cities@),
        }
    }

    /// A parser over the built-in United States and Canada gazetteers.
    pub fn new() -> (r: Parser)
        ensures
            states_of_spec(r.gaz().states, "US"@) is Some,
            states_of_spec(r.gaz().states, "CA"@) is Some,
            cities_table_spec(r.gaz().cities, "US"@) is Some,
            cities_table_spec(r.gaz().cities, "CA"@) is Some,
    {
        Parser { countries: read_countries(), states: read_states(), cities: read_cities() }
    }
}

} // verus!

verus! {

use nodes::city::fill_city_spec;
use nodes::country::{fill_country_spec, remove_country_spec, CountryV};
use nodes::location::LocationV;
use nodes::state::fill_state_spec;
use nodes::state::remove_state_spec;
use nodes::zipcode::{remove_zipcode_spec, zipcode_scan_spec, ZipcodeV};
use utils::clean_spec;

/// An empty location value.
pub open spec fn empty_location_v() -> LocationV {
    LocationV { city: None, state: None, country: None, zipcode: None, address: None }
}

/// The remainder after the zipcode stage.
pub open spec fn rem_after_zip(s: Seq<char>) -> Seq<char> {
    match zipcode_scan_spec(s) {
        Some(m) => remove_zipcode_spec(s, m.0),
        None => s,
    }
}

/// The location after the country stage, before the zip cross-check.
pub open spec fn loc_after_country(gaz: GazV, s: Seq<char>) -> LocationV {
    let rem1 = rem_after_zip(s);
    let l_zip = match zipcode_scan_spec(s) {
        Some(m) => LocationV { zipcode: Some(ZipcodeV { zipcode: m.0 }), ..empty_location_v() },
        None => empty_location_v(),
    };
    fill_country_spec(gaz, l_zip, rem1)
}

/// The remainder after the country stage, before the zip cross-check.
pub open spec fn rem_after_country(gaz: GazV, s: Seq<char>) -> Seq<char> {
    let rem1 = rem_after_zip(s);
    match loc_after_country(gaz, s).country {
        Some(c) => remove_country_spec(rem1, c),
        None => rem1,
    }
}

/// The location after the zipcode cross-check: a resolved country that
/// disagrees with the zip-implied one drops the zipcode; an unresolved
/// country is backfilled from the zipcode.
pub open spec fn loc_after_crosscheck(gaz: GazV, s: Seq<char>) -> LocationV {
    let l = loc_after_country(gaz, s);
    match zipcode_scan_spec(s) {
        Some(m) => match l.country {
            Some(c) => if c != m.1 {
                LocationV { zipcode: None, ..l }
            } else {
                l
            },
            None => LocationV { country: Some(m.1), ..l },
        },
        None => l,
    }
}

/// The remainder after the zipcode cross-check: a backfilled country is
/// removed from the remainder too.
pub open spec fn rem_after_crosscheck(gaz: GazV, s: Seq<char>) -> Seq<char> {
    let l = loc_after_country(gaz, s);
    let rem2 = rem_after_country(gaz, s);
    match zipcode_scan_spec(s) {
        Some(m) => match l.country {
            Some(c) => rem2,
            None => remove_country_spec(rem2, m.1),
        },
        None => rem2,
    }
}

/// The location after the state stage.
pub open spec fn loc_after_state(gaz: GazV, s: Seq<char>) -> LocationV {
    fill_state_spec(gaz, loc_after_crosscheck(gaz, s), rem_after_crosscheck(gaz, s))
}

/// The remainder after the state stage: the state's tokens, then the
/// country's tokens again, are stripped once a state is known.
pub open spec fn rem_after_state(gaz: GazV, s: Seq<char>) -> Seq<char> {
    let l = loc_after_state(gaz, s);
    let rem3 = rem_after_crosscheck(gaz, s);
    if l.state is Some && l.country is Some {
        remove_country_spec(
            remove_state_spec(gaz, rem3, l.state->Some_0, l.country->Some_0),
            l.country->Some_0,
        )
    } else {
        rem3
    }
}

/// What parsing a location string yields: the input normalized once, then
/// the zipcode, country, state and city stages in order, each stage
/// stripping what it matched before the next one looks.
pub open spec fn parse_location_spec(gaz: GazV, input: Seq<char>) -> LocationV {
    let s = clean_spec(input);
    fill_city_spec(gaz, loc_after_state(gaz, s), rem_after_state(gaz, s))
}

impl Parser {
    /// Parse a location string: normalize it, then resolve and strip the
    /// zipcode, the country, the state and the city in that order. A
    /// resolved country wins over a zip-implied one, dropping the zipcode on
    /// disagreement; states and cities narrow their search to what earlier
    /// stages established. Absent fields stay `None`; the address field is
    /// never set here.
    pub fn parse_location(&self, input: &str) -> (r: Location)
        ensures
            r@ == parse_location_spec(self.gaz(), input@),
    {
        let mut remainder: String = input.to_owned();
        utils::clean(&mut remainder);
        let ghost s = clean_spec(input@);
        let mut location = Location::empty();
        let v0 = chars_vec_of(&remainder);
        let mut zip_country: Option<Country> = None;
        match nodes::zipcode::zipcode_scan(&v0) {
            Some(m) => {
                let z = Zipcode { zipcode: crate::chars::string_of(&m.0) };
                location.zipcode = Some(z.duplicate());
                self.remove_zipcode(&z, &mut remainder);
                zip_country = Some(m.1);
            },
            None => {},
        }
        assert(remainder@ == rem_after_zip(s));
        self.fill_country(&mut location, remainder.as_str());
        assert(location@ == loc_after_country(self.gaz(), s));
        match &location.country {
            Some(c) => {
                let c2 = c.duplicate();
                self.remove_country(&c2, &mut remainder);
            },
            None => {},
        }
        assert(remainder@ == rem_after_country(self.gaz(), s));
        match &zip_country {
            Some(zc) => {
                let keep_zip = match &location.country {
                    Some(c) => c == zc,
                    None => true,
                };
                match &location.country {
                    Some(_) => {
                        if !keep_zip {
                            location.zipcode = None;
                        }
                    },
                    None => {
                        location.country = Some(zc.duplicate());
                        self.remove_country(zc, &mut remainder);
                    },
                }
            },
            None => {},
        }
        assert(location@ == loc_after_crosscheck(self.gaz(), s));
        assert(remainder@ == rem_after_crosscheck(self.gaz(), s));
        self.fill_state(&mut location, remainder.as_str());
        assert(location@ == loc_after_state(self.gaz(), s));
        if location.state.is_some() && location.country.is_some() {
            let st = match &location.state {
                Some(x) => x.duplicate(),
                None => State { code: String::new(), name: String::new() },
            };
            let co = match &location.country {
                Some(x) => x.duplicate(),
                None => Country { code: String::new(), name: String::new() },
            };
            self.remove_state(&st, &co, &mut remainder);
            self.remove_country(&co, &mut remainder);
        }
        assert(remainder@ == rem_after_state(self.gaz(), s));
        self.fill_city(&mut location, remainder.as_str());
        match &location.city {
            Some(c) => {
                let c2 = c.duplicate();
                self.remove_city(&mut remainder, &c2);
            },
            None => {},
        }
        location
    }
}

/// The characters of a string.
fn chars_vec_of(s: &String) -> (r: Vec<char>)
    ensures
        r@ == s@,
{
    crate::chars::chars_vec(s.as_str())
}

} // verus!

verus! {

/// Determinism: parsing is a function of the gazetteer and the input text
/// alone. `parse_location` ensures its result equals
/// [`parse_location_spec`] of the two, so repeated calls on one parser, or
/// on parsers over equal gazetteers, yield equal location values.
pub proof fn lemma_parse_location_deterministic(
    gaz: GazV,
    input: Seq<char>,
    r1: LocationV,
    r2: LocationV,
)
    requires
        r1 == parse_location_spec(gaz, input),
        r2 == parse_location_spec(gaz, input),
    ensures
        r1 == r2,
{
}

} // verus!

verus! {

use nodes::city::{city_pass, country_city_choice, special_case_city_spec};
use nodes::country::{canada_v, find_country_spec, united_states_v};
use nodes::state::find_state_spec;
use nodes::zipcode::zipcode_scan_spec as zip_scan;

/// Non-destructive absence: the parser never fabricates a country. A parse
/// reports a country only when one of the stages found positive evidence in
/// its remainder: a postal code implying one, a country match, a state match
/// implying one, the Washington D.C. special case, or a city accepted under
/// one of the two gazetteer countries.
pub proof fn lemma_country_never_fabricated(gaz: GazV, input: Seq<char>)
    ensures
        parse_location_spec(gaz, input).country is Some ==> {
            let s = clean_spec(input);
            ||| zip_scan(s) is Some
            ||| find_country_spec(gaz, rem_after_zip(s)) is Some
            ||| find_state_spec(
                gaz,
                rem_after_crosscheck(gaz, s),
                loc_after_crosscheck(gaz, s).country,
            ) is Some
            ||| special_case_city_spec(rem_after_state(gaz, s)) is Some
            ||| country_city_choice(
                gaz,
                united_states_v(),
                loc_after_state(gaz, s),
                rem_after_state(gaz, s),
            ) is Some
            ||| country_city_choice(
                gaz,
                canada_v(),
                loc_after_state(gaz, s),
                rem_after_state(gaz, s),
            ) is Some
        },
{
    let s = clean_spec(input);
    let l_cc = loc_after_crosscheck(gaz, s);
    let l_s = loc_after_state(gaz, s);
    let rem5 = rem_after_state(gaz, s);
    if parse_location_spec(gaz, input).country is Some {
        if zip_scan(s) is Some {
        } else if find_country_spec(gaz, rem_after_zip(s)) is Some {
        } else {
            // Without zip or country evidence, the location entering the
            // state stage has no country and no state.
            assert(loc_after_country(gaz, s).country is None);
            assert(l_cc.country is None);
            assert(l_cc.state is None);
            if find_state_spec(gaz, rem_after_crosscheck(gaz, s), l_cc.country) is Some {
            } else {
                // The state stage left both fields empty.
                assert(l_s.country is None);
                assert(l_s.state is None);
                assert(l_s.city is None);
                if special_case_city_spec(rem5) is Some {
                } else {
                    // Only the general city pass remains; the backfill from
                    // a known state cannot fire without a state.
                    let l1 = nodes::state::fill_country_from_state_spec(gaz, l_s);
                    assert(l1 == l_s);
                    let cs = utils::candidate_countries(l1.country);
                    assert(cs =~= seq![united_states_v(), canada_v()]);
                    assert(parse_location_spec(gaz, input) == city_pass(gaz, cs, l_s, rem5));
                    assert(cs.skip(1) =~= seq![canada_v()]);
                    assert(cs.skip(1).skip(1) =~= Seq::<CountryV>::empty());
                    assert(cs[0] == united_states_v());
                    assert(cs.skip(1)[0] == canada_v());
                    if country_city_choice(gaz, united_states_v(), l_s, rem5) is Some {
                    } else if country_city_choice(gaz, canada_v(), l_s, rem5) is Some {
                    } else {
                        assert(city_pass(gaz, cs, l_s, rem5) == city_pass(
                            gaz,
                            cs.skip(1),
                            l_s,
                            rem5,
                        ));
                        assert(city_pass(gaz, cs.skip(1), l_s, rem5) == city_pass(
                            gaz,
                            cs.skip(1).skip(1),
                            l_s,
                            rem5,
                        ));
                        assert(city_pass(gaz, cs.skip(1).skip(1), l_s, rem5)
                            == utils::decode_spec(l_s));
                        assert(utils::decode_spec(l_s).country is None);
                        assert(city_pass(gaz, cs, l_s, rem5).country is None);
                    }
                }
            }
        }
    }
}

} // verus!
