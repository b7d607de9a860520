//! The data model: countries, states, cities, zipcodes, addresses, the
//! composed location record, and the gazetteer tables they are resolved
//! against.

use vstd::prelude::*;

pub mod address;
pub mod city;
pub mod country;
pub mod location;
pub mod state;
pub mod zipcode;

pub use address::Address;
pub use city::{read_cities, CitiesMap, City, CountryCities};
pub use country::{canada, read_countries, united_states, CountriesMap, Country};
pub use location::Location;
pub use state::{read_states, CountryStates, State, StatesMap};
pub use zipcode::Zipcode;

use crate::chars::{chars_vec, eq_chars};

verus! {

broadcast use vstd::string::group_string_axioms;

/// The views of a list of string pairs.
pub open spec fn pairs_view(ps: Seq<(String, String)>) -> Seq<(Seq<char>, Seq<char>)> {
    Seq::new(ps.len(), |i: int| (ps[i].0@, ps[i].1@))
}

/// The value paired with the first occurrence of `key` in first position.
pub open spec fn lookup_first(ps: Seq<(Seq<char>, Seq<char>)>, key: Seq<char>) -> Option<Seq<char>>
    decreases ps.len(),
{
    if ps.len() == 0 {
        None
    } else if ps[0].0 == key {
        Some(ps[0].1)
    } else {
        lookup_first(ps.skip(1), key)
    }
}

/// The value paired with the first occurrence of `key` in second position.
pub open spec fn lookup_second(ps: Seq<(Seq<char>, Seq<char>)>, key: Seq<char>) -> Option<
    Seq<char>,
>
    decreases ps.len(),
{
    if ps.len() == 0 {
        None
    } else if ps[0].1 == key {
        Some(ps[0].0)
    } else {
        lookup_second(ps.skip(1), key)
    }
}

/// Executable lookup by first component, mirroring [`lookup_first`].
pub fn lookup_by_first(entries: &Vec<(String, String)>, key: &Vec<char>) -> (r: Option<String>)
    ensures
        match r {
            Some(v) => lookup_first(pairs_view(entries@), key@) == Some(v@),
            None => lookup_first(pairs_view(entries@), key@) is None,
        },
{
    let mut i: usize = 0;
    assert(pairs_view(entries@).skip(0) =~= pairs_view(entries@));
    while i < entries.len()
        invariant
            i <= entries@.len(),
            lookup_first(pairs_view(entries@), key@) == lookup_first(
                pairs_view(entries@).skip(i as int),
                key@,
            ),
        decreases entries@.len() - i,
    {
        let ghost suf = pairs_view(entries@).skip(i as int);
        assert(suf[0] == pairs_view(entries@)[i as int]);
        let ck = chars_vec(entries[i].0.as_str());
        if eq_chars(&ck, key) {
            let v = entries[i].1.clone();
            return Some(v);
        }
        assert(suf.skip(1) =~= pairs_view(entries@).skip(i + 1));
        i = i + 1;
    }
    assert(pairs_view(entries@).skip(i as int) =~= Seq::<(Seq<char>, Seq<char>)>::empty());
    None
}

/// Executable lookup by second component, mirroring [`lookup_second`].
pub fn lookup_by_second(entries: &Vec<(String, String)>, key: &Vec<char>) -> (r: Option<String>)
    ensures
        match r {
            Some(v) => lookup_second(pairs_view(entries@), key@) == Some(v@),
            None => lookup_second(pairs_view(entries@), key@) is None,
        },
{
    let mut i: usize = 0;
    assert(pairs_view(entries@).skip(0) =~= pairs_view(entries@));
    while i < entries.len()
        invariant
            i <= entries@.len(),
            lookup_second(pairs_view(entries@), key@) == lookup_second(
                pairs_view(entries@).skip(i as int),
                key@,
            ),
        decreases entries@.len() - i,
    {
        let ghost suf = pairs_view(entries@).skip(i as int);
        assert(suf[0] == pairs_view(entries@)[i as int]);
        let cv = chars_vec(entries[i].1.as_str());
        if eq_chars(&cv, key) {
            let v = entries[i].0.clone();
            return Some(v);
        }
        assert(suf.skip(1) =~= pairs_view(entries@).skip(i + 1));
        i = i + 1;
    }
    assert(pairs_view(entries@).skip(i as int) =~= Seq::<(Seq<char>, Seq<char>)>::empty());
    None
}

} // verus!

verus! {

/// A first-position lookup succeeds exactly when some entry has the key.
pub proof fn lemma_lookup_first_exists(ps: Seq<(Seq<char>, Seq<char>)>, key: Seq<char>)
    ensures
        (lookup_first(ps, key) is Some) <==> exists|j: int| 0 <= j < ps.len() && ps[j].0 == key,
    decreases ps.len(),
{
    if ps.len() > 0 {
        lemma_lookup_first_exists(ps.skip(1), key);
        if ps[0].0 == key {
        } else {
            assert forall|j: int| 0 <= j < ps.len() && ps[j].0 == key implies (exists|j2: int|
                0 <= j2 < ps.skip(1).len() && ps.skip(1)[j2].0 == key) by {
                assert(ps.skip(1)[j - 1] == ps[j]);
            }
            if exists|j2: int| 0 <= j2 < ps.skip(1).len() && ps.skip(1)[j2].0 == key {
                let j2 = choose|j2: int| 0 <= j2 < ps.skip(1).len() && ps.skip(1)[j2].0 == key;
                assert(ps[j2 + 1] == ps.skip(1)[j2]);
            }
        }
    }
}

/// A second-position lookup succeeds exactly when some entry has the key.
pub proof fn lemma_lookup_second_exists(ps: Seq<(Seq<char>, Seq<char>)>, key: Seq<char>)
    ensures
        (lookup_second(ps, key) is Some) <==> exists|j: int| 0 <= j < ps.len() && ps[j].1 == key,
    decreases ps.len(),
{
    if ps.len() > 0 {
        lemma_lookup_second_exists(ps.skip(1), key);
        if ps[0].1 == key {
        } else {
            assert forall|j: int| 0 <= j < ps.len() && ps[j].1 == key implies (exists|j2: int|
                0 <= j2 < ps.skip(1).len() && ps.skip(1)[j2].1 == key) by {
                assert(ps.skip(1)[j - 1] == ps[j]);
            }
            if exists|j2: int| 0 <= j2 < ps.skip(1).len() && ps.skip(1)[j2].1 == key {
                let j2 = choose|j2: int| 0 <= j2 < ps.skip(1).len() && ps.skip(1)[j2].1 == key;
                assert(ps[j2 + 1] == ps.skip(1)[j2]);
            }
        }
    }
}

} // verus!
