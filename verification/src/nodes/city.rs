//! Cities and the per-country city reference tables.

use vstd::prelude::*;

use crate::chars::{chars_vec, lower_seq, to_lower_vec, string_of, trim_spaces, trim_str};
use crate::nodes::{lookup_first, pairs_view};

verus! {

broadcast use vstd::string::group_string_axioms;

/// A city name, optionally paired with the state code it was found under.
/// The state code is disambiguation bookkeeping, not part of the identity.
#[derive(Debug, Clone)]
pub struct City {
    pub name: String,
    pub state: Option<String>,
}

/// The mathematical value of a [`City`].
pub struct CityV {
    pub name: Seq<char>,
    pub state: Option<Seq<char>>,
}

impl View for City {
    type V = CityV;

    open spec fn view(&self) -> CityV {
        CityV {
            name: self.name@,
            state: match self.state {
                Some(ref s) => Some(s@),
                None => None,
            },
        }
    }
}

impl PartialEq for City {
    /// Cities are equal when their names agree; the recorded state code is
    /// bookkeeping and takes no part in identity.
    fn eq(&self, other: &City) -> (r: bool) {
        self.name == other.name
    }
}

impl vstd::std_specs::cmp::PartialEqSpecImpl for City {
    open spec fn obeys_eq_spec() -> bool {
        true
    }

    open spec fn eq_spec(&self, other: &City) -> bool {
        self.name@ == other.name@
    }
}

impl City {
    /// An independent copy.
    pub fn duplicate(&self) -> (r: City)
        ensures
            r@ == self@,
    {
        City {
            name: self.name.clone(),
            state: match &self.state {
                Some(s) => Some(s.clone()),
                None => None,
            },
        }
    }

    /// The display form of a city: its name, whitespace-trimmed.
    pub fn to_string(&self) -> (r: String)
        ensures
            r@ == trim_spaces(self.name@),
    {
        trim_str(&self.name)
    }
}

/// The city tables of one country: city names grouped by state code, and a
/// reverse city-to-state index. City names in `cities_by_state` are stored
/// lower-case for matching; `state_of_city` keeps display casing and is a
/// convenience lookup only, since city names are not unique across states.
#[derive(Debug)]
pub struct CitiesMap {
    pub cities_by_state: Vec<(String, Vec<String>)>,
    pub state_of_city: Vec<(String, String)>,
}

/// The view of a grouped city table.
pub open spec fn by_state_view(g: Seq<(String, Vec<String>)>) -> Seq<
    (Seq<char>, Seq<Seq<char>>),
> {
    Seq::new(g.len(), |i: int| (g[i].0@, crate::chars::strings_view(g[i].1@)))
}

/// The city list of one state, by state code; first match wins.
pub open spec fn cities_of_spec(g: Seq<(Seq<char>, Seq<Seq<char>>)>, code: Seq<char>) -> Option<
    Seq<Seq<char>>,
>
    decreases g.len(),
{
    if g.len() == 0 {
        None
    } else if g[0].0 == code {
        Some(g[0].1)
    } else {
        cities_of_spec(g.skip(1), code)
    }
}

impl CitiesMap {
    /// The grouped table as a sequence of (state code, city names) pairs.
    pub open spec fn view_groups(&self) -> Seq<(Seq<char>, Seq<Seq<char>>)> {
        by_state_view(self.cities_by_state@)
    }

    /// The reverse index as (city name, state code) character pairs.
    pub open spec fn view_reverse(&self) -> Seq<(Seq<char>, Seq<char>)> {
        pairs_view(self.state_of_city@)
    }

    /// The city list recorded for a state code.
    pub fn cities_of<'a>(&'a self, code: &Vec<char>) -> (r: Option<&'a Vec<String>>)
        ensures
            match r {
                Some(v) => cities_of_spec(self.view_groups(), code@) == Some(
                    crate::chars::strings_view(v@),
                ),
                None => cities_of_spec(self.view_groups(), code@) is None,
            },
    {
        let mut i: usize = 0;
        assert(self.view_groups().skip(0) =~= self.view_groups());
        while i < self.cities_by_state.len()
            invariant
                i <= self.cities_by_state@.len(),
                cities_of_spec(self.view_groups(), code@) == cities_of_spec(
                    self.view_groups().skip(i as int),
                    code@,
                ),
            decreases self.cities_by_state@.len() - i,
        {
            let ghost suf = self.view_groups().skip(i as int);
            assert(suf[0] == self.view_groups()[i as int]);
            let ck = chars_vec(self.cities_by_state[i].0.as_str());
            if crate::chars::eq_chars(&ck, code) {
                return Some(&self.cities_by_state[i].1);
            }
            assert(suf.skip(1) =~= self.view_groups().skip(i + 1));
            i = i + 1;
        }
        assert(self.view_groups().skip(i as int) =~= Seq::<(Seq<char>, Seq<Seq<char>>)>::empty());
        None
    }

    /// The state code recorded for a city name in the reverse index.
    pub fn state_of(&self, name: &str) -> (r: Option<String>)
        ensures
            match r {
                Some(v) => lookup_first(self.view_reverse(), name@) == Some(v@),
                None => lookup_first(self.view_reverse(), name@) is None,
            },
    {
        let key = chars_vec(name);
        crate::nodes::lookup_by_first(&self.state_of_city, &key)
    }
}

/// The per-country city tables, keyed by country code.
pub type CountryCities = Vec<(String, CitiesMap)>;

/// The views of the per-country city tables: country code, grouped table,
/// reverse index.
pub open spec fn country_cities_view(cc: Seq<(String, CitiesMap)>) -> Seq<
    (Seq<char>, Seq<(Seq<char>, Seq<Seq<char>>)>),
> {
    Seq::new(cc.len(), |i: int| (cc[i].0@, by_state_view(cc[i].1.cities_by_state@)))
}

/// The grouped city table of one country, by country code; first match wins.
pub open spec fn cities_table_spec(
    cc: Seq<(Seq<char>, Seq<(Seq<char>, Seq<Seq<char>>)>)>,
    code: Seq<char>,
) -> Option<Seq<(Seq<char>, Seq<Seq<char>>)>>
    decreases cc.len(),
{
    if cc.len() == 0 {
        None
    } else if cc[0].0 == code {
        Some(cc[0].1)
    } else {
        cities_table_spec(cc.skip(1), code)
    }
}

/// Executable per-country table lookup, mirroring [`cities_table_spec`].
pub fn cities_of_country<'a>(cc: &'a CountryCities, code: &str) -> (r: Option<&'a CitiesMap>)
    ensures
        match r {
            Some(m) => cities_table_spec(country_cities_view(cc@), code@) == Some(m.view_groups()),
            None => cities_table_spec(country_cities_view(cc@), code@) is None,
        },
{
    let key = chars_vec(code);
    let mut i: usize = 0;
    assert(country_cities_view(cc@).skip(0) =~= country_cities_view(cc@));
    while i < cc.len()
        invariant
            i <= cc@.len(),
            key@ == code@,
            cities_table_spec(country_cities_view(cc@), code@) == cities_table_spec(
                country_cities_view(cc@).skip(i as int),
                code@,
            ),
        decreases cc@.len() - i,
    {
        let ghost suf = country_cities_view(cc@).skip(i as int);
        assert(suf[0] == country_cities_view(cc@)[i as int]);
        assert(suf[0].0 == cc@[i as int].0@);
        assert(suf[0].1 == by_state_view(cc@[i as int].1.cities_by_state@));
        let ck = chars_vec(cc[i].0.as_str());
        assert(ck@ == cc@[i as int].0@);
        if crate::chars::eq_chars(&ck, &key) {
            assert(suf[0].0 == code@);
            assert(cities_table_spec(suf, code@) == Some(suf[0].1));
            return Some(&cc[i].1);
        }
        assert(suf[0].0 != code@);
        assert(cities_table_spec(suf, code@) == cities_table_spec(suf.skip(1), code@));
        assert(suf.skip(1) =~= country_cities_view(cc@).skip(i + 1));
        i = i + 1;
    }
    assert(country_cities_view(cc@).skip(i as int) =~= Seq::<
        (Seq<char>, Seq<(Seq<char>, Seq<Seq<char>>)>),
    >::empty());
    None
}

/// Builds one country's city tables from display-cased rows: the grouped
/// table holds the names lower-cased for matching, names of three characters
/// or fewer are dropped as noise, and the reverse index keeps display casing.
fn build_cities(rows: &Vec<(String, Vec<String>)>) -> (r: CitiesMap) {
    let mut grouped: Vec<(String, Vec<String>)> = Vec::new();
    let mut reverse: Vec<(String, String)> = Vec::new();
    let mut i: usize = 0;
    while i < rows.len()
        decreases rows@.len() - i,
    {
        let code = &rows[i].0;
        let names = &rows[i].1;
        let mut lowered: Vec<String> = Vec::new();
        let mut j: usize = 0;
        while j < names.len()
            decreases names@.len() - j,
        {
            let name = &names[j];
            let cv = chars_vec(name.as_str());
            if cv.len() > 3 {
                let low = to_lower_vec(&cv);
                lowered.push(string_of(&low));
                reverse.push((name.clone(), code.clone()));
            }
            j = j + 1;
        }
        grouped.push((code.clone(), lowered));
        i = i + 1;
    }
    CitiesMap { cities_by_state: grouped, state_of_city: reverse }
}

/// One (state code, city names) row of the built-in tables.
fn city_row(code: &str, names: &Vec<&str>) -> (r: (String, Vec<String>)) {
    let mut v: Vec<String> = Vec::new();
    let mut i: usize = 0;
    while i < names.len()
        decreases names@.len() - i,
    {
        v.push(names[i].to_owned());
        i = i + 1;
    }
    (code.to_owned(), v)
}

/// The built-in city tables for the United States and Canada, grouped by
/// state or province.
pub fn read_cities() -> (r: CountryCities)
    ensures
        cities_table_spec(country_cities_view(r@), "US"@) is Some,
        cities_table_spec(country_cities_view(r@), "CA"@) is Some,
{
    let mut us_rows: Vec<(String, Vec<String>)> = Vec::new();
    us_rows.push(city_row("AK", &vec!["Anchorage"]));
    us_rows.push(city_row("AZ", &vec!["Bullhead City", "Fort Mohave"]));
    us_rows.push(city_row("CA", &vec![
        "Los Angeles", "San Diego", "San Francisco", "Cupertino", "Sausalito",
    ]));
    us_rows.push(city_row("CO", &vec!["Colorado Springs", "Denver"]));
    us_rows.push(city_row("DC", &vec!["Washington"]));
    us_rows.push(city_row("DE", &vec!["Wilmington"]));
    us_rows.push(city_row("FL", &vec!["Jacksonville", "Miami"]));
    us_rows.push(city_row("IL", &vec!["Chicago", "Lansing"]));
    us_rows.push(city_row("KS", &vec!["Wichita", "Lansing"]));
    us_rows.push(city_row("MI", &vec!["Lansing", "Commerce Township", "Detroit"]));
    us_rows.push(city_row("MO", &vec!["Lees Summit", "Kansas City"]));
    us_rows.push(city_row("NC", &vec!["Arden", "Charlotte"]));
    us_rows.push(city_row("NE", &vec!["Omaha"]));
    us_rows.push(city_row("NY", &vec!["New York", "Buffalo", "Wilton"]));
    us_rows.push(city_row("OR", &vec!["Beaverton", "Portland"]));
    us_rows.push(city_row("PR", &vec!["Manati"]));
    us_rows.push(city_row("VA", &vec!["Christiansburg", "Richmond"]));
    us_rows.push(city_row("WA", &vec!["Mercer Island", "Seattle"]));
    let mut ca_rows: Vec<(String, Vec<String>)> = Vec::new();
    ca_rows.push(city_row("AB", &vec!["Sherwood Park", "Calgary", "Edmonton"]));
    ca_rows.push(city_row("BC", &vec!["New Westminster", "Kelowna", "Vancouver"]));
    ca_rows.push(city_row("NB", &vec!["Atholville", "Moncton"]));
    ca_rows.push(city_row("ON", &vec!["Toronto", "Oakville", "Ottawa"]));
    ca_rows.push(city_row("QC", &vec!["Saint-Lin-Laurentides", "Montreal"]));
    let mut r: CountryCities = Vec::new();
    r.push(("US".to_owned(), build_cities(&us_rows)));
    r.push(("CA".to_owned(), build_cities(&ca_rows)));
    proof {
        reveal_strlit("US");
        reveal_strlit("CA");
        assert(country_cities_view(r@)[0].0 == "US"@);
        assert(country_cities_view(r@)[1].0 == "CA"@);
        assert(country_cities_view(r@).skip(1)[0] == country_cities_view(r@)[1]);
        assert("US"@[0] == 'U');
        assert("CA"@[0] == 'C');
        assert("US"@ != "CA"@);
        assert(cities_table_spec(country_cities_view(r@), "US"@) is Some);
        assert(cities_table_spec(country_cities_view(r@).skip(1), "CA"@) is Some);
        assert(cities_table_spec(country_cities_view(r@), "CA"@) == cities_table_spec(
            country_cities_view(r@).skip(1),
            "CA"@,
        ));
    }
    r
}

} // verus!

verus! {

// ---------------------------------------------------------------------------
// The city resolver
// ---------------------------------------------------------------------------

use crate::nodes::country::{table_or_empty, united_states_v, CountryV};
use crate::nodes::location::LocationV;
use crate::nodes::state::{state_from_code_spec, states_of_spec, State, StateV};

/// What title-casing a city name returns; the result depends on the
/// characters alone. Only the trusted wrapper below gives this name a
/// meaning.
pub uninterp spec fn titled(s: Seq<char>) -> Seq<char>;

/// Relies on `titlecase::titlecase`: English title-casing of a phrase, a
/// pure function of the input text.
#[verifier::external_body]
fn title_case(s: &str) -> (r: String)
    ensures
        r@ == titled(s@),
{
    titlecase::titlecase(s)
}

/// The Washington D.C. special case for cities: text naming both washington
/// and dc, or the district outright, short-circuits to the city Washington
/// under DC.
pub open spec fn special_case_city_spec(s: Seq<char>) -> Option<CityV> {
    let lower = crate::chars::lower_seq(s);
    if (crate::chars::contains_sub(lower, "washington"@) && crate::chars::contains_sub(
        lower,
        "dc"@,
    )) || crate::chars::contains_sub(lower, "district of columbia"@) || crate::chars::contains_sub(
        lower,
        "d.c."@,
    ) || crate::chars::contains_sub(lower, " d, c"@) {
        Some(CityV { name: "Washington"@, state: Some("DC"@) })
    } else {
        None
    }
}

/// The first city of the list contained in the lower-cased text.
pub open spec fn first_contained_city(cities: Seq<Seq<char>>, lower: Seq<char>) -> Option<
    Seq<char>,
>
    decreases cities.len(),
{
    if cities.len() == 0 {
        None
    } else if cities[0].len() > 0 && crate::chars::contains_sub(lower, cities[0]) {
        Some(cities[0])
    } else {
        first_contained_city(cities.skip(1), lower)
    }
}

/// The contains-scan of [`crate::Parser::find_city`] over the candidate
/// countries in order: the first gazetteer city of the given state found in
/// the text, title-cased, with the state code recorded.
pub open spec fn find_city_scan(
    gaz: crate::GazV,
    countries: Seq<CountryV>,
    state_code: Seq<char>,
    lower: Seq<char>,
) -> Option<CityV>
    decreases countries.len(),
{
    if countries.len() == 0 {
        None
    } else {
        let groups = crate::nodes::country::groups_or_empty(
            cities_table_spec(gaz.cities, countries[0].code),
        );
        match cities_of_spec(groups, state_code) {
            Some(cities) => match first_contained_city(cities, lower) {
                Some(city) => Some(CityV { name: titled(city), state: Some(state_code) }),
                None => find_city_scan(gaz, countries.skip(1), state_code, lower),
            },
            None => find_city_scan(gaz, countries.skip(1), state_code, lower),
        }
    }
}

/// What [`crate::Parser::find_city`] returns: the D.C. special case first,
/// else the contains-scan over the given state's city lists.
pub open spec fn find_city_spec(
    gaz: crate::GazV,
    s: Seq<char>,
    state: StateV,
    country: Option<CountryV>,
) -> Option<CityV> {
    match special_case_city_spec(s) {
        Some(c) => Some(c),
        None => find_city_scan(
            gaz,
            crate::utils::candidate_countries(country),
            state.code,
            crate::chars::lower_seq(s),
        ),
    }
}

/// The first comma-delimited segment of the lower-cased text.
pub open spec fn first_segment(lower: Seq<char>) -> Seq<char> {
    match crate::chars::find_sub(lower, seq![',']) {
        Some(i) => lower.take(i),
        None => lower,
    }
}

/// The state codes a country's search considers: the known state's code
/// alone, else every code of the country's state table.
pub open spec fn search_codes(gaz: crate::GazV, c: CountryV, state: Option<StateV>) -> Seq<
    Seq<char>,
> {
    match state {
        Some(sv) => seq![sv.code],
        None => {
            let entries = table_or_empty(states_of_spec(gaz.states, c.code));
            Seq::new(entries.len(), |i: int| entries[i].0)
        },
    }
}

/// The state names a country's search considers, lower-cased.
pub open spec fn search_names_lower(gaz: crate::GazV, c: CountryV, state: Option<StateV>) -> Seq<
    Seq<char>,
> {
    match state {
        Some(sv) => seq![crate::chars::lower_seq(sv.name)],
        None => {
            let entries = table_or_empty(states_of_spec(gaz.states, c.code));
            Seq::new(entries.len(), |i: int| crate::chars::lower_seq(entries[i].1))
        },
    }
}

/// The full-match candidates: one (state code, leading segment) pair per
/// candidate state whose city list holds the leading segment verbatim.
pub open spec fn full_cands(
    groups: Seq<(Seq<char>, Seq<Seq<char>>)>,
    codes: Seq<Seq<char>>,
    first_seg: Seq<char>,
) -> Seq<(Seq<char>, Seq<char>)>
    decreases codes.len(),
{
    if codes.len() == 0 {
        Seq::empty()
    } else {
        (match cities_of_spec(groups, codes[0]) {
            Some(cities) => if cities.contains(first_seg) {
                seq![(codes[0], first_seg)]
            } else {
                Seq::empty()
            },
            None => Seq::empty(),
        }) + full_cands(groups, codes.skip(1), first_seg)
    }
}

/// Each listed token occurs among the text's tokens.
pub open spec fn tokens_all_in(ws: Seq<Seq<char>>, toks: Seq<Seq<char>>) -> bool
    decreases ws.len(),
{
    ws.len() == 0 || (toks.contains(ws[0]) && tokens_all_in(ws.skip(1), toks))
}

/// The partial-match candidates of one city list: one pair per city whose
/// words all occur among the text's tokens.
pub open spec fn partial_cands_of_list(
    code: Seq<char>,
    cities: Seq<Seq<char>>,
    toks: Seq<Seq<char>>,
) -> Seq<(Seq<char>, Seq<char>)>
    decreases cities.len(),
{
    if cities.len() == 0 {
        Seq::empty()
    } else {
        (if tokens_all_in(crate::utils::tokens(cities[0]), toks) {
            seq![(code, cities[0])]
        } else {
            Seq::empty()
        }) + partial_cands_of_list(code, cities.skip(1), toks)
    }
}

/// The partial-match candidates over the candidate states in order.
pub open spec fn partial_cands(
    groups: Seq<(Seq<char>, Seq<Seq<char>>)>,
    codes: Seq<Seq<char>>,
    toks: Seq<Seq<char>>,
) -> Seq<(Seq<char>, Seq<char>)>
    decreases codes.len(),
{
    if codes.len() == 0 {
        Seq::empty()
    } else {
        (match cities_of_spec(groups, codes[0]) {
            Some(cities) => partial_cands_of_list(codes[0], cities, toks),
            None => Seq::empty(),
        }) + partial_cands(groups, codes.skip(1), toks)
    }
}

/// A candidate is passed over: its city name is also a state name, and the
/// leading segment neither equals nor begins with it.
pub open spec fn rank_skip(
    cand: (Seq<char>, Seq<char>),
    first_seg: Seq<char>,
    lnames: Seq<Seq<char>>,
) -> bool {
    &&& lnames.contains(cand.1)
    &&& first_seg != cand.1
    &&& !crate::chars::starts_with(first_seg, cand.1)
}

/// A candidate ends the ranking at once: its city matches the leading
/// segment exactly or occurs in the text, and its state code is a token.
pub open spec fn rank_break(
    cand: (Seq<char>, Seq<char>),
    first_seg: Seq<char>,
    lower: Seq<char>,
    upper_toks: Seq<Seq<char>>,
) -> bool {
    &&& (first_seg == cand.1 || (cand.1.len() > 0 && crate::chars::contains_sub(lower, cand.1)))
    &&& upper_toks.contains(cand.0)
}

/// The first candidate that ends the ranking, skipped candidates ignored.
pub open spec fn rank_breaker(
    cands: Seq<(Seq<char>, Seq<char>)>,
    first_seg: Seq<char>,
    lower: Seq<char>,
    upper_toks: Seq<Seq<char>>,
    lnames: Seq<Seq<char>>,
) -> Option<(Seq<char>, Seq<char>)>
    decreases cands.len(),
{
    if cands.len() == 0 {
        None
    } else if rank_skip(cands[0], first_seg, lnames) {
        rank_breaker(cands.skip(1), first_seg, lower, upper_toks, lnames)
    } else if rank_break(cands[0], first_seg, lower, upper_toks) {
        Some(cands[0])
    } else {
        rank_breaker(cands.skip(1), first_seg, lower, upper_toks, lnames)
    }
}

/// The candidate the ranking settles on: the first break candidate if any,
/// else the first candidate not skipped.
pub open spec fn rank_first(
    cands: Seq<(Seq<char>, Seq<char>)>,
    first_seg: Seq<char>,
    lower: Seq<char>,
    upper_toks: Seq<Seq<char>>,
    lnames: Seq<Seq<char>>,
) -> Option<(Seq<char>, Seq<char>)>
    decreases cands.len(),
{
    if cands.len() == 0 {
        None
    } else if rank_skip(cands[0], first_seg, lnames) {
        rank_first(cands.skip(1), first_seg, lower, upper_toks, lnames)
    } else if rank_break(cands[0], first_seg, lower, upper_toks) {
        Some(cands[0])
    } else {
        match rank_breaker(cands.skip(1), first_seg, lower, upper_toks, lnames) {
            Some(b) => Some(b),
            None => Some(cands[0]),
        }
    }
}

/// One country's search: the full-match pass, the partial-match pass when it
/// found nothing, and the ranking over one or two candidates.
pub open spec fn country_city_choice(
    gaz: crate::GazV,
    c: CountryV,
    l: LocationV,
    s: Seq<char>,
) -> Option<(Seq<char>, Seq<char>)> {
    let lower = crate::chars::lower_seq(s);
    let first_seg = first_segment(lower);
    let groups = crate::nodes::country::groups_or_empty(cities_table_spec(gaz.cities, c.code));
    let codes = search_codes(gaz, c, l.state);
    let cands0 = full_cands(groups, codes, first_seg);
    let cands = if cands0.len() == 0 {
        partial_cands(groups, codes, crate::utils::tokens(lower))
    } else {
        cands0
    };
    if 1 <= cands.len() < 3 {
        rank_first(
            cands,
            first_seg,
            lower,
            crate::utils::tokens(crate::chars::upper_seq(s)),
            search_names_lower(gaz, c, l.state),
        )
    } else {
        None
    }
}

/// The accepted candidate folded into the location: the city title-cased,
/// the country and state backfilled where empty.
pub open spec fn accept_city(
    gaz: crate::GazV,
    c: CountryV,
    l: LocationV,
    choice: (Seq<char>, Seq<char>),
) -> LocationV {
    LocationV {
        city: Some(CityV { name: titled(choice.1), state: Some(choice.0) }),
        country: if l.country is None {
            Some(c)
        } else {
            l.country
        },
        state: if l.state is None {
            state_from_code_spec(gaz, Some(c), choice.0)
        } else {
            l.state
        },
        ..l
    }
}

/// The general pass over the candidate countries in order; the first country
/// whose ranking settles on a candidate wins.
pub open spec fn city_pass(
    gaz: crate::GazV,
    countries: Seq<CountryV>,
    l: LocationV,
    s: Seq<char>,
) -> LocationV
    decreases countries.len(),
{
    if countries.len() == 0 {
        crate::utils::decode_spec(l)
    } else {
        match cities_table_spec(gaz.cities, countries[0].code) {
            None => city_pass(gaz, countries.skip(1), l, s),
            Some(_) => match country_city_choice(gaz, countries[0], l, s) {
                Some(choice) => crate::utils::decode_spec(accept_city(gaz, countries[0], l, choice)),
                None => city_pass(gaz, countries.skip(1), l, s),
            },
        }
    }
}

/// What the city stage does to a location: nothing when a city is known; the
/// D.C. special case, backfilling only empty fields; else the state-implied
/// country backfill followed by the general pass, with accents folded out of
/// the resolved names.
pub open spec fn fill_city_spec(gaz: crate::GazV, l: LocationV, s: Seq<char>) -> LocationV {
    if l.city is Some {
        l
    } else {
        match special_case_city_spec(s) {
            Some(c) => crate::utils::decode_spec(
                LocationV {
                    city: Some(c),
                    state: if l.state is None {
                        Some(StateV { code: "DC"@, name: "District Of Columbia"@ })
                    } else {
                        l.state
                    },
                    country: if l.country is None {
                        Some(united_states_v())
                    } else {
                        l.country
                    },
                    ..l
                },
            ),
            None => {
                let l1 = crate::nodes::state::fill_country_from_state_spec(gaz, l);
                city_pass(gaz, crate::utils::candidate_countries(l1.country), l1, s)
            },
        }
    }
}

/// What removing a city from a remainder yields: every occurrence of its
/// name deleted, then the normalizer run again.
pub open spec fn remove_city_spec(s: Seq<char>, name: Seq<char>) -> Seq<char> {
    crate::utils::clean_spec(
        if name.len() == 0 {
            s
        } else {
            crate::chars::replace_seq(s, name, Seq::empty())
        },
    )
}

} // verus!

verus! {

/// Whether one of the listed strings holds exactly the given characters.
fn strings_contain(v: &Vec<String>, x: &Vec<char>) -> (r: bool)
    ensures
        r == crate::chars::strings_view(v@).contains(x@),
{
    let mut i: usize = 0;
    while i < v.len()
        invariant
            i <= v@.len(),
            forall|j: int| 0 <= j < i ==> crate::chars::strings_view(v@)[j] != x@,
        decreases v@.len() - i,
    {
        let cv = chars_vec(v[i].as_str());
        if crate::chars::eq_chars(&cv, x) {
            assert(crate::chars::strings_view(v@)[i as int] == x@);
            return true;
        }
        i = i + 1;
    }
    false
}

/// Executable test that each token of a city occurs among the text's tokens.
fn tokens_all_in_exec(city: &Vec<char>, toks: &Vec<Vec<char>>) -> (r: bool)
    ensures
        r == tokens_all_in(crate::utils::tokens(city@), crate::chars::pieces_view(toks@)),
{
    let words = crate::chars::split_class_vec(crate::chars::CharClass::Word, city);
    let ghost wv = crate::utils::tokens(city@);
    assert(crate::chars::pieces_view(words@) == wv);
    let ghost tv = crate::chars::pieces_view(toks@);
    let mut k: usize = 0;
    assert(wv.skip(0) =~= wv);
    while k < words.len()
        invariant
            k <= words@.len(),
            crate::chars::pieces_view(words@) == wv,
            wv == crate::utils::tokens(city@),
            tv == crate::chars::pieces_view(toks@),
            tokens_all_in(wv, tv) == tokens_all_in(wv.skip(k as int), tv),
        decreases words@.len() - k,
    {
        let ghost suf = wv.skip(k as int);
        assert(suf[0] == wv[k as int]);
        assert(suf.skip(1) =~= wv.skip(k + 1));
        if !crate::chars::pieces_contain(toks, &words[k]) {
            assert(!tokens_all_in(suf, tv));
            return false;
        }
        k = k + 1;
    }
    assert(wv.skip(k as int) =~= Seq::<Seq<char>>::empty());
    true
}

/// Executable first contained city over one list.
fn first_contained_city_exec(cities: &Vec<String>, lower: &Vec<char>) -> (r: Option<String>)
    ensures
        match r {
            Some(c) => first_contained_city(crate::chars::strings_view(cities@), lower@) == Some(
                c@,
            ),
            None => first_contained_city(crate::chars::strings_view(cities@), lower@) is None,
        },
{
    let ghost cv = crate::chars::strings_view(cities@);
    let mut i: usize = 0;
    assert(cv.skip(0) =~= cv);
    while i < cities.len()
        invariant
            i <= cities@.len(),
            cv == crate::chars::strings_view(cities@),
            first_contained_city(cv, lower@) == first_contained_city(cv.skip(i as int), lower@),
        decreases cities@.len() - i,
    {
        let ghost suf = cv.skip(i as int);
        assert(suf[0] == cv[i as int]);
        assert(suf.skip(1) =~= cv.skip(i + 1));
        let nv = chars_vec(cities[i].as_str());
        if nv.len() > 0 && crate::chars::contains_in(lower, &nv) {
            return Some(cities[i].clone());
        }
        i = i + 1;
    }
    assert(cv.skip(i as int) =~= Seq::<Seq<char>>::empty());
    None
}

/// The codes and lower-cased names the search considers, as executable
/// vectors whose views match [`search_codes`] and [`search_names_lower`].
fn search_lists(
    p: &crate::Parser,
    c: &crate::nodes::Country,
    state: &Option<crate::nodes::State>,
) -> (r: (Vec<String>, Vec<Vec<char>>))
    ensures
        crate::chars::strings_view(r.0@) == search_codes(
            p.gaz(),
            c@,
            match state {
                Some(s) => Some(s@),
                None => None,
            },
        ),
        crate::chars::pieces_view(r.1@) == search_names_lower(
            p.gaz(),
            c@,
            match state {
                Some(s) => Some(s@),
                None => None,
            },
        ),
{
    let ghost sv = match state {
        Some(s) => Some(s@),
        None => None,
    };
    match state {
        Some(s) => {
            let mut codes: Vec<String> = Vec::new();
            codes.push(s.code.clone());
            let mut names: Vec<Vec<char>> = Vec::new();
            let nv = chars_vec(s.name.as_str());
            names.push(crate::chars::to_lower_vec(&nv));
            assert(crate::chars::strings_view(codes@) =~= search_codes(p.gaz(), c@, sv));
            assert(crate::chars::pieces_view(names@) =~= search_names_lower(p.gaz(), c@, sv));
            (codes, names)
        },
        None => {
            let ghost entries_v = table_or_empty(states_of_spec(p.gaz().states, c@.code));
            let mut codes: Vec<String> = Vec::new();
            let mut names: Vec<Vec<char>> = Vec::new();
            match crate::nodes::state::states_of(&p.states, c.code.as_str()) {
                Some(m) => {
                    let mut i: usize = 0;
                    while i < m.entries.len()
                        invariant
                            i <= m.entries@.len(),
                            entries_v == m.view_pairs(),
                            crate::chars::strings_view(codes@) =~= Seq::new(
                                i as nat,
                                |j: int| entries_v[j].0,
                            ),
                            crate::chars::pieces_view(names@) =~= Seq::new(
                                i as nat,
                                |j: int| crate::chars::lower_seq(entries_v[j].1),
                            ),
                        decreases m.entries@.len() - i,
                    {
                        let ghost pre_c = crate::chars::strings_view(codes@);
                        let ghost pre_n = crate::chars::pieces_view(names@);
                        codes.push(m.entries[i].0.clone());
                        let nv = chars_vec(m.entries[i].1.as_str());
                        names.push(crate::chars::to_lower_vec(&nv));
                        proof {
                            assert(pre_c.len() == codes@.len() - 1);
                            assert(pre_n.len() == names@.len() - 1);
                            assert(entries_v[i as int] == m.view_pairs()[i as int]);
                            assert forall|j: int| 0 <= j < i + 1 implies crate::chars::strings_view(
                                codes@,
                            )[j] == Seq::new((i + 1) as nat, |j2: int| entries_v[j2].0)[j] by {
                                if j < i {
                                    assert(crate::chars::strings_view(codes@)[j] == pre_c[j]);
                                    assert(pre_c[j] == Seq::new(
                                        i as nat,
                                        |j2: int| entries_v[j2].0,
                                    )[j]);
                                } else {
                                    assert(codes@[j]@ == entries_v[j].0);
                                }
                            }
                            assert(crate::chars::strings_view(codes@) =~= Seq::new(
                                (i + 1) as nat,
                                |j2: int| entries_v[j2].0,
                            ));
                            assert forall|j: int| 0 <= j < i + 1 implies crate::chars::pieces_view(
                                names@,
                            )[j] == Seq::new(
                                (i + 1) as nat,
                                |j2: int| crate::chars::lower_seq(entries_v[j2].1),
                            )[j] by {
                                if j < i {
                                    assert(crate::chars::pieces_view(names@)[j] == pre_n[j]);
                                    assert(pre_n[j] == Seq::new(
                                        i as nat,
                                        |j2: int| crate::chars::lower_seq(entries_v[j2].1),
                                    )[j]);
                                } else {
                                    assert(names@[j]@ == crate::chars::lower_seq(entries_v[j].1));
                                }
                            }
                            assert(crate::chars::pieces_view(names@) =~= Seq::new(
                                (i + 1) as nat,
                                |j2: int| crate::chars::lower_seq(entries_v[j2].1),
                            ));
                        }
                        i = i + 1;
                    }
                    assert(crate::chars::strings_view(codes@) =~= search_codes(p.gaz(), c@, sv));
                    assert(crate::chars::pieces_view(names@) =~= search_names_lower(
                        p.gaz(),
                        c@,
                        sv,
                    ));
                },
                None => {
                    assert(entries_v =~= Seq::<(Seq<char>, Seq<char>)>::empty());
                    assert(crate::chars::strings_view(codes@) =~= search_codes(p.gaz(), c@, sv));
                    assert(crate::chars::pieces_view(names@) =~= search_names_lower(
                        p.gaz(),
                        c@,
                        sv,
                    ));
                },
            }
            (codes, names)
        },
    }
}

/// Executable full-match pass, mirroring [`full_cands`].
fn full_cands_exec(cm: &CitiesMap, codes: &Vec<String>, first_seg: &Vec<char>) -> (r: Vec<
    (String, String),
>)
    ensures
        crate::nodes::pairs_view(r@) == full_cands(
            cm.view_groups(),
            crate::chars::strings_view(codes@),
            first_seg@,
        ),
{
    let ghost kv = crate::chars::strings_view(codes@);
    let mut r: Vec<(String, String)> = Vec::new();
    let mut i: usize = 0;
    assert(kv.skip(0) =~= kv);
    assert(crate::nodes::pairs_view(r@) + full_cands(cm.view_groups(), kv, first_seg@)
        =~= full_cands(cm.view_groups(), kv, first_seg@));
    while i < codes.len()
        invariant
            i <= codes@.len(),
            kv == crate::chars::strings_view(codes@),
            crate::nodes::pairs_view(r@) + full_cands(
                cm.view_groups(),
                kv.skip(i as int),
                first_seg@,
            ) == full_cands(cm.view_groups(), kv, first_seg@),
        decreases codes@.len() - i,
    {
        let ghost pre = crate::nodes::pairs_view(r@);
        let ghost suf = kv.skip(i as int);
        assert(suf[0] == kv[i as int]);
        assert(suf.skip(1) =~= kv.skip(i + 1));
        let code_v = chars_vec(codes[i].as_str());
        match cm.cities_of(&code_v) {
            Some(cities) => {
                if strings_contain(cities, first_seg) {
                    r.push((codes[i].clone(), crate::chars::string_of(first_seg)));
                    assert(crate::nodes::pairs_view(r@) =~= pre + seq![
                        (suf[0], first_seg@),
                    ]);
                    assert(pre + (seq![(suf[0], first_seg@)] + full_cands(
                        cm.view_groups(),
                        suf.skip(1),
                        first_seg@,
                    )) =~= pre + seq![(suf[0], first_seg@)] + full_cands(
                        cm.view_groups(),
                        suf.skip(1),
                        first_seg@,
                    ));
                }
            },
            None => {},
        }
        i = i + 1;
    }
    assert(kv.skip(i as int) =~= Seq::<Seq<char>>::empty());
    assert(crate::nodes::pairs_view(r@) + full_cands(cm.view_groups(), Seq::empty(), first_seg@)
        =~= crate::nodes::pairs_view(r@));
    r
}

/// Executable partial-match pass over one city list.
fn partial_cands_of_list_exec(code: &String, cities: &Vec<String>, toks: &Vec<Vec<char>>) -> (r:
    Vec<(String, String)>)
    ensures
        crate::nodes::pairs_view(r@) == partial_cands_of_list(
            code@,
            crate::chars::strings_view(cities@),
            crate::chars::pieces_view(toks@),
        ),
{
    let ghost cv = crate::chars::strings_view(cities@);
    let ghost tv = crate::chars::pieces_view(toks@);
    let mut r: Vec<(String, String)> = Vec::new();
    let mut i: usize = 0;
    assert(cv.skip(0) =~= cv);
    assert(crate::nodes::pairs_view(r@) + partial_cands_of_list(code@, cv, tv)
        =~= partial_cands_of_list(code@, cv, tv));
    while i < cities.len()
        invariant
            i <= cities@.len(),
            cv == crate::chars::strings_view(cities@),
            tv == crate::chars::pieces_view(toks@),
            crate::nodes::pairs_view(r@) + partial_cands_of_list(code@, cv.skip(i as int), tv)
                == partial_cands_of_list(code@, cv, tv),
        decreases cities@.len() - i,
    {
        let ghost pre = crate::nodes::pairs_view(r@);
        let ghost suf = cv.skip(i as int);
        assert(suf[0] == cv[i as int]);
        assert(suf.skip(1) =~= cv.skip(i + 1));
        let city_v = chars_vec(cities[i].as_str());
        if tokens_all_in_exec(&city_v, toks) {
            r.push((code.clone(), cities[i].clone()));
            assert(crate::nodes::pairs_view(r@) =~= pre + seq![(code@, suf[0])]);
            assert(pre + (seq![(code@, suf[0])] + partial_cands_of_list(code@, suf.skip(1), tv))
                =~= pre + seq![(code@, suf[0])] + partial_cands_of_list(code@, suf.skip(1), tv));
        }
        i = i + 1;
    }
    assert(cv.skip(i as int) =~= Seq::<Seq<char>>::empty());
    assert(crate::nodes::pairs_view(r@) + partial_cands_of_list(code@, Seq::empty(), tv)
        =~= crate::nodes::pairs_view(r@));
    r
}

/// Executable partial-match pass, mirroring [`partial_cands`].
fn partial_cands_exec(cm: &CitiesMap, codes: &Vec<String>, toks: &Vec<Vec<char>>) -> (r: Vec<
    (String, String),
>)
    ensures
        crate::nodes::pairs_view(r@) == partial_cands(
            cm.view_groups(),
            crate::chars::strings_view(codes@),
            crate::chars::pieces_view(toks@),
        ),
{
    let ghost kv = crate::chars::strings_view(codes@);
    let ghost tv = crate::chars::pieces_view(toks@);
    let mut r: Vec<(String, String)> = Vec::new();
    let mut i: usize = 0;
    assert(kv.skip(0) =~= kv);
    assert(crate::nodes::pairs_view(r@) + partial_cands(cm.view_groups(), kv, tv)
        =~= partial_cands(cm.view_groups(), kv, tv));
    while i < codes.len()
        invariant
            i <= codes@.len(),
            kv == crate::chars::strings_view(codes@),
            tv == crate::chars::pieces_view(toks@),
            crate::nodes::pairs_view(r@) + partial_cands(cm.view_groups(), kv.skip(i as int), tv)
                == partial_cands(cm.view_groups(), kv, tv),
        decreases codes@.len() - i,
    {
        let ghost pre = crate::nodes::pairs_view(r@);
        let ghost suf = kv.skip(i as int);
        assert(suf[0] == kv[i as int]);
        assert(suf.skip(1) =~= kv.skip(i + 1));
        let code_v = chars_vec(codes[i].as_str());
        match cm.cities_of(&code_v) {
            Some(cities) => {
                let mut piece = partial_cands_of_list_exec(&codes[i], cities, toks);
                let ghost piece_v = crate::nodes::pairs_view(piece@);
                r.append(&mut piece);
                assert(crate::nodes::pairs_view(r@) =~= pre + piece_v);
                assert(pre + (piece_v + partial_cands(cm.view_groups(), suf.skip(1), tv)) =~= pre
                    + piece_v + partial_cands(cm.view_groups(), suf.skip(1), tv));
            },
            None => {},
        }
        i = i + 1;
    }
    assert(kv.skip(i as int) =~= Seq::<Seq<char>>::empty());
    assert(crate::nodes::pairs_view(r@) + partial_cands(cm.view_groups(), Seq::empty(), tv)
        =~= crate::nodes::pairs_view(r@));
    r
}

/// Executable ranking, mirroring [`rank_first`].
fn rank_first_exec(
    cands: &Vec<(String, String)>,
    first_seg: &Vec<char>,
    lower: &Vec<char>,
    upper_toks: &Vec<Vec<char>>,
    lnames: &Vec<Vec<char>>,
) -> (r: Option<(String, String)>)
    ensures
        match r {
            Some(x) => rank_first(
                crate::nodes::pairs_view(cands@),
                first_seg@,
                lower@,
                crate::chars::pieces_view(upper_toks@),
                crate::chars::pieces_view(lnames@),
            ) == Some((x.0@, x.1@)),
            None => rank_first(
                crate::nodes::pairs_view(cands@),
                first_seg@,
                lower@,
                crate::chars::pieces_view(upper_toks@),
                crate::chars::pieces_view(lnames@),
            ) is None,
        },
{
    let ghost cv = crate::nodes::pairs_view(cands@);
    let ghost ut = crate::chars::pieces_view(upper_toks@);
    let ghost ln = crate::chars::pieces_view(lnames@);
    let mut first_pushed: Option<usize> = None;
    let mut i: usize = 0;
    assert(cv.skip(0) =~= cv);
    while i < cands.len()
        invariant
            i <= cands@.len(),
            cv == crate::nodes::pairs_view(cands@),
            ut == crate::chars::pieces_view(upper_toks@),
            ln == crate::chars::pieces_view(lnames@),
            match first_pushed {
                None => rank_first(cv, first_seg@, lower@, ut, ln) == rank_first(
                    cv.skip(i as int),
                    first_seg@,
                    lower@,
                    ut,
                    ln,
                ),
                Some(fp) => fp < i && fp < cands@.len() && rank_first(
                    cv,
                    first_seg@,
                    lower@,
                    ut,
                    ln,
                ) == (match rank_breaker(cv.skip(i as int), first_seg@, lower@, ut, ln) {
                    Some(b) => Some(b),
                    None => Some(cv[fp as int]),
                }),
            },
        decreases cands@.len() - i,
    {
        let ghost suf = cv.skip(i as int);
        assert(suf[0] == cv[i as int]);
        assert(suf.skip(1) =~= cv.skip(i + 1));
        let code_v = chars_vec(cands[i].0.as_str());
        let city_v = chars_vec(cands[i].1.as_str());
        let is_skip = crate::chars::pieces_contain(lnames, &city_v) && !crate::chars::eq_chars(
            first_seg,
            &city_v,
        ) && !crate::chars::starts_with_exec(first_seg, &city_v);
        assert(is_skip == rank_skip(suf[0], first_seg@, ln));
        if !is_skip {
            let is_break = (crate::chars::eq_chars(first_seg, &city_v) || (city_v.len() > 0
                && crate::chars::contains_in(lower, &city_v))) && crate::chars::pieces_contain(
                upper_toks,
                &code_v,
            );
            assert(is_break == rank_break(suf[0], first_seg@, lower@, ut));
            if is_break {
                return Some((cands[i].0.clone(), cands[i].1.clone()));
            }
            if first_pushed.is_none() {
                first_pushed = Some(i);
            }
        }
        i = i + 1;
    }
    assert(cv.skip(i as int) =~= Seq::<(Seq<char>, Seq<char>)>::empty());
    match first_pushed {
        Some(fp) => Some((cands[fp].0.clone(), cands[fp].1.clone())),
        None => None,
    }
}

} // verus!

verus! {

impl crate::Parser {
    /// The Washington D.C. special case for cities: text with `washington`
    /// and `dc`, the phrase `district of columbia`, `d.c.` or ` d, c`
    /// resolves to the city Washington under DC.
    pub fn find_special_case_city(&self, input: &str) -> (r: Option<City>)
        ensures
            match r {
                Some(c) => special_case_city_spec(input@) == Some(c@),
                None => special_case_city_spec(input@) is None,
            },
    {
        proof {
            reveal_strlit("washington");
            reveal_strlit("dc");
            reveal_strlit("district of columbia");
            reveal_strlit("d.c.");
            reveal_strlit(" d, c");
        }
        let v = chars_vec(input);
        let lower = crate::chars::to_lower_vec(&v);
        let p0 = chars_vec("washington");
        let p1 = chars_vec("dc");
        let p2 = chars_vec("district of columbia");
        let p3 = chars_vec("d.c.");
        let p4 = chars_vec(" d, c");
        if (crate::chars::contains_in(&lower, &p0) && crate::chars::contains_in(&lower, &p1))
            || crate::chars::contains_in(&lower, &p2) || crate::chars::contains_in(&lower, &p3)
            || crate::chars::contains_in(&lower, &p4) {
            Some(City { name: "Washington".to_owned(), state: Some("DC".to_owned()) })
        } else {
            None
        }
    }

    /// Record the special-case city, state and country, filling only fields
    /// that are still empty.
    pub fn fill_special_case_city(&self, location: &mut crate::nodes::Location, input: &str)
        ensures
            final(location)@ == fill_special_case_spec(old(location)@, input@),
    {
        match self.find_special_case_city(input) {
            Some(c) => {
                if location.city.is_none() {
                    location.city = Some(c);
                }
                if location.state.is_none() {
                    location.state = Some(
                        State {
                            code: "DC".to_owned(),
                            name: "District Of Columbia".to_owned(),
                        },
                    );
                }
                if location.country.is_none() {
                    location.country = Some(crate::nodes::country::united_states());
                }
            },
            None => {},
        }
    }

    /// Look up a city of the given state contained in the text: the special
    /// case first, then the contains-scan over the candidate countries'
    /// city lists for that state. A found name is returned title-cased.
    pub fn find_city(
        &self,
        input: &str,
        state: &State,
        country: &Option<crate::nodes::Country>,
    ) -> (r: Option<City>)
        ensures
            match r {
                Some(c) => find_city_spec(
                    self.gaz(),
                    input@,
                    state@,
                    match country {
                        Some(x) => Some(x@),
                        None => None,
                    },
                ) == Some(c@),
                None => find_city_spec(
                    self.gaz(),
                    input@,
                    state@,
                    match country {
                        Some(x) => Some(x@),
                        None => None,
                    },
                ) is None,
            },
    {
        let ghost cv = match country {
            Some(x) => Some(x@),
            None => None,
        };
        match self.find_special_case_city(input) {
            Some(c) => {
                return Some(c);
            },
            None => {},
        }
        let v = chars_vec(input);
        let lower = crate::chars::to_lower_vec(&v);
        let code_v = chars_vec(state.code.as_str());
        let countries = crate::utils::get_countries(country);
        let ghost cseq = Seq::new(countries@.len(), |i: int| countries@[i]@);
        proof {
            assert(cseq =~= crate::utils::candidate_countries(cv));
        }
        let mut i: usize = 0;
        assert(cseq.skip(0) =~= cseq);
        while i < countries.len()
            invariant
                i <= countries@.len(),
                code_v@ == state@.code,
                lower@ == crate::chars::lower_seq(input@),
                special_case_city_spec(input@) is None,
                cv == match country {
                    Some(x) => Some(x@),
                    None => None,
                },
                cseq == Seq::new(countries@.len(), |k: int| countries@[k]@),
                cseq =~= crate::utils::candidate_countries(cv),
                find_city_scan(self.gaz(), cseq, state@.code, crate::chars::lower_seq(input@))
                    == find_city_scan(
                    self.gaz(),
                    cseq.skip(i as int),
                    state@.code,
                    crate::chars::lower_seq(input@),
                ),
            decreases countries@.len() - i,
        {
            let ghost suf = cseq.skip(i as int);
            assert(suf[0] == cseq[i as int]);
            assert(suf.skip(1) =~= cseq.skip(i + 1));
            let c = &countries[i];
            let ghost groups_v = crate::nodes::country::groups_or_empty(
                cities_table_spec(self.gaz().cities, c@.code),
            );
            match cities_of_country(&self.cities, c.code.as_str()) {
                Some(cm) => {
                    assert(groups_v == cm.view_groups());
                    match cm.cities_of(&code_v) {
                        Some(cities) => {
                            match first_contained_city_exec(cities, &lower) {
                                Some(city) => {
                                    assert(find_city_scan(
                                        self.gaz(),
                                        suf,
                                        state@.code,
                                        crate::chars::lower_seq(input@),
                                    ) == Some(
                                        CityV { name: titled(city@), state: Some(state@.code) },
                                    ));
                                    let name = title_case(city.as_str());
                                    let code = crate::chars::string_of(&code_v);
                                    return Some(City { name, state: Some(code) });
                                },
                                None => {
                                    assert(find_city_scan(
                                        self.gaz(),
                                        suf,
                                        state@.code,
                                        crate::chars::lower_seq(input@),
                                    ) == find_city_scan(
                                        self.gaz(),
                                        suf.skip(1),
                                        state@.code,
                                        crate::chars::lower_seq(input@),
                                    ));
                                },
                            }
                        },
                        None => {
                            assert(find_city_scan(
                                self.gaz(),
                                suf,
                                state@.code,
                                crate::chars::lower_seq(input@),
                            ) == find_city_scan(
                                self.gaz(),
                                suf.skip(1),
                                state@.code,
                                crate::chars::lower_seq(input@),
                            ));
                        },
                    }
                },
                None => {
                    assert(groups_v =~= Seq::<(Seq<char>, Seq<Seq<char>>)>::empty());
                    assert(cities_of_spec(groups_v, state@.code) is None);
                },
            }
            i = i + 1;
        }
        assert(cseq.skip(i as int) =~= Seq::<CountryV>::empty());
        None
    }

    /// Remove the matched city name from the remainder and re-run the
    /// normalizer.
    pub fn remove_city(&self, input: &mut String, city: &City)
        ensures
            final(input)@ == remove_city_spec(old(input)@, city@.name),
    {
        let p = chars_vec(city.name.as_str());
        if p.len() > 0 {
            let v = chars_vec(input.as_str());
            let empty: Vec<char> = Vec::new();
            let out = crate::chars::replace_in(&v, &p, &empty);
            *input = crate::chars::string_of(&out);
        }
        crate::utils::clean(input);
    }

    /// Resolve a city for the location: the special case first; else, per
    /// candidate country, the full match of the leading segment against the
    /// known or all state city lists, the word-by-word partial match when
    /// that found nothing, and the ranking of one or two candidates. The
    /// accepted name is title-cased and the state and country are backfilled
    /// where still empty.
    pub fn fill_city(&self, location: &mut crate::nodes::Location, input: &str)
        ensures
            final(location)@ == fill_city_spec(self.gaz(), old(location)@, input@),
    {
        if location.city.is_some() {
            return;
        }
        match self.find_special_case_city(input) {
            Some(c) => {
                location.city = Some(c);
                if location.state.is_none() {
                    location.state = Some(
                        State {
                            code: "DC".to_owned(),
                            name: "District Of Columbia".to_owned(),
                        },
                    );
                }
                if location.country.is_none() {
                    location.country = Some(crate::nodes::country::united_states());
                }
                crate::utils::decode(location);
                return;
            },
            None => {},
        }
        self.fill_country_from_state(location);
        let ghost l1 = location@;
        let v = chars_vec(input);
        let lower = crate::chars::to_lower_vec(&v);
        let upper = crate::chars::to_upper_vec(&v);
        let upper_toks = crate::chars::split_class_vec(crate::chars::CharClass::Word, &upper);
        let lower_toks = crate::chars::split_class_vec(crate::chars::CharClass::Word, &lower);
        let comma = crate::utils::one_char_vec(',');
        proof {
            crate::chars::lemma_find_from_props(lower@, comma@, 0);
        }
        let first_seg = match crate::chars::find_in(&lower, &comma) {
            Some(idx) => crate::chars::sub_vec(&lower, 0, idx),
            None => crate::chars::sub_vec(&lower, 0, lower.len()),
        };
        assert(first_seg@ == first_segment(crate::chars::lower_seq(input@)));
        let countries = crate::utils::get_countries(&location.country);
        let ghost cseq = Seq::new(countries@.len(), |i: int| countries@[i]@);
        proof {
            assert(cseq =~= crate::utils::candidate_countries(l1.country));
        }
        let mut i: usize = 0;
        assert(cseq.skip(0) =~= cseq);
        while i < countries.len()
            invariant
                i <= countries@.len(),
                location@ == l1,
                old(location)@.city is None,
                special_case_city_spec(input@) is None,
                l1 == crate::nodes::state::fill_country_from_state_spec(
                    self.gaz(),
                    old(location)@,
                ),
                lower@ == crate::chars::lower_seq(input@),
                first_seg@ == first_segment(crate::chars::lower_seq(input@)),
                crate::chars::pieces_view(upper_toks@) == crate::utils::tokens(
                    crate::chars::upper_seq(input@),
                ),
                crate::chars::pieces_view(lower_toks@) == crate::utils::tokens(
                    crate::chars::lower_seq(input@),
                ),
                cseq == Seq::new(countries@.len(), |k: int| countries@[k]@),
                cseq =~= crate::utils::candidate_countries(l1.country),
                city_pass(self.gaz(), cseq, l1, input@) == city_pass(
                    self.gaz(),
                    cseq.skip(i as int),
                    l1,
                    input@,
                ),
            decreases countries@.len() - i,
        {
            let ghost suf = cseq.skip(i as int);
            assert(suf[0] == cseq[i as int]);
            assert(suf.skip(1) =~= cseq.skip(i + 1));
            let c = &countries[i];
            match cities_of_country(&self.cities, c.code.as_str()) {
                Some(cm) => {
                    let ghost groups_v = crate::nodes::country::groups_or_empty(
                        cities_table_spec(self.gaz().cities, c@.code),
                    );
                    assert(groups_v == cm.view_groups());
                    let lists = search_lists(self, c, &location.state);
                    let codes = lists.0;
                    let lnames = lists.1;
                    let mut cands = full_cands_exec(cm, &codes, &first_seg);
                    if cands.len() == 0 {
                        cands = partial_cands_exec(cm, &codes, &lower_toks);
                    }
                    assert(crate::nodes::pairs_view(cands@) == ({
                        let cands0 = full_cands(
                            groups_v,
                            search_codes(self.gaz(), c@, l1.state),
                            first_seg@,
                        );
                        if cands0.len() == 0 {
                            partial_cands(
                                groups_v,
                                search_codes(self.gaz(), c@, l1.state),
                                crate::utils::tokens(crate::chars::lower_seq(input@)),
                            )
                        } else {
                            cands0
                        }
                    }));
                    let mut chosen: Option<(String, String)> = None;
                    if 1 <= cands.len() && cands.len() < 3 {
                        chosen = rank_first_exec(&cands, &first_seg, &lower, &upper_toks, &lnames);
                    }
                    assert(match chosen {
                        Some(x) => country_city_choice(self.gaz(), c@, l1, input@) == Some(
                            (x.0@, x.1@),
                        ),
                        None => country_city_choice(self.gaz(), c@, l1, input@) is None,
                    });
                    match chosen {
                        Some(choice) => {
                            assert(cities_table_spec(self.gaz().cities, suf[0].code) is Some);
                            assert(city_pass(self.gaz(), suf, l1, input@) == crate::utils::decode_spec(
                                accept_city(self.gaz(), suf[0], l1, (choice.0@, choice.1@)),
                            ));
                            let name = title_case(choice.1.as_str());
                            location.city = Some(City { name, state: Some(choice.0.clone()) });
                            if location.country.is_none() {
                                location.country = Some(c.duplicate());
                            }
                            if location.state.is_none() {
                                let implied = self.state_from_code(
                                    &Some(c.duplicate()),
                                    choice.0.as_str(),
                                );
                                location.state = implied;
                            }
                            assert(location@ == accept_city(
                                self.gaz(),
                                c@,
                                l1,
                                (choice.0@, choice.1@),
                            ));
                            crate::utils::decode(location);
                            return;
                        },
                        None => {
                            assert(city_pass(self.gaz(), suf, l1, input@) == city_pass(
                                self.gaz(),
                                suf.skip(1),
                                l1,
                                input@,
                            ));
                        },
                    }
                },
                None => {
                    assert(cities_table_spec(self.gaz().cities, suf[0].code) is None);
                    assert(city_pass(self.gaz(), suf, l1, input@) == city_pass(
                        self.gaz(),
                        suf.skip(1),
                        l1,
                        input@,
                    ));
                },
            }
            i = i + 1;
        }
        assert(cseq.skip(i as int) =~= Seq::<CountryV>::empty());
        crate::utils::decode(location);
    }
}

/// What the special-case city stage does to a location: on a match the city,
/// state and country are filled where still empty.
pub open spec fn fill_special_case_spec(l: LocationV, s: Seq<char>) -> LocationV {
    match special_case_city_spec(s) {
        Some(c) => LocationV {
            city: if l.city is None {
                Some(c)
            } else {
                l.city
            },
            state: if l.state is None {
                Some(StateV { code: "DC"@, name: "District Of Columbia"@ })
            } else {
                l.state
            },
            country: if l.country is None {
                Some(united_states_v())
            } else {
                l.country
            },
            ..l
        },
        None => l,
    }
}

} // verus!
