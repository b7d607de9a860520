//! Countries and the country reference table.

use vstd::prelude::*;

use crate::chars::{chars_vec, string_of, trim_spaces, trim_str};
use crate::nodes::city::CitiesMap;
use crate::nodes::state::StatesMap;
use crate::nodes::{lookup_first, lookup_second, pairs_view};

verus! {

broadcast use vstd::string::group_string_axioms;

/// A country: an ISO-style two-letter code and a display name.
#[derive(Debug, Clone)]
pub struct Country {
    pub name: String,
    pub code: String,
}

/// The mathematical value of a [`Country`].
pub struct CountryV {
    pub name: Seq<char>,
    pub code: Seq<char>,
}

impl View for Country {
    type V = CountryV;

    open spec fn view(&self) -> CountryV {
        CountryV { name: self.name@, code: self.code@ }
    }
}

impl PartialEq for Country {
    /// Countries are equal when both code and name agree.
    fn eq(&self, other: &Country) -> (r: bool) {
        self.name == other.name && self.code == other.code
    }
}

impl vstd::std_specs::cmp::PartialEqSpecImpl for Country {
    open spec fn obeys_eq_spec() -> bool {
        true
    }

    open spec fn eq_spec(&self, other: &Country) -> bool {
        self.name@ == other.name@ && self.code@ == other.code@
    }
}

impl Country {
    /// An independent copy.
    pub fn duplicate(&self) -> (r: Country)
        ensures
            r@ == self@,
    {
        Country { name: self.name.clone(), code: self.code.clone() }
    }

    /// The display form of a country: its code, whitespace-trimmed.
    pub fn to_string(&self) -> (r: String)
        ensures
            r@ == trim_spaces(self.code@),
    {
        trim_str(&self.code)
    }
}

/// The United States constant used for defaults and backfills.
pub fn united_states() -> (r: Country)
    ensures
        r@.code == "US"@,
        r@.name == "United States"@,
{
    Country { name: "United States".to_owned(), code: "US".to_owned() }
}

/// The Canada constant used for defaults and backfills.
pub fn canada() -> (r: Country)
    ensures
        r@.code == "CA"@,
        r@.name == "Canada"@,
{
    Country { name: "Canada".to_owned(), code: "CA".to_owned() }
}

/// The country view of the two constants, in spec form.
pub open spec fn united_states_v() -> CountryV {
    CountryV { name: "United States"@, code: "US"@ }
}

/// The Canada view, in spec form.
pub open spec fn canada_v() -> CountryV {
    CountryV { name: "Canada"@, code: "CA"@ }
}

/// The bidirectional country reference table: (code, name) pairs, looked up
/// by whichever side is known. The first matching entry wins.
#[derive(Debug)]
pub struct CountriesMap {
    pub entries: Vec<(String, String)>,
}

impl CountriesMap {
    /// The table as a sequence of (code, name) character pairs.
    pub open spec fn view_pairs(&self) -> Seq<(Seq<char>, Seq<char>)> {
        pairs_view(self.entries@)
    }

    /// The name recorded for a code.
    pub fn name_of_code(&self, code: &str) -> (r: Option<String>)
        ensures
            match r {
                Some(v) => lookup_first(self.view_pairs(), code@) == Some(v@),
                None => lookup_first(self.view_pairs(), code@) is None,
            },
    {
        let key = chars_vec(code);
        crate::nodes::lookup_by_first(&self.entries, &key)
    }

    /// The code recorded for a name.
    pub fn code_of_name(&self, name: &str) -> (r: Option<String>)
        ensures
            match r {
                Some(v) => lookup_second(self.view_pairs(), name@) == Some(v@),
                None => lookup_second(self.view_pairs(), name@) is None,
            },
    {
        let key = chars_vec(name);
        crate::nodes::lookup_by_second(&self.entries, &key)
    }
}

/// One (code, name) row of the built-in tables.
fn row(code: &str, name: &str) -> (r: (String, String))
    ensures
        r.0@ == code@,
        r.1@ == name@,
{
    (code.to_owned(), name.to_owned())
}

/// The built-in country table. The two gazetteer countries come first; the
/// rest serve the generic name and code fallback of the country resolver.
pub fn read_countries() -> (r: CountriesMap)
    ensures
        lookup_first(r.view_pairs(), "US"@) == Some("United States"@),
        lookup_first(r.view_pairs(), "CA"@) == Some("Canada"@),
{
    let mut e: Vec<(String, String)> = Vec::new();
    e.push(row("US", "United States"));
    e.push(row("CA", "Canada"));
    e.push(row("MX", "Mexico"));
    e.push(row("GB", "United Kingdom"));
    e.push(row("FR", "France"));
    e.push(row("DE", "Germany"));
    e.push(row("ES", "Spain"));
    e.push(row("IT", "Italy"));
    e.push(row("PT", "Portugal"));
    e.push(row("NL", "Netherlands"));
    e.push(row("BE", "Belgium"));
    e.push(row("CH", "Switzerland"));
    e.push(row("AT", "Austria"));
    e.push(row("SE", "Sweden"));
    e.push(row("NO", "Norway"));
    e.push(row("DK", "Denmark"));
    e.push(row("FI", "Finland"));
    e.push(row("IE", "Ireland"));
    e.push(row("PL", "Poland"));
    e.push(row("CZ", "Czechia"));
    e.push(row("RU", "Russia"));
    e.push(row("CN", "China"));
    e.push(row("JP", "Japan"));
    e.push(row("IN", "India"));
    e.push(row("BR", "Brazil"));
    e.push(row("AU", "Australia"));
    e.push(row("NZ", "New Zealand"));
    e.push(row("GE", "Georgia"));
    e.push(row("PA", "Panama"));
    e.push(row("PE", "Peru"));
    let r = CountriesMap { entries: e };
    proof {
        reveal_strlit("US");
        reveal_strlit("CA");
        assert(r.view_pairs()[0].0 == "US"@);
        assert(r.view_pairs()[1].0 == "CA"@);
        assert(r.view_pairs().skip(1)[0] == r.view_pairs()[1]);
        assert("US"@.len() == 2);
        assert("US"@[0] == 'U');
        assert("CA"@[0] == 'C');
        assert("US"@ != "CA"@);
        assert(lookup_first(r.view_pairs(), "US"@) is Some);
        assert(lookup_first(r.view_pairs().skip(1), "CA"@) is Some);
        assert(lookup_first(r.view_pairs(), "CA"@) == lookup_first(r.view_pairs().skip(1), "CA"@));
    }
    r
}

} // verus!

verus! {

// ---------------------------------------------------------------------------
// The country resolver
// ---------------------------------------------------------------------------

/// A possibly missing table, defaulted to empty.
pub open spec fn table_or_empty(t: Option<Seq<(Seq<char>, Seq<char>)>>) -> Seq<
    (Seq<char>, Seq<char>),
> {
    match t {
        Some(x) => x,
        None => Seq::empty(),
    }
}

/// A possibly missing grouped city table, defaulted to empty.
pub open spec fn groups_or_empty(t: Option<Seq<(Seq<char>, Seq<Seq<char>>)>>) -> Seq<
    (Seq<char>, Seq<Seq<char>>),
> {
    match t {
        Some(x) => x,
        None => Seq::empty(),
    }
}

/// The first lower-cased token that names a gazetteer country outright:
/// `usa` or `us` for the United States, `canada` for Canada.
pub open spec fn first_country_token(parts: Seq<Seq<char>>) -> Option<CountryV>
    decreases parts.len(),
{
    if parts.len() == 0 {
        None
    } else if parts[0] == "usa"@ || parts[0] == "us"@ {
        Some(united_states_v())
    } else if parts[0] == "canada"@ {
        Some(canada_v())
    } else {
        first_country_token(parts.skip(1))
    }
}

/// Some token, upper-cased, is a code of the given state table.
pub open spec fn token_matches_code(parts: Seq<Seq<char>>, states: Seq<(Seq<char>, Seq<char>)>)
    -> bool {
    exists|k: int, j: int|
        0 <= k < parts.len() && 0 <= j < states.len() && states[j].0 == crate::chars::upper_seq(
            parts[k],
        )
}

/// Some token equals a lower-cased name of the given state table.
pub open spec fn token_matches_name(parts: Seq<Seq<char>>, states: Seq<(Seq<char>, Seq<char>)>)
    -> bool {
    exists|k: int, j: int|
        0 <= k < parts.len() && 0 <= j < states.len() && crate::chars::lower_seq(states[j].1)
            == parts[k]
}

/// The city occurs in some state's list of the grouped table.
pub open spec fn city_in_groups(groups: Seq<(Seq<char>, Seq<Seq<char>>)>, city: Seq<char>) -> bool {
    exists|g: int, j: int|
        0 <= g < groups.len() && 0 <= j < groups[g].1.len() && groups[g].1[j] == city
}

/// Some California city occurs in the lower-cased text and is not also a
/// Canadian city.
pub open spec fn california_city_hit(
    lower: Seq<char>,
    calif: Seq<Seq<char>>,
    ca_groups: Seq<(Seq<char>, Seq<Seq<char>>)>,
) -> bool {
    exists|j: int|
        0 <= j < calif.len() && calif[j].len() > 0 && crate::chars::contains_sub(lower, calif[j])
            && !city_in_groups(ca_groups, calif[j])
}

/// A name is also a US or Canadian state name.
pub open spec fn name_is_state_name(gaz: crate::GazV, name: Seq<char>) -> bool {
    ||| crate::nodes::lookup_second(
        table_or_empty(crate::nodes::state::states_of_spec(gaz.states, "US"@)),
        name,
    ) is Some
    ||| crate::nodes::lookup_second(
        table_or_empty(crate::nodes::state::states_of_spec(gaz.states, "CA"@)),
        name,
    ) is Some
}

/// A code is also a US or Canadian state code.
pub open spec fn code_is_state_code(gaz: crate::GazV, code: Seq<char>) -> bool {
    ||| crate::nodes::lookup_first(
        table_or_empty(crate::nodes::state::states_of_spec(gaz.states, "US"@)),
        code,
    ) is Some
    ||| crate::nodes::lookup_first(
        table_or_empty(crate::nodes::state::states_of_spec(gaz.states, "CA"@)),
        code,
    ) is Some
}

/// The generic name fallback: the first country of the table whose
/// lower-cased name occurs in the lower-cased text, skipping countries whose
/// name is also a state name.
pub open spec fn fallback_by_name(
    gaz: crate::GazV,
    countries: Seq<(Seq<char>, Seq<char>)>,
    lower: Seq<char>,
) -> Option<CountryV>
    decreases countries.len(),
{
    if countries.len() == 0 {
        None
    } else if countries[0].1.len() > 0 && crate::chars::contains_sub(
        lower,
        crate::chars::lower_seq(countries[0].1),
    ) && !name_is_state_name(gaz, countries[0].1) {
        Some(CountryV { code: countries[0].0, name: countries[0].1 })
    } else {
        fallback_by_name(gaz, countries.skip(1), lower)
    }
}

/// The generic code fallback: the first country of the table whose code is a
/// case-sensitive token of the text, skipping countries whose code is also a
/// state code.
pub open spec fn fallback_by_code(
    gaz: crate::GazV,
    countries: Seq<(Seq<char>, Seq<char>)>,
    parts_cs: Seq<Seq<char>>,
) -> Option<CountryV>
    decreases countries.len(),
{
    if countries.len() == 0 {
        None
    } else if !code_is_state_code(gaz, countries[0].0) && parts_cs.contains(countries[0].0) {
        Some(CountryV { code: countries[0].0, name: countries[0].1 })
    } else {
        fallback_by_code(gaz, countries.skip(1), parts_cs)
    }
}

/// The literal scan and generic fallback: a literal `US` or `CA` in the
/// text, else the name fallback, else the code fallback.
pub open spec fn country_fallback_spec(gaz: crate::GazV, s: Seq<char>) -> Option<CountryV> {
    let lower = crate::chars::lower_seq(s);
    if crate::chars::contains_sub(s, "US"@) {
        Some(united_states_v())
    } else if crate::chars::contains_sub(s, "CA"@) {
        Some(canada_v())
    } else {
        match fallback_by_name(gaz, gaz.countries, lower) {
            Some(c) => Some(c),
            None => fallback_by_code(gaz, gaz.countries, crate::utils::tokens(s)),
        }
    }
}

/// What the country resolver returns for a remainder, in the fixed order:
/// a `usa`/`us`/`canada` token; the phrase `united states`; the `ca`
/// disambiguation (a Canadian state token means Canada, a Californian city
/// that is not also Canadian means the United States); a literal `US` or
/// `CA`; and last the generic gazetteer fallback by name then code.
pub open spec fn find_country_spec(gaz: crate::GazV, s: Seq<char>) -> Option<CountryV> {
    let lower = crate::chars::lower_seq(s);
    let parts = crate::utils::tokens(lower);
    let ca_states = table_or_empty(crate::nodes::state::states_of_spec(gaz.states, "CA"@));
    let ca_groups = groups_or_empty(
        crate::nodes::city::cities_table_spec(gaz.cities, "CA"@),
    );
    let us_groups = groups_or_empty(
        crate::nodes::city::cities_table_spec(gaz.cities, "US"@),
    );
    let calif = match crate::nodes::city::cities_of_spec(us_groups, "CA"@) {
        Some(v) => v,
        None => Seq::empty(),
    };
    match first_country_token(parts) {
        Some(c) => Some(c),
        None => {
            if crate::chars::contains_sub(lower, "united states"@) {
                Some(united_states_v())
            } else if parts.contains("ca"@) && (token_matches_code(parts, ca_states)
                || token_matches_name(parts, ca_states)) {
                Some(canada_v())
            } else if parts.contains("ca"@) && california_city_hit(lower, calif, ca_groups) {
                Some(united_states_v())
            } else {
                country_fallback_spec(gaz, s)
            }
        },
    }
}

} // verus!

verus! {

/// Executable scan for a token naming a gazetteer country outright.
fn first_country_token_exec(parts: &Vec<Vec<char>>) -> (r: Option<Country>)
    ensures
        match r {
            Some(c) => first_country_token(crate::chars::pieces_view(parts@)) == Some(c@),
            None => first_country_token(crate::chars::pieces_view(parts@)) is None,
        },
{
    let usa = chars_vec("usa");
    let us = chars_vec("us");
    let ca_word = chars_vec("canada");
    let mut i: usize = 0;
    let ghost pv = crate::chars::pieces_view(parts@);
    assert(pv.skip(0) =~= pv);
    while i < parts.len()
        invariant
            i <= parts@.len(),
            usa@ == "usa"@,
            us@ == "us"@,
            ca_word@ == "canada"@,
            pv == crate::chars::pieces_view(parts@),
            first_country_token(pv) == first_country_token(pv.skip(i as int)),
        decreases parts@.len() - i,
    {
        let ghost suf = pv.skip(i as int);
        assert(suf[0] == pv[i as int]);
        if crate::chars::eq_chars(&parts[i], &usa) || crate::chars::eq_chars(&parts[i], &us) {
            return Some(united_states());
        }
        if crate::chars::eq_chars(&parts[i], &ca_word) {
            return Some(canada());
        }
        assert(suf.skip(1) =~= pv.skip(i + 1));
        i = i + 1;
    }
    assert(pv.skip(i as int) =~= Seq::<Seq<char>>::empty());
    None
}

/// Executable check that some token, upper-cased, is a code of the table.
fn token_matches_code_exec(parts: &Vec<Vec<char>>, states: &StatesMap) -> (r: bool)
    ensures
        r == token_matches_code(crate::chars::pieces_view(parts@), states.view_pairs()),
{
    let ghost pv = crate::chars::pieces_view(parts@);
    let mut k: usize = 0;
    while k < parts.len()
        invariant
            k <= parts@.len(),
            pv == crate::chars::pieces_view(parts@),
            forall|k2: int, j: int|
                0 <= k2 < k && 0 <= j < states.view_pairs().len()
                    ==> states.view_pairs()[j].0 != crate::chars::upper_seq(pv[k2]),
        decreases parts@.len() - k,
    {
        let upper = crate::chars::to_upper_vec(&parts[k]);
        proof {
            crate::nodes::lemma_lookup_first_exists(states.view_pairs(), upper@);
        }
        match crate::nodes::lookup_by_first(&states.entries, &upper) {
            Some(_) => {
                assert(exists|j: int|
                    0 <= j < states.view_pairs().len() && states.view_pairs()[j].0
                        == crate::chars::upper_seq(pv[k as int]));
                return true;
            },
            None => {},
        }
        k = k + 1;
    }
    false
}

/// Executable check that some token equals a lower-cased state name.
fn token_matches_name_exec(parts: &Vec<Vec<char>>, states: &StatesMap) -> (r: bool)
    ensures
        r == token_matches_name(crate::chars::pieces_view(parts@), states.view_pairs()),
{
    let ghost pv = crate::chars::pieces_view(parts@);
    let mut k: usize = 0;
    while k < parts.len()
        invariant
            k <= parts@.len(),
            pv == crate::chars::pieces_view(parts@),
            forall|k2: int, j: int|
                0 <= k2 < k && 0 <= j < states.view_pairs().len() ==> crate::chars::lower_seq(
                    states.view_pairs()[j].1,
                ) != pv[k2],
        decreases parts@.len() - k,
    {
        let mut j: usize = 0;
        while j < states.entries.len()
            invariant
                k < parts@.len(),
                j <= states.entries@.len(),
                pv == crate::chars::pieces_view(parts@),
                forall|j2: int|
                    0 <= j2 < j ==> crate::chars::lower_seq(states.view_pairs()[j2].1) != pv[k as int],
            decreases states.entries@.len() - j,
        {
            let nv = chars_vec(states.entries[j].1.as_str());
            let low = crate::chars::to_lower_vec(&nv);
            assert(low@ == crate::chars::lower_seq(states.view_pairs()[j as int].1));
            if crate::chars::eq_chars(&low, &parts[k]) {
                assert(crate::chars::lower_seq(states.view_pairs()[j as int].1) == pv[k as int]);
                return true;
            }
            j = j + 1;
        }
        k = k + 1;
    }
    false
}

/// Executable check that a city occurs in some state list of a grouped
/// table.
fn city_in_groups_exec(groups: &Vec<(String, Vec<String>)>, city: &Vec<char>) -> (r: bool)
    ensures
        r == city_in_groups(crate::nodes::city::by_state_view(groups@), city@),
{
    let ghost gv = crate::nodes::city::by_state_view(groups@);
    let mut g: usize = 0;
    while g < groups.len()
        invariant
            g <= groups@.len(),
            gv == crate::nodes::city::by_state_view(groups@),
            forall|g2: int, j: int|
                0 <= g2 < g && 0 <= j < gv[g2].1.len() ==> gv[g2].1[j] != city@,
        decreases groups@.len() - g,
    {
        let names = &groups[g].1;
        assert(crate::chars::strings_view(names@) == gv[g as int].1);
        let mut j: usize = 0;
        while j < names.len()
            invariant
                g < groups@.len(),
                j <= names@.len(),
                gv == crate::nodes::city::by_state_view(groups@),
                crate::chars::strings_view(names@) == gv[g as int].1,
                forall|j2: int| 0 <= j2 < j ==> gv[g as int].1[j2] != city@,
            decreases names@.len() - j,
        {
            let nv = chars_vec(names[j].as_str());
            assert(nv@ == gv[g as int].1[j as int]);
            if crate::chars::eq_chars(&nv, city) {
                return true;
            }
            j = j + 1;
        }
        g = g + 1;
    }
    false
}

/// Executable check for a Californian city in the text that is not also a
/// Canadian city.
fn california_city_hit_exec(
    lower: &Vec<char>,
    calif: &Vec<String>,
    ca_map: &CitiesMap,
) -> (r: bool)
    ensures
        r == california_city_hit(
            lower@,
            crate::chars::strings_view(calif@),
            ca_map.view_groups(),
        ),
{
    let ghost cv = crate::chars::strings_view(calif@);
    let mut j: usize = 0;
    while j < calif.len()
        invariant
            j <= calif@.len(),
            cv == crate::chars::strings_view(calif@),
            forall|j2: int|
                0 <= j2 < j ==> !(cv[j2].len() > 0 && crate::chars::contains_sub(lower@, cv[j2])
                    && !city_in_groups(ca_map.view_groups(), cv[j2])),
        decreases calif@.len() - j,
    {
        let nv = chars_vec(calif[j].as_str());
        assert(nv@ == cv[j as int]);
        if nv.len() > 0 && crate::chars::contains_in(lower, &nv) && !city_in_groups_exec(
            &ca_map.cities_by_state,
            &nv,
        ) {
            return true;
        }
        j = j + 1;
    }
    false
}

} // verus!

verus! {

/// Executable check that a name is also a US or Canadian state name.
fn name_is_state_name_exec(p: &crate::Parser, name: &Vec<char>) -> (r: bool)
    ensures
        r == name_is_state_name(p.gaz(), name@),
{
    let mut hit = false;
    match crate::nodes::state::states_of(&p.states, "US") {
        Some(m) => {
            match crate::nodes::lookup_by_second(&m.entries, name) {
                Some(_) => {
                    hit = true;
                },
                None => {},
            }
        },
        None => {
            assert(table_or_empty(crate::nodes::state::states_of_spec(p.gaz().states, "US"@))
                =~= Seq::<(Seq<char>, Seq<char>)>::empty());
        },
    }
    if hit {
        return true;
    }
    match crate::nodes::state::states_of(&p.states, "CA") {
        Some(m) => {
            match crate::nodes::lookup_by_second(&m.entries, name) {
                Some(_) => {
                    hit = true;
                },
                None => {},
            }
        },
        None => {
            assert(table_or_empty(crate::nodes::state::states_of_spec(p.gaz().states, "CA"@))
                =~= Seq::<(Seq<char>, Seq<char>)>::empty());
        },
    }
    hit
}

/// Executable check that a code is also a US or Canadian state code.
fn code_is_state_code_exec(p: &crate::Parser, code: &Vec<char>) -> (r: bool)
    ensures
        r == code_is_state_code(p.gaz(), code@),
{
    let mut hit = false;
    match crate::nodes::state::states_of(&p.states, "US") {
        Some(m) => {
            match crate::nodes::lookup_by_first(&m.entries, code) {
                Some(_) => {
                    hit = true;
                },
                None => {},
            }
        },
        None => {
            assert(table_or_empty(crate::nodes::state::states_of_spec(p.gaz().states, "US"@))
                =~= Seq::<(Seq<char>, Seq<char>)>::empty());
        },
    }
    if hit {
        return true;
    }
    match crate::nodes::state::states_of(&p.states, "CA") {
        Some(m) => {
            match crate::nodes::lookup_by_first(&m.entries, code) {
                Some(_) => {
                    hit = true;
                },
                None => {},
            }
        },
        None => {
            assert(table_or_empty(crate::nodes::state::states_of_spec(p.gaz().states, "CA"@))
                =~= Seq::<(Seq<char>, Seq<char>)>::empty());
        },
    }
    hit
}

/// Executable generic fallback by country name, mirroring
/// [`fallback_by_name`].
fn fallback_by_name_exec(p: &crate::Parser, lower: &Vec<char>) -> (r: Option<Country>)
    ensures
        match r {
            Some(c) => fallback_by_name(p.gaz(), p.gaz().countries, lower@) == Some(c@),
            None => fallback_by_name(p.gaz(), p.gaz().countries, lower@) is None,
        },
{
    let ghost cv = p.gaz().countries;
    let mut i: usize = 0;
    assert(cv.skip(0) =~= cv);
    while i < p.countries.entries.len()
        invariant
            i <= p.countries.entries@.len(),
            cv == p.gaz().countries,
            fallback_by_name(p.gaz(), cv, lower@) == fallback_by_name(
                p.gaz(),
                cv.skip(i as int),
                lower@,
            ),
        decreases p.countries.entries@.len() - i,
    {
        let ghost suf = cv.skip(i as int);
        assert(suf[0] == cv[i as int]);
        let nv = chars_vec(p.countries.entries[i].1.as_str());
        let low = crate::chars::to_lower_vec(&nv);
        if nv.len() > 0 && crate::chars::contains_in(lower, &low) && !name_is_state_name_exec(
            p,
            &nv,
        ) {
            let code = p.countries.entries[i].0.clone();
            let name = p.countries.entries[i].1.clone();
            return Some(Country { code, name });
        }
        assert(suf.skip(1) =~= cv.skip(i + 1));
        i = i + 1;
    }
    assert(cv.skip(i as int) =~= Seq::<(Seq<char>, Seq<char>)>::empty());
    None
}

/// Executable generic fallback by country code, mirroring
/// [`fallback_by_code`].
fn fallback_by_code_exec(p: &crate::Parser, parts_cs: &Vec<Vec<char>>) -> (r: Option<Country>)
    ensures
        match r {
            Some(c) => fallback_by_code(
                p.gaz(),
                p.gaz().countries,
                crate::chars::pieces_view(parts_cs@),
            ) == Some(c@),
            None => fallback_by_code(
                p.gaz(),
                p.gaz().countries,
                crate::chars::pieces_view(parts_cs@),
            ) is None,
        },
{
    let ghost cv = p.gaz().countries;
    let ghost pv = crate::chars::pieces_view(parts_cs@);
    let mut i: usize = 0;
    assert(cv.skip(0) =~= cv);
    while i < p.countries.entries.len()
        invariant
            i <= p.countries.entries@.len(),
            cv == p.gaz().countries,
            pv == crate::chars::pieces_view(parts_cs@),
            fallback_by_code(p.gaz(), cv, pv) == fallback_by_code(
                p.gaz(),
                cv.skip(i as int),
                pv,
            ),
        decreases p.countries.entries@.len() - i,
    {
        let ghost suf = cv.skip(i as int);
        assert(suf[0] == cv[i as int]);
        let code_v = chars_vec(p.countries.entries[i].0.as_str());
        if !code_is_state_code_exec(p, &code_v) && crate::chars::pieces_contain(
            parts_cs,
            &code_v,
        ) {
            let code = p.countries.entries[i].0.clone();
            let name = p.countries.entries[i].1.clone();
            return Some(Country { code, name });
        }
        assert(suf.skip(1) =~= cv.skip(i + 1));
        i = i + 1;
    }
    assert(cv.skip(i as int) =~= Seq::<(Seq<char>, Seq<char>)>::empty());
    None
}

impl crate::Parser {
    /// Resolve a country from the remainder: a `usa`, `us` or `canada`
    /// token; the phrase `united states`; the `ca` disambiguation against
    /// Canadian state codes and names and Californian cities; a literal `US`
    /// or `CA`; and last the generic gazetteer fallback by name, then code,
    /// excluding countries that collide with a US or Canadian state.
    pub fn find_country(&self, input: &str) -> (r: Option<Country>)
        ensures
            match r {
                Some(c) => find_country_spec(self.gaz(), input@) == Some(c@),
                None => find_country_spec(self.gaz(), input@) is None,
            },
    {
        proof {
            reveal_strlit("united states");
            reveal_strlit("US");
            reveal_strlit("CA");
        }
        let v = chars_vec(input);
        let lower = crate::chars::to_lower_vec(&v);
        let parts = crate::chars::split_class_vec(crate::chars::CharClass::Word, &lower);
        assert(crate::chars::pieces_view(parts@) == crate::utils::tokens(
            crate::chars::lower_seq(input@),
        ));
        match first_country_token_exec(&parts) {
            Some(c) => {
                return Some(c);
            },
            None => {},
        }
        let phrase = chars_vec("united states");
        if crate::chars::contains_in(&lower, &phrase) {
            return Some(united_states());
        }
        let ca_tok = chars_vec("ca");
        if crate::chars::pieces_contain(&parts, &ca_tok) {
            let ghost ca_states_v = table_or_empty(
                crate::nodes::state::states_of_spec(self.gaz().states, "CA"@),
            );
            let mut ca_hit = false;
            match crate::nodes::state::states_of(&self.states, "CA") {
                Some(m) => {
                    if token_matches_code_exec(&parts, m) || token_matches_name_exec(&parts, m) {
                        ca_hit = true;
                    }
                },
                None => {
                    assert(ca_states_v =~= Seq::<(Seq<char>, Seq<char>)>::empty());
                    assert(!token_matches_code(crate::chars::pieces_view(parts@), ca_states_v));
                    assert(!token_matches_name(crate::chars::pieces_view(parts@), ca_states_v));
                },
            }
            if ca_hit {
                return Some(canada());
            }
            let ghost ca_groups_v = groups_or_empty(
                crate::nodes::city::cities_table_spec(self.gaz().cities, "CA"@),
            );
            let ghost us_groups_v = groups_or_empty(
                crate::nodes::city::cities_table_spec(self.gaz().cities, "US"@),
            );
            let ghost calif_v = match crate::nodes::city::cities_of_spec(us_groups_v, "CA"@) {
                Some(x) => x,
                None => Seq::empty(),
            };
            let mut calif_hit = false;
            match crate::nodes::city::cities_of_country(&self.cities, "US") {
                Some(us_map) => {
                    let key = chars_vec("CA");
                    match us_map.cities_of(&key) {
                        Some(calif) => {
                            match crate::nodes::city::cities_of_country(&self.cities, "CA") {
                                Some(ca_map) => {
                                    if california_city_hit_exec(&lower, calif, ca_map) {
                                        calif_hit = true;
                                    }
                                },
                                None => {
                                    assert(ca_groups_v =~= Seq::<
                                        (Seq<char>, Seq<Seq<char>>),
                                    >::empty());
                                    let empty_map = CitiesMap {
                                        cities_by_state: Vec::new(),
                                        state_of_city: Vec::new(),
                                    };
                                    if california_city_hit_exec(&lower, calif, &empty_map) {
                                        calif_hit = true;
                                    }
                                    assert(empty_map.view_groups() =~= ca_groups_v);
                                },
                            }
                        },
                        None => {
                            assert(calif_v =~= Seq::<Seq<char>>::empty());
                            assert(!california_city_hit(lower@, calif_v, ca_groups_v));
                        },
                    }
                },
                None => {
                    assert(us_groups_v =~= Seq::<(Seq<char>, Seq<Seq<char>>)>::empty());
                    assert(calif_v =~= Seq::<Seq<char>>::empty());
                    assert(!california_city_hit(lower@, calif_v, ca_groups_v));
                },
            }
            if calif_hit {
                return Some(united_states());
            }
        }
        let lit_us = chars_vec("US");
        if crate::chars::contains_in(&v, &lit_us) {
            return Some(united_states());
        }
        let lit_ca = chars_vec("CA");
        if crate::chars::contains_in(&v, &lit_ca) {
            return Some(canada());
        }
        match fallback_by_name_exec(self, &lower) {
            Some(c) => {
                return Some(c);
            },
            None => {},
        }
        let parts_cs = crate::chars::split_class_vec(crate::chars::CharClass::Word, &v);
        assert(crate::chars::pieces_view(parts_cs@) == crate::utils::tokens(input@));
        fallback_by_code_exec(self, &parts_cs)
    }
}

} // verus!

verus! {

/// What the country stage does to a location: on empty input or an already
/// known country nothing; otherwise it records what the resolver found.
pub open spec fn fill_country_spec(
    gaz: crate::GazV,
    l: crate::nodes::location::LocationV,
    s: Seq<char>,
) -> crate::nodes::location::LocationV {
    if s.len() == 0 || l.country is Some {
        l
    } else {
        crate::nodes::location::LocationV { country: find_country_spec(gaz, s), ..l }
    }
}

/// One case-insensitive removal: the first occurrence of `pat` in the
/// lower-cased text, removed from the unlowered text at the same span.
pub open spec fn remove_ci(s: Seq<char>, pat: Seq<char>) -> Seq<char> {
    if pat.len() == 0 {
        s
    } else {
        match crate::chars::find_sub(crate::chars::lower_seq(s), pat) {
            Some(p) => s.take(p) + s.skip(p + pat.len()),
            None => s,
        }
    }
}

/// One case-sensitive removal: every occurrence of `pat` deleted.
pub open spec fn remove_cs(s: Seq<char>, pat: Seq<char>) -> Seq<char> {
    if pat.len() == 0 {
        s
    } else {
        crate::chars::replace_seq(s, pat, Seq::empty())
    }
}

/// What removing a country from a remainder yields: for the United States
/// the phrases `united states of america` and `united states` go first, then
/// the literal tokens `USA` and `US`; for Canada the phrase `canada`, then
/// the literal `CA`; for any other country its lower-cased name, then its
/// code. The normalizer runs afterwards.
pub open spec fn remove_country_spec(s: Seq<char>, c: CountryV) -> Seq<char> {
    let a = if c.code == "US"@ {
        remove_ci(remove_ci(s, "united states of america"@), "united states"@)
    } else if c.code == "CA"@ {
        remove_ci(s, "canada"@)
    } else {
        remove_ci(s, crate::chars::lower_seq(c.name))
    };
    let b = if c.code == "US"@ {
        remove_cs(remove_cs(a, "USA"@), "US"@)
    } else if c.code == "CA"@ {
        remove_cs(a, "CA"@)
    } else {
        remove_cs(a, c.code)
    };
    crate::utils::clean_spec(b)
}

/// Executable case-insensitive removal, mirroring [`remove_ci`].
fn remove_ci_exec(v: &Vec<char>, pat: &Vec<char>) -> (r: Vec<char>)
    ensures
        r@ == remove_ci(v@, pat@),
{
    if pat.len() == 0 {
        return crate::chars::sub_vec(v, 0, v.len());
    }
    let lower = crate::chars::to_lower_vec(v);
    match crate::chars::find_in(&lower, pat) {
        Some(p) => {
            proof {
                crate::chars::lemma_find_from_props(lower@, pat@, 0);
            }
            let n = v.len();
            assert(p + pat@.len() <= n);
            let mut r = crate::chars::sub_vec(v, 0, p);
            let tail = crate::chars::sub_vec(v, p + pat.len(), n);
            crate::chars::extend_chars(&mut r, &tail);
            assert(r@ =~= v@.take(p as int) + v@.skip(p + pat@.len()));
            r
        },
        None => crate::chars::sub_vec(v, 0, v.len()),
    }
}

/// Executable case-sensitive removal, mirroring [`remove_cs`].
fn remove_cs_exec(v: &Vec<char>, pat: &Vec<char>) -> (r: Vec<char>)
    ensures
        r@ == remove_cs(v@, pat@),
{
    if pat.len() == 0 {
        return crate::chars::sub_vec(v, 0, v.len());
    }
    let empty: Vec<char> = Vec::new();
    crate::chars::replace_in(v, pat, &empty)
}

impl crate::Parser {
    /// Record the resolved country when none is known yet.
    pub fn fill_country(&self, location: &mut crate::nodes::Location, input: &str)
        ensures
            final(location)@ == fill_country_spec(self.gaz(), old(location)@, input@),
    {
        let v = chars_vec(input);
        if v.len() == 0 {
            return;
        }
        if location.country.is_some() {
            return;
        }
        location.country = self.find_country(input);
    }

    /// Remove the resolved country's phrases and tokens from the remainder
    /// and re-run the normalizer.
    pub fn remove_country(&self, country: &Country, input: &mut String)
        ensures
            final(input)@ == remove_country_spec(old(input)@, country@),
    {
        proof {
            reveal_strlit("US");
            reveal_strlit("CA");
            reveal_strlit("united states of america");
            reveal_strlit("united states");
            reveal_strlit("canada");
            reveal_strlit("USA");
        }
        let v = chars_vec(input.as_str());
        let code_v = chars_vec(country.code.as_str());
        let us_code = chars_vec("US");
        let ca_code = chars_vec("CA");
        let a = if crate::chars::eq_chars(&code_v, &us_code) {
            let p1 = chars_vec("united states of america");
            let p2 = chars_vec("united states");
            remove_ci_exec(&remove_ci_exec(&v, &p1), &p2)
        } else if crate::chars::eq_chars(&code_v, &ca_code) {
            let p1 = chars_vec("canada");
            remove_ci_exec(&v, &p1)
        } else {
            let nv = chars_vec(country.name.as_str());
            let low = crate::chars::to_lower_vec(&nv);
            remove_ci_exec(&v, &low)
        };
        let b = if crate::chars::eq_chars(&code_v, &us_code) {
            let p1 = chars_vec("USA");
            let p2 = chars_vec("US");
            remove_cs_exec(&remove_cs_exec(&a, &p1), &p2)
        } else if crate::chars::eq_chars(&code_v, &ca_code) {
            let p1 = chars_vec("CA");
            remove_cs_exec(&a, &p1)
        } else {
            remove_cs_exec(&a, &code_v)
        };
        *input = string_of(&b);
        crate::utils::clean(input);
    }
}

} // verus!
