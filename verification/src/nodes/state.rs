//! States and provinces and the per-country state reference tables.

use vstd::prelude::*;

use crate::chars::{chars_vec, trim_spaces, trim_str};
use crate::nodes::{lookup_first, lookup_second, pairs_view};

verus! {

broadcast use vstd::string::group_string_axioms;

/// A state or province: a two-letter code and a display name, scoped to one
/// country of the gazetteer.
#[derive(Debug, Clone)]
pub struct State {
    pub name: String,
    pub code: String,
}

/// The mathematical value of a [`State`].
pub struct StateV {
    pub name: Seq<char>,
    pub code: Seq<char>,
}

impl View for State {
    type V = StateV;

    open spec fn view(&self) -> StateV {
        StateV { name: self.name@, code: self.code@ }
    }
}

impl PartialEq for State {
    /// States are equal when both code and name agree.
    fn eq(&self, other: &State) -> (r: bool) {
        self.name == other.name && self.code == other.code
    }
}

impl vstd::std_specs::cmp::PartialEqSpecImpl for State {
    open spec fn obeys_eq_spec() -> bool {
        true
    }

    open spec fn eq_spec(&self, other: &State) -> bool {
        self.name@ == other.name@ && self.code@ == other.code@
    }
}

impl State {
    /// An independent copy.
    pub fn duplicate(&self) -> (r: State)
        ensures
            r@ == self@,
    {
        State { name: self.name.clone(), code: self.code.clone() }
    }

    /// The display form of a state: its code, whitespace-trimmed.
    pub fn to_string(&self) -> (r: String)
        ensures
            r@ == trim_spaces(self.code@),
    {
        trim_str(&self.code)
    }
}

/// The bidirectional state reference table of one country: (code, name)
/// pairs. The first matching entry wins.
#[derive(Debug)]
pub struct StatesMap {
    pub entries: Vec<(String, String)>,
}

impl StatesMap {
    /// The table as a sequence of (code, name) character pairs.
    pub open spec fn view_pairs(&self) -> Seq<(Seq<char>, Seq<char>)> {
        pairs_view(self.entries@)
    }

    /// The name recorded for a code.
    pub fn name_of_code(&self, code: &str) -> (r: Option<String>)
        ensures
            match r {
                Some(v) => lookup_first(self.view_pairs(), code@) == Some(v@),
                None => lookup_first(self.view_pairs(), code@) is None,
            },
    {
        let key = chars_vec(code);
        crate::nodes::lookup_by_first(&self.entries, &key)
    }

    /// The code recorded for a name.
    pub fn code_of_name(&self, name: &str) -> (r: Option<String>)
        ensures
            match r {
                Some(v) => lookup_second(self.view_pairs(), name@) == Some(v@),
                None => lookup_second(self.view_pairs(), name@) is None,
            },
    {
        let key = chars_vec(name);
        crate::nodes::lookup_by_second(&self.entries, &key)
    }
}

/// The per-country state tables, keyed by country code.
pub type CountryStates = Vec<(String, StatesMap)>;

/// The views of the per-country state tables.
pub open spec fn country_states_view(cs: Seq<(String, StatesMap)>) -> Seq<
    (Seq<char>, Seq<(Seq<char>, Seq<char>)>),
> {
    Seq::new(cs.len(), |i: int| (cs[i].0@, pairs_view(cs[i].1.entries@)))
}

/// The state table of one country, by country code; first match wins.
pub open spec fn states_of_spec(
    cs: Seq<(Seq<char>, Seq<(Seq<char>, Seq<char>)>)>,
    code: Seq<char>,
) -> Option<Seq<(Seq<char>, Seq<char>)>>
    decreases cs.len(),
{
    if cs.len() == 0 {
        None
    } else if cs[0].0 == code {
        Some(cs[0].1)
    } else {
        states_of_spec(cs.skip(1), code)
    }
}

/// Executable per-country table lookup, mirroring [`states_of_spec`].
pub fn states_of<'a>(cs: &'a CountryStates, code: &str) -> (r: Option<&'a StatesMap>)
    ensures
        match r {
            Some(m) => states_of_spec(country_states_view(cs@), code@) == Some(m.view_pairs()),
            None => states_of_spec(country_states_view(cs@), code@) is None,
        },
{
    let key = chars_vec(code);
    let mut i: usize = 0;
    assert(country_states_view(cs@).skip(0) =~= country_states_view(cs@));
    while i < cs.len()
        invariant
            i <= cs@.len(),
            key@ == code@,
            states_of_spec(country_states_view(cs@), code@) == states_of_spec(
                country_states_view(cs@).skip(i as int),
                code@,
            ),
        decreases cs@.len() - i,
    {
        let ghost suf = country_states_view(cs@).skip(i as int);
        assert(suf[0] == country_states_view(cs@)[i as int]);
        assert(suf[0].0 == cs@[i as int].0@);
        assert(suf[0].1 == pairs_view(cs@[i as int].1.entries@));
        let ck = chars_vec(cs[i].0.as_str());
        assert(ck@ == cs@[i as int].0@);
        if crate::chars::eq_chars(&ck, &key) {
            assert(suf[0].0 == code@);
            assert(states_of_spec(suf, code@) == Some(suf[0].1));
            return Some(&cs[i].1);
        }
        assert(suf[0].0 != code@);
        assert(states_of_spec(suf, code@) == states_of_spec(suf.skip(1), code@));
        assert(suf.skip(1) =~= country_states_view(cs@).skip(i + 1));
        i = i + 1;
    }
    assert(country_states_view(cs@).skip(i as int) =~= Seq::<
        (Seq<char>, Seq<(Seq<char>, Seq<char>)>),
    >::empty());
    None
}

/// One (code, name) row of the built-in tables.
fn row(code: &str, name: &str) -> (r: (String, String))
    ensures
        r.0@ == code@,
        r.1@ == name@,
{
    (code.to_owned(), name.to_owned())
}

/// The built-in state and province tables for the United States and Canada.
pub fn read_states() -> (r: CountryStates)
    ensures
        states_of_spec(country_states_view(r@), "US"@) is Some,
        states_of_spec(country_states_view(r@), "CA"@) is Some,
{
    let mut us: Vec<(String, String)> = Vec::new();
    us.push(row("AL", "Alabama"));
    us.push(row("AK", "Alaska"));
    us.push(row("AZ", "Arizona"));
    us.push(row("AR", "Arkansas"));
    us.push(row("CA", "California"));
    us.push(row("CO", "Colorado"));
    us.push(row("CT", "Connecticut"));
    us.push(row("DE", "Delaware"));
    us.push(row("FL", "Florida"));
    us.push(row("GA", "Georgia"));
    us.push(row("HI", "Hawaii"));
    us.push(row("ID", "Idaho"));
    us.push(row("IL", "Illinois"));
    us.push(row("IN", "Indiana"));
    us.push(row("IA", "Iowa"));
    us.push(row("KS", "Kansas"));
    us.push(row("KY", "Kentucky"));
    us.push(row("LA", "Louisiana"));
    us.push(row("ME", "Maine"));
    us.push(row("MD", "Maryland"));
    us.push(row("MA", "Massachusetts"));
    us.push(row("MI", "Michigan"));
    us.push(row("MN", "Minnesota"));
    us.push(row("MS", "Mississippi"));
    us.push(row("MO", "Missouri"));
    us.push(row("MT", "Montana"));
    us.push(row("NE", "Nebraska"));
    us.push(row("NV", "Nevada"));
    us.push(row("NH", "New Hampshire"));
    us.push(row("NJ", "New Jersey"));
    us.push(row("NM", "New Mexico"));
    us.push(row("NY", "New York"));
    us.push(row("NC", "North Carolina"));
    us.push(row("ND", "North Dakota"));
    us.push(row("OH", "Ohio"));
    us.push(row("OK", "Oklahoma"));
    us.push(row("OR", "Oregon"));
    us.push(row("PA", "Pennsylvania"));
    us.push(row("RI", "Rhode Island"));
    us.push(row("SC", "South Carolina"));
    us.push(row("SD", "South Dakota"));
    us.push(row("TN", "Tennessee"));
    us.push(row("TX", "Texas"));
    us.push(row("UT", "Utah"));
    us.push(row("VT", "Vermont"));
    us.push(row("VA", "Virginia"));
    us.push(row("WA", "Washington"));
    us.push(row("WV", "West Virginia"));
    us.push(row("WI", "Wisconsin"));
    us.push(row("WY", "Wyoming"));
    us.push(row("DC", "District of Columbia"));
    us.push(row("PR", "Puerto Rico"));
    let mut ca: Vec<(String, String)> = Vec::new();
    ca.push(row("AB", "Alberta"));
    ca.push(row("BC", "British Columbia"));
    ca.push(row("MB", "Manitoba"));
    ca.push(row("NB", "New Brunswick"));
    ca.push(row("NL", "Newfoundland and Labrador"));
    ca.push(row("NS", "Nova Scotia"));
    ca.push(row("NT", "Northwest Territories"));
    ca.push(row("NU", "Nunavut"));
    ca.push(row("ON", "Ontario"));
    ca.push(row("PE", "Prince Edward Island"));
    ca.push(row("QC", "Quebec"));
    ca.push(row("SK", "Saskatchewan"));
    ca.push(row("YT", "Yukon"));
    let mut r: CountryStates = Vec::new();
    r.push(("US".to_owned(), StatesMap { entries: us }));
    r.push(("CA".to_owned(), StatesMap { entries: ca }));
    proof {
        reveal_strlit("US");
        reveal_strlit("CA");
        assert(country_states_view(r@)[0].0 == "US"@);
        assert(country_states_view(r@)[1].0 == "CA"@);
        assert(country_states_view(r@).skip(1)[0] == country_states_view(r@)[1]);
        assert("US"@[0] == 'U');
        assert("CA"@[0] == 'C');
        assert("US"@ != "CA"@);
        assert(states_of_spec(country_states_view(r@), "US"@) is Some);
        assert(states_of_spec(country_states_view(r@).skip(1), "CA"@) is Some);
        assert(states_of_spec(country_states_view(r@), "CA"@) == states_of_spec(
            country_states_view(r@).skip(1),
            "CA"@,
        ));
    }
    r
}

} // verus!

verus! {

// ---------------------------------------------------------------------------
// The state resolver
// ---------------------------------------------------------------------------

use crate::nodes::country::{canada_v, table_or_empty, united_states_v, Country, CountryV};

/// The views of a list of (state, country) candidate pairs.
pub open spec fn cands_view(v: Seq<(State, Country)>) -> Seq<(StateV, CountryV)> {
    Seq::new(v.len(), |i: int| (v[i].0@, v[i].1@))
}

/// The Washington D.C. special case: text naming the district short-circuits
/// to DC with the United States implied.
pub open spec fn special_case_state_spec(s: Seq<char>) -> Option<(StateV, CountryV)> {
    let lower = crate::chars::lower_seq(s);
    if crate::chars::contains_sub(lower, "district of columbia"@) || crate::chars::contains_sub(
        lower,
        "d.c."@,
    ) || crate::chars::contains_sub(lower, " d, c"@) {
        Some((StateV { code: "DC"@, name: "District Of Columbia"@ }, united_states_v()))
    } else {
        None
    }
}

/// The first table entry whose lower-cased name occurs in the lower-cased
/// text.
pub open spec fn first_name_match(entries: Seq<(Seq<char>, Seq<char>)>, lower: Seq<char>)
    -> Option<(Seq<char>, Seq<char>)>
    decreases entries.len(),
{
    if entries.len() == 0 {
        None
    } else if entries[0].1.len() > 0 && crate::chars::contains_sub(
        lower,
        crate::chars::lower_seq(entries[0].1),
    ) {
        Some(entries[0])
    } else {
        first_name_match(entries.skip(1), lower)
    }
}

/// The full-name pass over the candidate countries in order: the first state
/// whose full name occurs in the text, together with the country it implies.
pub open spec fn state_name_pass(
    gaz: crate::GazV,
    countries: Seq<CountryV>,
    lower: Seq<char>,
) -> Option<(StateV, CountryV)>
    decreases countries.len(),
{
    if countries.len() == 0 {
        None
    } else {
        let entries = table_or_empty(states_of_spec(gaz.states, countries[0].code));
        match first_name_match(entries, lower) {
            Some(e) => Some((StateV { code: e.0, name: e.1 }, countries[0])),
            None => state_name_pass(gaz, countries.skip(1), lower),
        }
    }
}

/// One candidate per token equal to the given state code, in token order.
pub open spec fn cands_for_parts(
    sv: StateV,
    cv: CountryV,
    code: Seq<char>,
    parts: Seq<Seq<char>>,
) -> Seq<(StateV, CountryV)>
    decreases parts.len(),
{
    if parts.len() == 0 {
        Seq::empty()
    } else if parts[0] == code {
        seq![(sv, cv)] + cands_for_parts(sv, cv, code, parts.skip(1))
    } else {
        cands_for_parts(sv, cv, code, parts.skip(1))
    }
}

/// Each listed word occurs, lower-cased, among the lower-cased tokens.
pub open spec fn words_all_in(ws: Seq<Seq<char>>, parts_lower: Seq<Seq<char>>) -> bool
    decreases ws.len(),
{
    ws.len() == 0 || (parts_lower.contains(crate::chars::lower_seq(ws[0])) && words_all_in(
        ws.skip(1),
        parts_lower,
    ))
}

/// Every whitespace-separated word of the name occurs, lower-cased, among
/// the lower-cased tokens.
pub open spec fn name_words_in(name: Seq<char>, parts_lower: Seq<Seq<char>>) -> bool {
    words_all_in(
        crate::chars::split_class(crate::chars::CharClass::NonSpace, name),
        parts_lower,
    )
}

/// The candidates one table entry contributes: one per code token, then one
/// more when all words of the name appear among the tokens.
pub open spec fn entry_cands(
    e: (Seq<char>, Seq<char>),
    c: CountryV,
    parts: Seq<Seq<char>>,
    parts_lower: Seq<Seq<char>>,
) -> Seq<(StateV, CountryV)> {
    cands_for_parts(StateV { code: e.0, name: e.1 }, c, e.0, parts) + (if name_words_in(
        e.1,
        parts_lower,
    ) {
        seq![(StateV { code: e.0, name: e.1 }, c)]
    } else {
        Seq::empty()
    })
}

/// The candidates one country's table contributes, entry by entry.
pub open spec fn table_cands(
    entries: Seq<(Seq<char>, Seq<char>)>,
    c: CountryV,
    parts: Seq<Seq<char>>,
    parts_lower: Seq<Seq<char>>,
) -> Seq<(StateV, CountryV)>
    decreases entries.len(),
{
    if entries.len() == 0 {
        Seq::empty()
    } else {
        entry_cands(entries[0], c, parts, parts_lower) + table_cands(
            entries.skip(1),
            c,
            parts,
            parts_lower,
        )
    }
}

/// All token and name-word candidates over the candidate countries in order.
pub open spec fn all_cands(
    gaz: crate::GazV,
    countries: Seq<CountryV>,
    parts: Seq<Seq<char>>,
    parts_lower: Seq<Seq<char>>,
) -> Seq<(StateV, CountryV)>
    decreases countries.len(),
{
    if countries.len() == 0 {
        Seq::empty()
    } else {
        table_cands(
            table_or_empty(states_of_spec(gaz.states, countries[0].code)),
            countries[0],
            parts,
            parts_lower,
        ) + all_cands(gaz, countries.skip(1), parts, parts_lower)
    }
}

/// The candidates whose state code is not also a country code of the
/// gazetteer's country table.
pub open spec fn keep_non_country(
    cands: Seq<(StateV, CountryV)>,
    countries: Seq<(Seq<char>, Seq<char>)>,
) -> Seq<(StateV, CountryV)>
    decreases cands.len(),
{
    if cands.len() == 0 {
        Seq::empty()
    } else if crate::nodes::lookup_first(countries, cands[0].0.code) is None {
        seq![cands[0]] + keep_non_country(cands.skip(1), countries)
    } else {
        keep_non_country(cands.skip(1), countries)
    }
}

/// What the state resolver returns for a remainder and a possibly known
/// country: the D.C. special case first; then the first full state name in
/// the text; then the code-token and name-word candidates, accepted when
/// exactly one remains, with candidates that look like a country code
/// discarded when several compete. Ambiguity leaves the state unresolved.
pub open spec fn find_state_spec(
    gaz: crate::GazV,
    s: Seq<char>,
    country: Option<CountryV>,
) -> Option<(StateV, CountryV)> {
    if s.len() == 0 {
        None
    } else {
        match special_case_state_spec(s) {
            Some(x) => Some(x),
            None => {
                let lower = crate::chars::lower_seq(s);
                let parts = crate::chars::dedup_adjacent(crate::utils::tokens(s));
                let parts_lower = crate::chars::dedup_adjacent(crate::utils::tokens(lower));
                let countries = crate::utils::candidate_countries(country);
                match state_name_pass(gaz, countries, lower) {
                    Some(x) => Some(x),
                    None => {
                        let cands = all_cands(gaz, countries, parts, parts_lower);
                        if cands.len() == 0 {
                            None
                        } else if cands.len() == 1 {
                            Some(cands[0])
                        } else {
                            let kept = keep_non_country(cands, gaz.countries);
                            if kept.len() == 1 {
                                Some(kept[0])
                            } else {
                                None
                            }
                        }
                    },
                }
            },
        }
    }
}

} // verus!

verus! {

/// Executable candidate collection for one code over the tokens.
fn cands_for_parts_exec(
    sv: &State,
    cv: &Country,
    code: &Vec<char>,
    parts: &Vec<Vec<char>>,
) -> (r: Vec<(State, Country)>)
    ensures
        cands_view(r@) == cands_for_parts(sv@, cv@, code@, crate::chars::pieces_view(parts@)),
{
    let ghost pv = crate::chars::pieces_view(parts@);
    let mut r: Vec<(State, Country)> = Vec::new();
    let mut k: usize = 0;
    assert(pv.skip(0) =~= pv);
    assert(cands_view(r@) + cands_for_parts(sv@, cv@, code@, pv) =~= cands_for_parts(
        sv@,
        cv@,
        code@,
        pv,
    ));
    while k < parts.len()
        invariant
            k <= parts@.len(),
            pv == crate::chars::pieces_view(parts@),
            cands_view(r@) + cands_for_parts(sv@, cv@, code@, pv.skip(k as int))
                == cands_for_parts(sv@, cv@, code@, pv),
        decreases parts@.len() - k,
    {
        let ghost pre = cands_view(r@);
        let ghost suf = pv.skip(k as int);
        assert(suf[0] == pv[k as int]);
        assert(suf.skip(1) =~= pv.skip(k + 1));
        if crate::chars::eq_chars(&parts[k], code) {
            r.push((sv.duplicate(), cv.duplicate()));
            assert(cands_view(r@) =~= pre + seq![(sv@, cv@)]);
            assert(pre + (seq![(sv@, cv@)] + cands_for_parts(sv@, cv@, code@, suf.skip(1))) =~= pre
                + seq![(sv@, cv@)] + cands_for_parts(sv@, cv@, code@, suf.skip(1)));
        }
        k = k + 1;
    }
    assert(pv.skip(k as int) =~= Seq::<Seq<char>>::empty());
    assert(cands_view(r@) + cands_for_parts(sv@, cv@, code@, Seq::empty()) =~= cands_view(r@));
    r
}

/// Executable check that all words of a name occur among the tokens.
fn name_words_in_exec(name: &Vec<char>, parts_lower: &Vec<Vec<char>>) -> (r: bool)
    ensures
        r == name_words_in(name@, crate::chars::pieces_view(parts_lower@)),
{
    let words = crate::chars::split_class_vec(crate::chars::CharClass::NonSpace, name);
    let ghost wv = crate::chars::split_class(crate::chars::CharClass::NonSpace, name@);
    assert(crate::chars::pieces_view(words@) == wv);
    let ghost plv = crate::chars::pieces_view(parts_lower@);
    let mut k: usize = 0;
    assert(wv.skip(0) =~= wv);
    while k < words.len()
        invariant
            k <= words@.len(),
            crate::chars::pieces_view(words@) == wv,
            wv == crate::chars::split_class(crate::chars::CharClass::NonSpace, name@),
            plv == crate::chars::pieces_view(parts_lower@),
            words_all_in(wv, plv) == words_all_in(wv.skip(k as int), plv),
        decreases words@.len() - k,
    {
        let ghost suf = wv.skip(k as int);
        assert(suf[0] == wv[k as int]);
        assert(suf.skip(1) =~= wv.skip(k + 1));
        let low = crate::chars::to_lower_vec(&words[k]);
        assert(low@ == crate::chars::lower_seq(wv[k as int]));
        if !crate::chars::pieces_contain(parts_lower, &low) {
            assert(!words_all_in(suf, plv));
            return false;
        }
        k = k + 1;
    }
    assert(wv.skip(k as int) =~= Seq::<Seq<char>>::empty());
    true
}

/// Executable candidate collection for one table entry.
fn entry_cands_exec(
    code: &String,
    name: &String,
    c: &Country,
    parts: &Vec<Vec<char>>,
    parts_lower: &Vec<Vec<char>>,
) -> (r: Vec<(State, Country)>)
    ensures
        cands_view(r@) == entry_cands(
            (code@, name@),
            c@,
            crate::chars::pieces_view(parts@),
            crate::chars::pieces_view(parts_lower@),
        ),
{
    let sv = State { code: code.clone(), name: name.clone() };
    let code_v = crate::chars::chars_vec(code.as_str());
    let mut r = cands_for_parts_exec(&sv, c, &code_v, parts);
    let ghost pre = cands_view(r@);
    let name_v = crate::chars::chars_vec(name.as_str());
    if name_words_in_exec(&name_v, parts_lower) {
        r.push((sv, c.duplicate()));
        assert(cands_view(r@) =~= pre + seq![(StateV { code: code@, name: name@ }, c@)]);
    } else {
        assert(cands_view(r@) =~= pre + Seq::<(StateV, CountryV)>::empty());
    }
    r
}

/// Executable candidate collection over one country's table.
fn table_cands_exec(
    entries: &Vec<(String, String)>,
    c: &Country,
    parts: &Vec<Vec<char>>,
    parts_lower: &Vec<Vec<char>>,
) -> (r: Vec<(State, Country)>)
    ensures
        cands_view(r@) == table_cands(
            crate::nodes::pairs_view(entries@),
            c@,
            crate::chars::pieces_view(parts@),
            crate::chars::pieces_view(parts_lower@),
        ),
{
    let ghost ev = crate::nodes::pairs_view(entries@);
    let ghost pv = crate::chars::pieces_view(parts@);
    let ghost plv = crate::chars::pieces_view(parts_lower@);
    let mut r: Vec<(State, Country)> = Vec::new();
    let mut j: usize = 0;
    assert(ev.skip(0) =~= ev);
    assert(cands_view(r@) + table_cands(ev, c@, pv, plv) =~= table_cands(ev, c@, pv, plv));
    while j < entries.len()
        invariant
            j <= entries@.len(),
            ev == crate::nodes::pairs_view(entries@),
            pv == crate::chars::pieces_view(parts@),
            plv == crate::chars::pieces_view(parts_lower@),
            cands_view(r@) + table_cands(ev.skip(j as int), c@, pv, plv) == table_cands(
                ev,
                c@,
                pv,
                plv,
            ),
        decreases entries@.len() - j,
    {
        let ghost pre = cands_view(r@);
        let ghost suf = ev.skip(j as int);
        assert(suf[0] == ev[j as int]);
        assert(suf.skip(1) =~= ev.skip(j + 1));
        let mut piece = entry_cands_exec(&entries[j].0, &entries[j].1, c, parts, parts_lower);
        let ghost piece_v = cands_view(piece@);
        r.append(&mut piece);
        assert(cands_view(r@) =~= pre + piece_v);
        assert(pre + (piece_v + table_cands(suf.skip(1), c@, pv, plv)) =~= pre + piece_v
            + table_cands(suf.skip(1), c@, pv, plv));
        j = j + 1;
    }
    assert(ev.skip(j as int) =~= Seq::<(Seq<char>, Seq<char>)>::empty());
    assert(cands_view(r@) + table_cands(Seq::empty(), c@, pv, plv) =~= cands_view(r@));
    r
}

/// Executable candidate collection over the candidate countries.
fn all_cands_exec(
    p: &crate::Parser,
    countries: &Vec<Country>,
    parts: &Vec<Vec<char>>,
    parts_lower: &Vec<Vec<char>>,
) -> (r: Vec<(State, Country)>)
    ensures
        cands_view(r@) == all_cands(
            p.gaz(),
            Seq::new(countries@.len(), |i: int| countries@[i]@),
            crate::chars::pieces_view(parts@),
            crate::chars::pieces_view(parts_lower@),
        ),
{
    let ghost cseq = Seq::new(countries@.len(), |i: int| countries@[i]@);
    let ghost pv = crate::chars::pieces_view(parts@);
    let ghost plv = crate::chars::pieces_view(parts_lower@);
    let mut r: Vec<(State, Country)> = Vec::new();
    let mut i: usize = 0;
    assert(cseq.skip(0) =~= cseq);
    assert(cands_view(r@) + all_cands(p.gaz(), cseq, pv, plv) =~= all_cands(
        p.gaz(),
        cseq,
        pv,
        plv,
    ));
    while i < countries.len()
        invariant
            i <= countries@.len(),
            cseq == Seq::new(countries@.len(), |k: int| countries@[k]@),
            pv == crate::chars::pieces_view(parts@),
            plv == crate::chars::pieces_view(parts_lower@),
            cands_view(r@) + all_cands(p.gaz(), cseq.skip(i as int), pv, plv) == all_cands(
                p.gaz(),
                cseq,
                pv,
                plv,
            ),
        decreases countries@.len() - i,
    {
        let ghost pre = cands_view(r@);
        let ghost suf = cseq.skip(i as int);
        assert(suf[0] == cseq[i as int]);
        assert(suf.skip(1) =~= cseq.skip(i + 1));
        let c = &countries[i];
        let ghost entries_v = table_or_empty(states_of_spec(p.gaz().states, c@.code));
        let mut piece: Vec<(State, Country)> = match states_of(&p.states, c.code.as_str()) {
            Some(m) => table_cands_exec(&m.entries, c, parts, parts_lower),
            None => {
                assert(entries_v =~= Seq::<(Seq<char>, Seq<char>)>::empty());
                Vec::new()
            },
        };
        let ghost piece_v = cands_view(piece@);
        assert(piece_v == table_cands(entries_v, c@, pv, plv)) by {
            if states_of_spec(p.gaz().states, c@.code) is None {
                assert(cands_view(Seq::<(State, Country)>::empty()) =~= Seq::<
                    (StateV, CountryV),
                >::empty());
            }
        }
        r.append(&mut piece);
        assert(cands_view(r@) =~= pre + piece_v);
        assert(pre + (piece_v + all_cands(p.gaz(), suf.skip(1), pv, plv)) =~= pre + piece_v
            + all_cands(p.gaz(), suf.skip(1), pv, plv));
        i = i + 1;
    }
    assert(cseq.skip(i as int) =~= Seq::<CountryV>::empty());
    assert(cands_view(r@) + all_cands(p.gaz(), Seq::empty(), pv, plv) =~= cands_view(r@));
    r
}

/// Executable country-code filter over the candidates.
fn keep_non_country_exec(p: &crate::Parser, cands: &Vec<(State, Country)>) -> (r: Vec<
    (State, Country),
>)
    ensures
        cands_view(r@) == keep_non_country(cands_view(cands@), p.gaz().countries),
{
    let ghost cv = cands_view(cands@);
    let mut r: Vec<(State, Country)> = Vec::new();
    let mut i: usize = 0;
    assert(cv.skip(0) =~= cv);
    assert(cands_view(r@) + keep_non_country(cv, p.gaz().countries) =~= keep_non_country(
        cv,
        p.gaz().countries,
    ));
    while i < cands.len()
        invariant
            i <= cands@.len(),
            cv == cands_view(cands@),
            cands_view(r@) + keep_non_country(cv.skip(i as int), p.gaz().countries)
                == keep_non_country(cv, p.gaz().countries),
        decreases cands@.len() - i,
    {
        let ghost pre = cands_view(r@);
        let ghost suf = cv.skip(i as int);
        assert(suf[0] == cv[i as int]);
        assert(suf.skip(1) =~= cv.skip(i + 1));
        let code_v = crate::chars::chars_vec(cands[i].0.code.as_str());
        match crate::nodes::lookup_by_first(&p.countries.entries, &code_v) {
            Some(_) => {},
            None => {
                r.push((cands[i].0.duplicate(), cands[i].1.duplicate()));
                assert(cands_view(r@) =~= pre + seq![suf[0]]);
                assert(pre + (seq![suf[0]] + keep_non_country(suf.skip(1), p.gaz().countries))
                    =~= pre + seq![suf[0]] + keep_non_country(suf.skip(1), p.gaz().countries));
            },
        }
        i = i + 1;
    }
    assert(cv.skip(i as int) =~= Seq::<(StateV, CountryV)>::empty());
    assert(cands_view(r@) + keep_non_country(Seq::empty(), p.gaz().countries) =~= cands_view(r@));
    r
}

impl crate::Parser {
    /// The Washington D.C. special case: `district of columbia`, `d.c.` or
    /// ` d, c` in the text resolves to DC with the United States implied.
    pub fn find_special_case_state(&self, input: &str) -> (r: Option<(State, Country)>)
        ensures
            match r {
                Some(x) => special_case_state_spec(input@) == Some((x.0@, x.1@)),
                None => special_case_state_spec(input@) is None,
            },
    {
        proof {
            reveal_strlit("district of columbia");
            reveal_strlit("d.c.");
            reveal_strlit(" d, c");
        }
        let v = crate::chars::chars_vec(input);
        let lower = crate::chars::to_lower_vec(&v);
        let p1 = crate::chars::chars_vec("district of columbia");
        let p2 = crate::chars::chars_vec("d.c.");
        let p3 = crate::chars::chars_vec(" d, c");
        if crate::chars::contains_in(&lower, &p1) || crate::chars::contains_in(&lower, &p2)
            || crate::chars::contains_in(&lower, &p3) {
            Some(
                (
                    State {
                        code: "DC".to_owned(),
                        name: "District Of Columbia".to_owned(),
                    },
                    crate::nodes::country::united_states(),
                ),
            )
        } else {
            None
        }
    }

    /// Executable full-name pass over the candidate countries.
    fn state_name_pass_exec(&self, countries: &Vec<Country>, lower: &Vec<char>) -> (r: Option<
        (State, Country),
    >)
        ensures
            match r {
                Some(x) => state_name_pass(
                    self.gaz(),
                    Seq::new(countries@.len(), |i: int| countries@[i]@),
                    lower@,
                ) == Some((x.0@, x.1@)),
                None => state_name_pass(
                    self.gaz(),
                    Seq::new(countries@.len(), |i: int| countries@[i]@),
                    lower@,
                ) is None,
            },
    {
        let ghost cseq = Seq::new(countries@.len(), |i: int| countries@[i]@);
        let mut i: usize = 0;
        assert(cseq.skip(0) =~= cseq);
        while i < countries.len()
            invariant
                i <= countries@.len(),
                cseq == Seq::new(countries@.len(), |k: int| countries@[k]@),
                state_name_pass(self.gaz(), cseq, lower@) == state_name_pass(
                    self.gaz(),
                    cseq.skip(i as int),
                    lower@,
                ),
            decreases countries@.len() - i,
        {
            let ghost suf = cseq.skip(i as int);
            assert(suf[0] == cseq[i as int]);
            assert(suf.skip(1) =~= cseq.skip(i + 1));
            let c = &countries[i];
            let ghost entries_v = table_or_empty(states_of_spec(self.gaz().states, c@.code));
            match states_of(&self.states, c.code.as_str()) {
                Some(m) => {
                    match first_name_match_exec(&m.entries, lower) {
                        Some(e) => {
                            assert(first_name_match(entries_v, lower@) == Some((e.0@, e.1@)));
                            return Some((State { code: e.0, name: e.1 }, c.duplicate()));
                        },
                        None => {},
                    }
                },
                None => {
                    assert(entries_v =~= Seq::<(Seq<char>, Seq<char>)>::empty());
                },
            }
            i = i + 1;
        }
        assert(cseq.skip(i as int) =~= Seq::<CountryV>::empty());
        None
    }
}

/// Executable first full-name match over one table.
fn first_name_match_exec(entries: &Vec<(String, String)>, lower: &Vec<char>) -> (r: Option<
    (String, String),
>)
    ensures
        match r {
            Some(e) => first_name_match(crate::nodes::pairs_view(entries@), lower@) == Some(
                (e.0@, e.1@),
            ),
            None => first_name_match(crate::nodes::pairs_view(entries@), lower@) is None,
        },
{
    let ghost ev = crate::nodes::pairs_view(entries@);
    let mut j: usize = 0;
    assert(ev.skip(0) =~= ev);
    while j < entries.len()
        invariant
            j <= entries@.len(),
            ev == crate::nodes::pairs_view(entries@),
            first_name_match(ev, lower@) == first_name_match(ev.skip(j as int), lower@),
        decreases entries@.len() - j,
    {
        let ghost suf = ev.skip(j as int);
        assert(suf[0] == ev[j as int]);
        assert(suf.skip(1) =~= ev.skip(j + 1));
        let nv = crate::chars::chars_vec(entries[j].1.as_str());
        let low = crate::chars::to_lower_vec(&nv);
        if nv.len() > 0 && crate::chars::contains_in(lower, &low) {
            return Some((entries[j].0.clone(), entries[j].1.clone()));
        }
        j = j + 1;
    }
    assert(ev.skip(j as int) =~= Seq::<(Seq<char>, Seq<char>)>::empty());
    None
}

} // verus!

verus! {

/// What the state stage does to a location: on empty input or a known state
/// nothing; otherwise it records the resolved state, backfills the implied
/// country when none is known, and folds accents out of the resolved names.
pub open spec fn fill_state_spec(
    gaz: crate::GazV,
    l: crate::nodes::location::LocationV,
    s: Seq<char>,
) -> crate::nodes::location::LocationV {
    if s.len() == 0 || l.state is Some {
        l
    } else {
        match find_state_spec(gaz, s, l.country) {
            Some(x) => crate::utils::decode_spec(
                crate::nodes::location::LocationV {
                    state: Some(x.0),
                    country: if l.country is None {
                        Some(x.1)
                    } else {
                        l.country
                    },
                    ..l
                },
            ),
            None => crate::utils::decode_spec(l),
        }
    }
}

impl crate::Parser {
    /// Resolve a state from the remainder and a possibly known country: the
    /// D.C. special case first; then the first full state name contained in
    /// the text; then the candidates by exact code token or by all name
    /// words, accepted only when unambiguous after discarding candidates
    /// that collide with a country code.
    pub fn find_state(&self, input: &str, country: &Option<Country>) -> (r: Option<
        (State, Country),
    >)
        ensures
            match r {
                Some(x) => find_state_spec(
                    self.gaz(),
                    input@,
                    match country {
                        Some(c) => Some(c@),
                        None => None,
                    },
                ) == Some((x.0@, x.1@)),
                None => find_state_spec(
                    self.gaz(),
                    input@,
                    match country {
                        Some(c) => Some(c@),
                        None => None,
                    },
                ) is None,
            },
    {
        let ghost cv = match country {
            Some(c) => Some(c@),
            None => None,
        };
        let v = crate::chars::chars_vec(input);
        if v.len() == 0 {
            return None;
        }
        match self.find_special_case_state(input) {
            Some(x) => {
                return Some(x);
            },
            None => {},
        }
        let lower = crate::chars::to_lower_vec(&v);
        let parts_all = crate::chars::split_class_vec(crate::chars::CharClass::Word, &v);
        let parts = crate::chars::dedup_adjacent_vec(&parts_all);
        let parts_lower_all = crate::chars::split_class_vec(crate::chars::CharClass::Word, &lower);
        let parts_lower = crate::chars::dedup_adjacent_vec(&parts_lower_all);
        let countries = crate::utils::get_countries(country);
        let ghost cseq = Seq::new(countries@.len(), |i: int| countries@[i]@);
        proof {
            assert(cseq =~= crate::utils::candidate_countries(cv));
        }
        match self.state_name_pass_exec(&countries, &lower) {
            Some(x) => {
                return Some(x);
            },
            None => {},
        }
        let cands = all_cands_exec(self, &countries, &parts, &parts_lower);
        if cands.len() == 0 {
            return None;
        }
        if cands.len() == 1 {
            let s = cands[0].0.duplicate();
            let c = cands[0].1.duplicate();
            assert((s@, c@) == cands_view(cands@)[0]);
            return Some((s, c));
        }
        let kept = keep_non_country_exec(self, &cands);
        if kept.len() == 1 {
            let s = kept[0].0.duplicate();
            let c = kept[0].1.duplicate();
            assert((s@, c@) == cands_view(kept@)[0]);
            Some((s, c))
        } else {
            None
        }
    }

    /// Record the resolved state when none is known yet, backfill the
    /// implied country, and fold accents out of the resolved names.
    pub fn fill_state(&self, location: &mut crate::nodes::Location, input: &str)
        ensures
            final(location)@ == fill_state_spec(self.gaz(), old(location)@, input@),
    {
        let v = crate::chars::chars_vec(input);
        if v.len() == 0 {
            return;
        }
        if location.state.is_some() {
            return;
        }
        match self.find_state(input, &location.country) {
            Some(x) => {
                location.state = Some(x.0);
                if location.country.is_none() {
                    location.country = Some(x.1);
                }
            },
            None => {},
        }
        crate::utils::decode(location);
    }
}

} // verus!

verus! {

use crate::nodes::city::{cities_of_spec, cities_table_spec};

/// The whitespace tokens of `s` that differ from `code`, in order.
pub open spec fn keep_ws_tokens(ws: Seq<Seq<char>>, code: Seq<char>) -> Seq<Seq<char>>
    decreases ws.len(),
{
    if ws.len() == 0 {
        Seq::empty()
    } else if ws[0] == code {
        keep_ws_tokens(ws.skip(1), code)
    } else {
        seq![ws[0]] + keep_ws_tokens(ws.skip(1), code)
    }
}

/// No city of the list shares a whitespace word with the lower-cased state
/// name.
pub open spec fn no_city_shares_name_word(cities: Seq<Seq<char>>, name: Seq<char>) -> bool
    decreases cities.len(),
{
    if cities.len() == 0 {
        true
    } else {
        no_shared_word(
            crate::chars::split_class(
                crate::chars::CharClass::NonSpace,
                crate::chars::lower_seq(name),
            ),
            crate::chars::split_class(crate::chars::CharClass::NonSpace, cities[0]),
        ) && no_city_shares_name_word(cities.skip(1), name)
    }
}

/// None of the words occurs among the city's words.
pub open spec fn no_shared_word(words: Seq<Seq<char>>, city_words: Seq<Seq<char>>) -> bool
    decreases words.len(),
{
    if words.len() == 0 {
        true
    } else {
        !city_words.contains(words[0]) && no_shared_word(words.skip(1), city_words)
    }
}

/// Whether the state name is removed from `kept`: only when the name is
/// found, the incoming text had no standalone code token, the country's city
/// table is present, and either no city of that state shares a word with the
/// state name or `kept` does not begin with the name.
pub open spec fn state_name_removal(
    gaz: crate::GazV,
    kept: Seq<char>,
    raw: Seq<char>,
    state: StateV,
    country: CountryV,
) -> Seq<char> {
    if state.name.len() == 0 {
        kept
    } else {
        match crate::chars::find_sub(
            crate::chars::lower_seq(kept),
            crate::chars::lower_seq(state.name),
        ) {
            Some(p) => {
                if !crate::utils::tokens(raw).contains(state.code) {
                    match cities_table_spec(gaz.cities, country.code) {
                        Some(groups) => match cities_of_spec(groups, state.code) {
                            Some(cities) => {
                                if no_city_shares_name_word(cities, state.name)
                                    || !crate::chars::starts_with(kept, state.name) {
                                    kept.take(p) + kept.skip(p + state.name.len())
                                } else {
                                    kept
                                }
                            },
                            None => kept,
                        },
                        None => kept,
                    }
                } else {
                    kept
                }
            },
            None => kept,
        }
    }
}

/// What removing a state from a remainder yields: standalone code tokens are
/// dropped word by word; the state name is removed under the guards of
/// [`state_name_removal`]; a remaining code occurrence that is a token is
/// removed once; and the normalizer runs afterwards.
pub open spec fn remove_state_spec(
    gaz: crate::GazV,
    s: Seq<char>,
    state: StateV,
    country: CountryV,
) -> Seq<char> {
    let kept = crate::chars::join_sep(
        keep_ws_tokens(
            crate::chars::split_class(crate::chars::CharClass::NonSpace, s),
            state.code,
        ),
        " "@,
    );
    let after_name = state_name_removal(gaz, kept, s, state, country);
    let after_code = if state.code.len() > 0 && crate::utils::tokens(after_name).contains(
        state.code,
    ) {
        match crate::chars::find_sub(after_name, state.code) {
            Some(p) => after_name.take(p) + after_name.skip(p + state.code.len()),
            None => after_name,
        }
    } else {
        after_name
    };
    crate::utils::clean_spec(after_code)
}

/// Executable whitespace-token filter, mirroring [`keep_ws_tokens`].
fn keep_ws_tokens_exec(ws: &Vec<Vec<char>>, code: &Vec<char>) -> (r: Vec<Vec<char>>)
    ensures
        crate::chars::pieces_view(r@) == keep_ws_tokens(crate::chars::pieces_view(ws@), code@),
{
    let ghost wv = crate::chars::pieces_view(ws@);
    let mut r: Vec<Vec<char>> = Vec::new();
    let mut i: usize = 0;
    assert(wv.skip(0) =~= wv);
    assert(crate::chars::pieces_view(r@) + keep_ws_tokens(wv, code@) =~= keep_ws_tokens(
        wv,
        code@,
    ));
    while i < ws.len()
        invariant
            i <= ws@.len(),
            wv == crate::chars::pieces_view(ws@),
            crate::chars::pieces_view(r@) + keep_ws_tokens(wv.skip(i as int), code@)
                == keep_ws_tokens(wv, code@),
        decreases ws@.len() - i,
    {
        let ghost pre = crate::chars::pieces_view(r@);
        let ghost suf = wv.skip(i as int);
        assert(suf[0] == wv[i as int]);
        assert(suf.skip(1) =~= wv.skip(i + 1));
        if !crate::chars::eq_chars(&ws[i], code) {
            let piece = crate::chars::sub_vec(&ws[i], 0, ws[i].len());
            assert(piece@ =~= wv[i as int]);
            r.push(piece);
            assert(crate::chars::pieces_view(r@) =~= pre + seq![suf[0]]);
            assert(pre + (seq![suf[0]] + keep_ws_tokens(suf.skip(1), code@)) =~= pre + seq![
                suf[0],
            ] + keep_ws_tokens(suf.skip(1), code@));
        }
        i = i + 1;
    }
    assert(wv.skip(i as int) =~= Seq::<Seq<char>>::empty());
    assert(crate::chars::pieces_view(r@) + keep_ws_tokens(Seq::empty(), code@)
        =~= crate::chars::pieces_view(r@));
    r
}

/// Executable shared-word check for one city.
fn no_shared_word_exec(words: &Vec<Vec<char>>, city_words: &Vec<Vec<char>>) -> (r: bool)
    ensures
        r == no_shared_word(
            crate::chars::pieces_view(words@),
            crate::chars::pieces_view(city_words@),
        ),
{
    let ghost wv = crate::chars::pieces_view(words@);
    let ghost cw = crate::chars::pieces_view(city_words@);
    let mut i: usize = 0;
    assert(wv.skip(0) =~= wv);
    while i < words.len()
        invariant
            i <= words@.len(),
            wv == crate::chars::pieces_view(words@),
            cw == crate::chars::pieces_view(city_words@),
            no_shared_word(wv, cw) == no_shared_word(wv.skip(i as int), cw),
        decreases words@.len() - i,
    {
        let ghost suf = wv.skip(i as int);
        assert(suf[0] == wv[i as int]);
        assert(suf.skip(1) =~= wv.skip(i + 1));
        if crate::chars::pieces_contain(city_words, &words[i]) {
            assert(!no_shared_word(suf, cw));
            return false;
        }
        i = i + 1;
    }
    assert(wv.skip(i as int) =~= Seq::<Seq<char>>::empty());
    true
}

/// Executable word-sharing check over a state's city list.
fn no_city_shares_name_word_exec(cities: &Vec<String>, name: &Vec<char>) -> (r: bool)
    ensures
        r == no_city_shares_name_word(crate::chars::strings_view(cities@), name@),
{
    let ghost cv = crate::chars::strings_view(cities@);
    let lower_name = crate::chars::to_lower_vec(name);
    let words = crate::chars::split_class_vec(crate::chars::CharClass::NonSpace, &lower_name);
    assert(crate::chars::pieces_view(words@) == crate::chars::split_class(
        crate::chars::CharClass::NonSpace,
        crate::chars::lower_seq(name@),
    ));
    let mut i: usize = 0;
    assert(cv.skip(0) =~= cv);
    while i < cities.len()
        invariant
            i <= cities@.len(),
            cv == crate::chars::strings_view(cities@),
            crate::chars::pieces_view(words@) == crate::chars::split_class(
                crate::chars::CharClass::NonSpace,
                crate::chars::lower_seq(name@),
            ),
            no_city_shares_name_word(cv, name@) == no_city_shares_name_word(
                cv.skip(i as int),
                name@,
            ),
        decreases cities@.len() - i,
    {
        let ghost suf = cv.skip(i as int);
        assert(suf[0] == cv[i as int]);
        assert(suf.skip(1) =~= cv.skip(i + 1));
        let city_v = chars_vec(cities[i].as_str());
        let city_words = crate::chars::split_class_vec(
            crate::chars::CharClass::NonSpace,
            &city_v,
        );
        assert(crate::chars::pieces_view(city_words@) == crate::chars::split_class(
            crate::chars::CharClass::NonSpace,
            suf[0],
        ));
        if !no_shared_word_exec(&words, &city_words) {
            assert(!no_city_shares_name_word(suf, name@));
            return false;
        }
        i = i + 1;
    }
    assert(cv.skip(i as int) =~= Seq::<Seq<char>>::empty());
    true
}

impl crate::Parser {
    /// Remove the resolved state from the remainder: its standalone code
    /// tokens first; then its full name, unless the incoming text carried the
    /// code as a token or removing the name would damage a city of that
    /// state sharing words with it; then one remaining code occurrence; and
    /// re-run the normalizer.
    pub fn remove_state(&self, state: &State, country: &Country, input: &mut String)
        ensures
            final(input)@ == remove_state_spec(self.gaz(), old(input)@, state@, country@),
    {
        proof {
            reveal_strlit(" ");
        }
        let v = chars_vec(input.as_str());
        let code_v = chars_vec(state.code.as_str());
        let name_v = chars_vec(state.name.as_str());
        let ws = crate::chars::split_class_vec(crate::chars::CharClass::NonSpace, &v);
        let filtered = keep_ws_tokens_exec(&ws, &code_v);
        let space = crate::utils::one_char_vec(' ');
        assert(space@ =~= " "@);
        let kept = crate::chars::join_pieces(&filtered, &space);
        assert(kept@ == crate::chars::join_sep(
            keep_ws_tokens(
                crate::chars::split_class(crate::chars::CharClass::NonSpace, old(input)@),
                state@.code,
            ),
            " "@,
        ));
        let ghost kept_v = kept@;
        let mut after_name: Vec<char> = crate::chars::sub_vec(&kept, 0, kept.len());
        assert(after_name@ =~= kept@);
        let ghost name_target = state_name_removal(
            self.gaz(),
            kept_v,
            old(input)@,
            state@,
            country@,
        );
        if name_v.len() > 0 {
            let lower_kept = crate::chars::to_lower_vec(&kept);
            let lower_name = crate::chars::to_lower_vec(&name_v);
            match crate::chars::find_in(&lower_kept, &lower_name) {
                Some(p) => {
                    proof {
                        crate::chars::lemma_find_from_props(lower_kept@, lower_name@, 0);
                    }
                    let parts_raw = crate::chars::split_class_vec(
                        crate::chars::CharClass::Word,
                        &v,
                    );
                    if !crate::chars::pieces_contain(&parts_raw, &code_v) {
                        match crate::nodes::city::cities_of_country(
                            &self.cities,
                            country.code.as_str(),
                        ) {
                            Some(cm) => {
                                match cm.cities_of(&code_v) {
                                    Some(cities) => {
                                        let ok = no_city_shares_name_word_exec(cities, &name_v)
                                            || !crate::chars::starts_with_exec(&kept, &name_v);
                                        if ok {
                                            let kl = kept.len();
                                            assert(p + name_v@.len() <= kl);
                                            let mut head = crate::chars::sub_vec(&kept, 0, p);
                                            let tail = crate::chars::sub_vec(
                                                &kept,
                                                p + name_v.len(),
                                                kl,
                                            );
                                            crate::chars::extend_chars(&mut head, &tail);
                                            assert(head@ =~= kept@.take(p as int) + kept@.skip(
                                                p + state@.name.len(),
                                            ));
                                            after_name = head;
                                        }
                                    },
                                    None => {},
                                }
                            },
                            None => {},
                        }
                    }
                },
                None => {},
            }
        }
        assert(after_name@ == name_target);
        let mut after_code: Vec<char> = crate::chars::sub_vec(&after_name, 0, after_name.len());
        assert(after_code@ =~= after_name@);
        if code_v.len() > 0 {
            let parts_after = crate::chars::split_class_vec(
                crate::chars::CharClass::Word,
                &after_name,
            );
            if crate::chars::pieces_contain(&parts_after, &code_v) {
                match crate::chars::find_in(&after_name, &code_v) {
                    Some(p2) => {
                        proof {
                            crate::chars::lemma_find_from_props(after_name@, code_v@, 0);
                        }
                        let al = after_name.len();
                        assert(p2 + code_v@.len() <= al);
                        let mut head = crate::chars::sub_vec(&after_name, 0, p2);
                        let tail = crate::chars::sub_vec(&after_name, p2 + code_v.len(), al);
                        crate::chars::extend_chars(&mut head, &tail);
                        assert(head@ =~= after_name@.take(p2 as int) + after_name@.skip(
                            p2 + state@.code.len(),
                        ));
                        after_code = head;
                    },
                    None => {},
                }
            }
        }
        *input = crate::chars::string_of(&after_code);
        crate::utils::clean(input);
    }

    /// Backfill the country a known state implies: when the state's code is
    /// in a country's table, that country is recorded; Canada is checked
    /// after the United States and wins when both tables list the code.
    pub fn fill_country_from_state(&self, location: &mut crate::nodes::Location)
        ensures
            final(location)@ == fill_country_from_state_spec(self.gaz(), old(location)@),
    {
        if location.state.is_none() || location.country.is_some() {
            return;
        }
        let code = match &location.state {
            Some(s) => chars_vec(s.code.as_str()),
            None => Vec::new(),
        };
        let mut found: Option<Country> = None;
        match states_of(&self.states, "US") {
            Some(m) => {
                match crate::nodes::lookup_by_first(&m.entries, &code) {
                    Some(_) => {
                        found = Some(crate::nodes::country::united_states());
                    },
                    None => {},
                }
            },
            None => {},
        }
        match states_of(&self.states, "CA") {
            Some(m) => {
                match crate::nodes::lookup_by_first(&m.entries, &code) {
                    Some(_) => {
                        found = Some(crate::nodes::country::canada());
                    },
                    None => {},
                }
            },
            None => {},
        }
        match found {
            Some(c) => {
                location.country = Some(c);
            },
            None => {},
        }
    }

    /// The state of the given code, searched through the candidate
    /// countries' tables in order.
    pub fn state_from_code(&self, country: &Option<Country>, input: &str) -> (r: Option<State>)
        ensures
            match r {
                Some(s) => state_from_code_spec(
                    self.gaz(),
                    match country {
                        Some(c) => Some(c@),
                        None => None,
                    },
                    input@,
                ) == Some(s@),
                None => state_from_code_spec(
                    self.gaz(),
                    match country {
                        Some(c) => Some(c@),
                        None => None,
                    },
                    input@,
                ) is None,
            },
    {
        let ghost cv = match country {
            Some(c) => Some(c@),
            None => None,
        };
        let countries = crate::utils::get_countries(country);
        let ghost cseq = Seq::new(countries@.len(), |i: int| countries@[i]@);
        proof {
            assert(cseq =~= crate::utils::candidate_countries(cv));
        }
        let key = chars_vec(input);
        let mut i: usize = 0;
        assert(cseq.skip(0) =~= cseq);
        while i < countries.len()
            invariant
                i <= countries@.len(),
                key@ == input@,
                cv == match country {
                    Some(c) => Some(c@),
                    None => None,
                },
                cseq == Seq::new(countries@.len(), |k: int| countries@[k]@),
                state_from_code_spec(self.gaz(), cv, input@) == sfc_from(
                    self.gaz(),
                    cseq.skip(i as int),
                    input@,
                ),
                cseq =~= crate::utils::candidate_countries(cv),
            decreases countries@.len() - i,
        {
            let ghost suf = cseq.skip(i as int);
            assert(suf[0] == cseq[i as int]);
            assert(suf.skip(1) =~= cseq.skip(i + 1));
            let c = &countries[i];
            let ghost entries_v = table_or_empty(states_of_spec(self.gaz().states, c@.code));
            match states_of(&self.states, c.code.as_str()) {
                Some(m) => {
                    match crate::nodes::lookup_by_first(&m.entries, &key) {
                        Some(name) => {
                            assert(crate::nodes::lookup_first(entries_v, input@) == Some(name@));
                            assert(sfc_from(self.gaz(), suf, input@) == Some(
                                StateV { code: input@, name: name@ },
                            ));
                            let code = crate::chars::string_of(&key);
                            return Some(State { code, name });
                        },
                        None => {
                            assert(crate::nodes::lookup_first(entries_v, input@) is None);
                        },
                    }
                },
                None => {
                    assert(entries_v =~= Seq::<(Seq<char>, Seq<char>)>::empty());
                    assert(crate::nodes::lookup_first(entries_v, input@) is None);
                },
            }
            assert(sfc_from(self.gaz(), suf, input@) == sfc_from(
                self.gaz(),
                suf.skip(1),
                input@,
            ));
            i = i + 1;
        }
        assert(cseq.skip(i as int) =~= Seq::<CountryV>::empty());
        None
    }
}

/// What the state-to-country backfill does to a location.
pub open spec fn fill_country_from_state_spec(
    gaz: crate::GazV,
    l: crate::nodes::location::LocationV,
) -> crate::nodes::location::LocationV {
    if l.state is Some && l.country is None {
        match country_of_state(gaz, l.state->Some_0.code) {
            Some(c) => crate::nodes::location::LocationV { country: Some(c), ..l },
            None => l,
        }
    } else {
        l
    }
}

/// The country whose state table lists the code; Canada wins over the United
/// States when both do.
pub open spec fn country_of_state(gaz: crate::GazV, code: Seq<char>) -> Option<CountryV> {
    if crate::nodes::lookup_first(
        table_or_empty(states_of_spec(gaz.states, "CA"@)),
        code,
    ) is Some {
        Some(canada_v())
    } else if crate::nodes::lookup_first(
        table_or_empty(states_of_spec(gaz.states, "US"@)),
        code,
    ) is Some {
        Some(united_states_v())
    } else {
        None
    }
}

/// The first candidate country whose table lists the code, and the state it
/// names.
pub open spec fn sfc_from(gaz: crate::GazV, countries: Seq<CountryV>, code: Seq<char>) -> Option<
    StateV,
>
    decreases countries.len(),
{
    if countries.len() == 0 {
        None
    } else {
        match crate::nodes::lookup_first(
            table_or_empty(states_of_spec(gaz.states, countries[0].code)),
            code,
        ) {
            Some(name) => Some(StateV { code: code, name: name }),
            None => sfc_from(gaz, countries.skip(1), code),
        }
    }
}

/// What [`crate::Parser::state_from_code`] returns.
pub open spec fn state_from_code_spec(
    gaz: crate::GazV,
    country: Option<CountryV>,
    code: Seq<char>,
) -> Option<StateV> {
    sfc_from(gaz, crate::utils::candidate_countries(country), code)
}

} // verus!
