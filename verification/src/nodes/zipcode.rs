//! Zipcodes and postal codes.

use vstd::prelude::*;

use crate::chars::{chars_vec, remove_char, remove_char_vec, string_of};

verus! {

broadcast use vstd::string::group_string_axioms;

/// A zipcode or postal code, kept as matched; the display form strips the
/// internal space of Canadian codes.
#[derive(Debug, Clone)]
pub struct Zipcode {
    pub zipcode: String,
}

/// The mathematical value of a [`Zipcode`].
pub struct ZipcodeV {
    pub zipcode: Seq<char>,
}

impl View for Zipcode {
    type V = ZipcodeV;

    open spec fn view(&self) -> ZipcodeV {
        ZipcodeV { zipcode: self.zipcode@ }
    }
}

impl PartialEq for Zipcode {
    /// Zipcodes are equal when their text agrees.
    fn eq(&self, other: &Zipcode) -> (r: bool) {
        self.zipcode == other.zipcode
    }
}

impl vstd::std_specs::cmp::PartialEqSpecImpl for Zipcode {
    open spec fn obeys_eq_spec() -> bool {
        true
    }

    open spec fn eq_spec(&self, other: &Zipcode) -> bool {
        self.zipcode@ == other.zipcode@
    }
}

impl Zipcode {
    /// An independent copy.
    pub fn duplicate(&self) -> (r: Zipcode)
        ensures
            r@ == self@,
    {
        Zipcode { zipcode: self.zipcode.clone() }
    }

    /// The display form of a zipcode: its text with every space removed.
    pub fn to_string(&self) -> (r: String)
        ensures
            r@ == remove_char(self.zipcode@, ' '),
    {
        let v = chars_vec(self.zipcode.as_str());
        let out = remove_char_vec(&v, ' ');
        string_of(&out)
    }
}

} // verus!

verus! {

// ---------------------------------------------------------------------------
// Postal-code patterns
// ---------------------------------------------------------------------------

/// The restricted first-letter alphabet of Canadian postal codes.
pub open spec fn ca_first_letter(c: char) -> bool {
    c == 'A' || c == 'B' || c == 'C' || c == 'E' || c == 'G' || c == 'H' || c == 'J' || c == 'K'
        || c == 'L' || c == 'M' || c == 'N' || c == 'P' || c == 'R' || c == 'S' || c == 'T'
        || c == 'V' || c == 'X' || c == 'Y'
}

/// Executable test for [`ca_first_letter`].
pub fn ca_first_letter_exec(c: char) -> (r: bool)
    ensures
        r == ca_first_letter(c),
{
    c == 'A' || c == 'B' || c == 'C' || c == 'E' || c == 'G' || c == 'H' || c == 'J' || c == 'K'
        || c == 'L' || c == 'M' || c == 'N' || c == 'P' || c == 'R' || c == 'S' || c == 'T'
        || c == 'V' || c == 'X' || c == 'Y'
}

/// The inner-letter alphabet of Canadian postal codes.
pub open spec fn ca_letter(c: char) -> bool {
    ca_first_letter(c) || c == 'W' || c == 'Z'
}

/// Executable test for [`ca_letter`].
pub fn ca_letter_exec(c: char) -> (r: bool)
    ensures
        r == ca_letter(c),
{
    ca_first_letter_exec(c) || c == 'W' || c == 'Z'
}

/// Length of the Canadian postal-code match at position `i`: seven with the
/// optional inner space, six without, zero when the pattern does not match.
pub open spec fn ca_match_at(s: Seq<char>, i: int) -> nat {
    if 0 <= i && i + 7 <= s.len() && ca_first_letter(s[i]) && crate::chars::is_digit_char(s[i + 1])
        && ca_letter(s[i + 2]) && s[i + 3] == ' ' && crate::chars::is_digit_char(s[i + 4])
        && ca_letter(s[i + 5]) && crate::chars::is_digit_char(s[i + 6]) {
        7
    } else if 0 <= i && i + 6 <= s.len() && ca_first_letter(s[i]) && crate::chars::is_digit_char(
        s[i + 1],
    ) && ca_letter(s[i + 2]) && crate::chars::is_digit_char(s[i + 3]) && ca_letter(s[i + 4])
        && crate::chars::is_digit_char(s[i + 5]) {
        6
    } else {
        0
    }
}

/// The first Canadian postal-code match at or after `i`: its position and
/// length.
pub open spec fn ca_find_from(s: Seq<char>, i: int) -> Option<(int, nat)>
    decreases s.len() - i,
{
    if i < 0 || i + 6 > s.len() {
        None
    } else if ca_match_at(s, i) > 0 {
        Some((i, ca_match_at(s, i)))
    } else {
        ca_find_from(s, i + 1)
    }
}

/// The first Canadian postal-code match in `s`.
pub open spec fn ca_find(s: Seq<char>) -> Option<(int, nat)> {
    ca_find_from(s, 0)
}

/// Length of the US zipcode match at position `i`: five digits, greedily
/// extended to ten by a dash or space and four more digits.
pub open spec fn us_match_at(s: Seq<char>, i: int) -> nat {
    if 0 <= i && i + 5 <= s.len() && (forall|j: int|
        i <= j < i + 5 ==> crate::chars::is_digit_char(s[j])) {
        if i + 10 <= s.len() && (s[i + 5] == '-' || crate::chars::is_space_char(s[i + 5])) && (
        forall|j: int| i + 6 <= j < i + 10 ==> crate::chars::is_digit_char(s[j])) {
            10
        } else {
            5
        }
    } else {
        0
    }
}

/// The first US zipcode match at or after `i`: its position and length.
pub open spec fn us_find_from(s: Seq<char>, i: int) -> Option<(int, nat)>
    decreases s.len() - i,
{
    if i < 0 || i + 5 > s.len() {
        None
    } else if us_match_at(s, i) > 0 {
        Some((i, us_match_at(s, i)))
    } else {
        us_find_from(s, i + 1)
    }
}

/// The first US zipcode match in `s`.
pub open spec fn us_find(s: Seq<char>) -> Option<(int, nat)> {
    us_find_from(s, 0)
}

/// A token has the shape of a zipcode: length exactly five, nine or ten, and
/// only digits, dashes and spaces.
pub open spec fn zip_shaped(t: Seq<char>) -> bool {
    &&& (t.len() == 5 || t.len() == 9 || t.len() == 10)
    &&& forall|j: int|
        0 <= j < t.len() ==> crate::chars::is_digit_char(t[j]) || t[j] == '-' || t[j] == ' '
}

/// Some token of `s` has the shape of a zipcode.
pub open spec fn has_zip_token(s: Seq<char>) -> bool {
    exists|k: int|
        0 <= k < crate::utils::tokens(s).len() && zip_shaped(crate::utils::tokens(s)[k])
}

/// What the zipcode stage finds in a remainder: the Canadian pattern first,
/// anywhere in the text, implying Canada; otherwise, if some token is
/// zipcode-shaped, the first US pattern match, implying the United States;
/// otherwise nothing.
pub open spec fn zipcode_scan_spec(s: Seq<char>) -> Option<
    (Seq<char>, crate::nodes::country::CountryV),
> {
    if s.len() == 0 {
        None
    } else {
        match ca_find(s) {
            Some(m) => Some(
                (s.subrange(m.0, m.0 + m.1), crate::nodes::country::canada_v()),
            ),
            None => {
                if has_zip_token(s) {
                    match us_find(s) {
                        Some(m) => Some(
                            (s.subrange(m.0, m.0 + m.1), crate::nodes::country::united_states_v()),
                        ),
                        None => None,
                    }
                } else {
                    None
                }
            },
        }
    }
}

/// Executable Canadian match length at a position.
fn ca_match_at_exec(v: &Vec<char>, i: usize) -> (r: usize)
    requires
        i < v@.len(),
    ensures
        r == ca_match_at(v@, i as int),
{
    let n = v.len();
    if n - i >= 7 && ca_first_letter_exec(v[i]) && crate::chars::digit_char(v[i + 1])
        && ca_letter_exec(v[i + 2]) && v[i + 3] == ' ' && crate::chars::digit_char(v[i + 4])
        && ca_letter_exec(v[i + 5]) && crate::chars::digit_char(v[i + 6]) {
        7
    } else if n - i >= 6 && ca_first_letter_exec(v[i]) && crate::chars::digit_char(v[i + 1])
        && ca_letter_exec(v[i + 2]) && crate::chars::digit_char(v[i + 3]) && ca_letter_exec(
        v[i + 4],
    ) && crate::chars::digit_char(v[i + 5]) {
        6
    } else {
        0
    }
}

/// Executable first Canadian match.
fn ca_find_exec(v: &Vec<char>) -> (r: Option<(usize, usize)>)
    ensures
        match r {
            Some(m) => ca_find(v@) == Some((m.0 as int, m.1 as nat)) && m.0 + m.1 <= v@.len()
                && m.1 > 0,
            None => ca_find(v@) is None,
        },
{
    let n = v.len();
    if n < 6 {
        return None;
    }
    let mut i: usize = 0;
    while i <= n - 6
        invariant
            i <= n - 5,
            n == v@.len(),
            n >= 6,
            ca_find(v@) == ca_find_from(v@, i as int),
        decreases n - i,
    {
        let m = ca_match_at_exec(v, i);
        if m > 0 {
            return Some((i, m));
        }
        i = i + 1;
    }
    None
}

/// Executable US match length at a position.
fn us_match_at_exec(v: &Vec<char>, i: usize) -> (r: usize)
    requires
        i < v@.len(),
    ensures
        r == us_match_at(v@, i as int),
{
    let n = v.len();
    if n - i >= 5 {
        let mut j: usize = 0;
        while j < 5
            invariant
                j <= 5,
                i + 5 <= n,
                n == v@.len(),
                forall|k: int| i <= k < i + j ==> crate::chars::is_digit_char(v@[k]),
            decreases 5 - j,
        {
            if !crate::chars::digit_char(v[i + j]) {
                assert(!crate::chars::is_digit_char(v@[i + j]));
                return 0;
            }
            j = j + 1;
        }
        if n - i >= 10 && (v[i + 5] == '-' || crate::chars::space_char(v[i + 5])) {
            let mut k: usize = 6;
            let mut ok: bool = true;
            while k < 10
                invariant
                    6 <= k <= 10,
                    i + 10 <= n,
                    n == v@.len(),
                    ok ==> forall|m: int| i + 6 <= m < i + k ==> crate::chars::is_digit_char(v@[m]),
                    !ok ==> exists|m: int|
                        i + 6 <= m < i + 10 && !crate::chars::is_digit_char(v@[m]),
                decreases 10 - k,
            {
                if !crate::chars::digit_char(v[i + k]) {
                    assert(!crate::chars::is_digit_char(v@[i + k]));
                    ok = false;
                }
                k = k + 1;
            }
            if ok {
                10
            } else {
                5
            }
        } else {
            5
        }
    } else {
        0
    }
}

/// Executable first US match.
fn us_find_exec(v: &Vec<char>) -> (r: Option<(usize, usize)>)
    ensures
        match r {
            Some(m) => us_find(v@) == Some((m.0 as int, m.1 as nat)) && m.0 + m.1 <= v@.len()
                && m.1 > 0,
            None => us_find(v@) is None,
        },
{
    let n = v.len();
    if n < 5 {
        return None;
    }
    let mut i: usize = 0;
    while i <= n - 5
        invariant
            i <= n - 4,
            n == v@.len(),
            n >= 5,
            us_find(v@) == us_find_from(v@, i as int),
        decreases n - i,
    {
        let m = us_match_at_exec(v, i);
        if m > 0 {
            return Some((i, m));
        }
        i = i + 1;
    }
    None
}

/// Executable zipcode-shape test for one token.
fn zip_shaped_exec(t: &Vec<char>) -> (r: bool)
    ensures
        r == zip_shaped(t@),
{
    let n = t.len();
    if !(n == 5 || n == 9 || n == 10) {
        return false;
    }
    let mut j: usize = 0;
    while j < n
        invariant
            j <= n,
            n == t@.len(),
            forall|k: int|
                0 <= k < j ==> crate::chars::is_digit_char(t@[k]) || t@[k] == '-' || t@[k] == ' ',
        decreases n - j,
    {
        let c = t[j];
        if !(crate::chars::digit_char(c) || c == '-' || c == ' ') {
            return false;
        }
        j = j + 1;
    }
    true
}

/// Executable scan for a zipcode-shaped token.
fn has_zip_token_exec(v: &Vec<char>) -> (r: bool)
    ensures
        r == has_zip_token(v@),
{
    let parts = crate::chars::split_class_vec(crate::chars::CharClass::Word, v);
    let mut k: usize = 0;
    while k < parts.len()
        invariant
            k <= parts@.len(),
            crate::chars::pieces_view(parts@) == crate::utils::tokens(v@),
            forall|j: int| 0 <= j < k ==> !zip_shaped(crate::utils::tokens(v@)[j]),
        decreases parts@.len() - k,
    {
        if zip_shaped_exec(&parts[k]) {
            assert(zip_shaped(crate::utils::tokens(v@)[k as int]));
            return true;
        }
        k = k + 1;
    }
    false
}

/// The pure zipcode scan: the matched text together with the country it
/// implies, mirroring [`zipcode_scan_spec`].
pub(crate) fn zipcode_scan(v: &Vec<char>) -> (r: Option<(Vec<char>, crate::nodes::Country)>)
    ensures
        match r {
            Some(m) => zipcode_scan_spec(v@) == Some((m.0@, m.1@)) && m.0@.len() > 0,
            None => zipcode_scan_spec(v@) is None,
        },
{
    if v.len() == 0 {
        return None;
    }
    match ca_find_exec(v) {
        Some(m) => {
            let text = crate::chars::sub_vec(v, m.0, m.0 + m.1);
            Some((text, crate::nodes::country::canada()))
        },
        None => {
            if has_zip_token_exec(v) {
                match us_find_exec(v) {
                    Some(m) => {
                        let text = crate::chars::sub_vec(v, m.0, m.0 + m.1);
                        Some((text, crate::nodes::country::united_states()))
                    },
                    None => None,
                }
            } else {
                None
            }
        },
    }
}

} // verus!

verus! {

// ---------------------------------------------------------------------------
// The zipcode stage of the parser
// ---------------------------------------------------------------------------

/// What the zipcode stage does to a location: on a match it records the
/// zipcode and the implied country; otherwise it leaves everything as is.
pub open spec fn fill_zipcode_spec(
    l: crate::nodes::location::LocationV,
    s: Seq<char>,
) -> crate::nodes::location::LocationV {
    match zipcode_scan_spec(s) {
        Some(m) => crate::nodes::location::LocationV {
            zipcode: Some(ZipcodeV { zipcode: m.0 }),
            country: Some(m.1),
            ..l
        },
        None => l,
    }
}

/// What removing a zipcode from a remainder yields: every occurrence of the
/// matched text deleted, then the normalizer run again.
pub open spec fn remove_zipcode_spec(s: Seq<char>, z: Seq<char>) -> Seq<char> {
    crate::utils::clean_spec(
        if z.len() == 0 {
            s
        } else {
            crate::chars::replace_seq(s, z, Seq::empty())
        },
    )
}

impl crate::Parser {
    /// Try to extract a zipcode from the input: a Canadian postal code
    /// anywhere in the text first, which implies Canada; otherwise, if some
    /// token is zipcode-shaped, the first US zipcode pattern match, which
    /// implies the United States. On a match both the zipcode and the
    /// implied country are recorded.
    pub fn find_zipcode(&self, location: &mut crate::nodes::Location, input: &str)
        ensures
            final(location)@ == fill_zipcode_spec(old(location)@, input@),
    {
        let v = crate::chars::chars_vec(input);
        match zipcode_scan(&v) {
            Some(m) => {
                location.zipcode = Some(Zipcode { zipcode: crate::chars::string_of(&m.0) });
                location.country = Some(m.1);
            },
            None => {},
        }
    }

    /// Remove the matched zipcode text from the remainder and re-run the
    /// normalizer.
    pub fn remove_zipcode(&self, zipcode: &Zipcode, input: &mut String)
        ensures
            final(input)@ == remove_zipcode_spec(old(input)@, zipcode.zipcode@),
    {
        let p = crate::chars::chars_vec(zipcode.zipcode.as_str());
        if p.len() > 0 {
            let v = crate::chars::chars_vec(input.as_str());
            let empty: Vec<char> = Vec::new();
            let out = crate::chars::replace_in(&v, &p, &empty);
            *input = crate::chars::string_of(&out);
        }
        crate::utils::clean(input);
    }
}

} // verus!

verus! {

/// Zip length guard: when no Canadian pattern occurs and no token of the
/// text is zipcode-shaped — exactly five, nine or ten characters, all
/// digits, dashes or spaces — the zipcode stage extracts nothing, whatever
/// digit runs the text holds.
pub proof fn lemma_zip_length_guard(s: Seq<char>)
    requires
        ca_find(s) is None,
        forall|k: int|
            0 <= k < crate::utils::tokens(s).len() ==> !zip_shaped(crate::utils::tokens(s)[k]),
    ensures
        zipcode_scan_spec(s) is None,
{
    if has_zip_token(s) {
        let k = choose|k: int|
            0 <= k < crate::utils::tokens(s).len() && zip_shaped(crate::utils::tokens(s)[k]);
        assert(!zip_shaped(crate::utils::tokens(s)[k]));
    }
}

/// Canadian-postal priority: whenever the Canadian pattern matches anywhere
/// in the text, the zipcode stage returns that match and implies Canada —
/// whether or not a US-shaped match exists as well.
pub proof fn lemma_canadian_postal_priority(s: Seq<char>, m: (int, nat))
    requires
        s.len() > 0,
        ca_find(s) == Some(m),
    ensures
        zipcode_scan_spec(s) == Some((s.subrange(m.0, m.0 + m.1), crate::nodes::country::canada_v())),
{
}

} // verus!
