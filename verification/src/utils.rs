//! The normalizer and shared helpers: cleaning a raw location string,
//! tokenizing, and the candidate-country list for the resolvers.

use vstd::prelude::*;

use crate::chars::{
    chars_vec, class_spec, collapse_spaces, collapse_spaces_vec, contains_sub, digit_char,
    find_from, find_sub, is_digit_char, is_space_char, is_word_char, join_pieces, join_sep,
    matches_at, pieces_view, replace_in, replace_seq, segments, segments_vec, space_char,
    space_run, split_class, split_class_vec, string_of, strings_view, sub_vec, trim_ends,
    trim_lead, trim_trail, unique_pieces, unique_pieces_vec, word_char, CharClass,
};

verus! {

broadcast use vstd::string::group_string_axioms;

// ---------------------------------------------------------------------------
// Noise abbreviations: short all-consonant words and dotted initialisms
// ---------------------------------------------------------------------------

/// The consonant alphabet of noise words such as store or region codes.
pub open spec fn is_noise_consonant(c: char) -> bool {
    c == 'Q' || c == 'W' || c == 'R' || c == 'T' || c == 'P' || c == 'S' || c == 'D' || c == 'F'
        || c == 'G' || c == 'H' || c == 'K' || c == 'L' || c == 'Z' || c == 'X' || c == 'C'
        || c == 'V' || c == 'B' || c == 'N' || c == 'M'
}

/// Executable test for [`is_noise_consonant`].
pub fn noise_consonant(c: char) -> (r: bool)
    ensures
        r == is_noise_consonant(c),
{
    c == 'Q' || c == 'W' || c == 'R' || c == 'T' || c == 'P' || c == 'S' || c == 'D' || c == 'F'
        || c == 'G' || c == 'H' || c == 'K' || c == 'L' || c == 'Z' || c == 'X' || c == 'C'
        || c == 'V' || c == 'B' || c == 'N' || c == 'M'
}

/// An ASCII letter, as in the initialism alternative of the noise pattern.
pub open spec fn is_ascii_alpha(c: char) -> bool {
    ('a' <= c && c <= 'z') || ('A' <= c && c <= 'Z')
}

/// A prefix of exactly `k` noise consonants followed by a word boundary.
pub open spec fn consonant_word_at(s: Seq<char>, k: int) -> bool {
    &&& 0 <= k <= s.len()
    &&& forall|j: int| 0 <= j < k ==> is_noise_consonant(s[j])
    &&& (k == s.len() || !is_word_char(s[k]))
}

/// Length of the consonant-word match at the front of `s`: the longest of
/// five, four or three, matching the greedy bounded repetition.
pub open spec fn consonant_match(s: Seq<char>) -> nat {
    if consonant_word_at(s, 5) {
        5
    } else if consonant_word_at(s, 4) {
        4
    } else if consonant_word_at(s, 3) {
        3
    } else {
        0
    }
}

/// Length of the leading run of letter-dot pairs.
pub open spec fn pairs_run(s: Seq<char>) -> nat
    decreases s.len(),
{
    if s.len() >= 2 && is_ascii_alpha(s[0]) && s[1] == '.' {
        2 + pairs_run(s.skip(2))
    } else {
        0
    }
}

proof fn lemma_pairs_run(s: Seq<char>)
    ensures
        pairs_run(s) <= s.len(),
        pairs_run(s) % 2 == 0,
    decreases s.len(),
{
    if s.len() >= 2 && is_ascii_alpha(s[0]) && s[1] == '.' {
        lemma_pairs_run(s.skip(2));
    }
}

/// Length of the noise match at the front of `s`, without trailing
/// whitespace: a consonant word first, else three or more letter-dot pairs.
pub open spec fn abbrev_core(s: Seq<char>) -> nat {
    if consonant_match(s) > 0 {
        consonant_match(s)
    } else if pairs_run(s) >= 6 {
        pairs_run(s)
    } else {
        0
    }
}

/// Length of the noise match at the front of `s`, trailing whitespace
/// included.
pub open spec fn abbrev_len(s: Seq<char>) -> nat {
    if abbrev_core(s) > 0 {
        abbrev_core(s) + space_run(s.skip(abbrev_core(s) as int))
    } else {
        0
    }
}

proof fn lemma_abbrev_len(s: Seq<char>)
    ensures
        abbrev_len(s) <= s.len(),
        abbrev_len(s) >= abbrev_core(s),
    decreases s.len(),
{
    if abbrev_core(s) > 0 {
        lemma_pairs_run(s);
        crate::chars::lemma_space_run(s.skip(abbrev_core(s) as int));
    }
}

/// `s` with every noise abbreviation removed, scanning left to right.
/// `boundary` says whether a word boundary precedes the front of `s`.
pub open spec fn strip_abbrevs(s: Seq<char>, boundary: bool) -> Seq<char>
    decreases s.len(),
    via strip_abbrevs_dec
{
    if s.len() == 0 {
        Seq::empty()
    } else if boundary && abbrev_len(s) > 0 {
        strip_abbrevs(s.skip(abbrev_len(s) as int), !is_word_char(s[abbrev_len(s) - 1]))
    } else {
        seq![s[0]] + strip_abbrevs(s.skip(1), !is_word_char(s[0]))
    }
}

#[via_fn]
proof fn strip_abbrevs_dec(s: Seq<char>, boundary: bool) {
    lemma_abbrev_len(s);
}

/// Executable consonant-word check at a position.
fn consonant_word_at_exec(v: &Vec<char>, start: usize, k: usize) -> (r: bool)
    requires
        start <= v@.len(),
    ensures
        r == consonant_word_at(v@.skip(start as int), k as int),
{
    let n = v.len();
    if k > n - start {
        return false;
    }
    let mut j: usize = 0;
    while j < k
        invariant
            j <= k,
            start + k <= n,
            n == v@.len(),
            forall|i: int| 0 <= i < j ==> is_noise_consonant(v@.skip(start as int)[i]),
        decreases k - j,
    {
        if !noise_consonant(v[start + j]) {
            assert(v@.skip(start as int)[j as int] == v@[start + j]);
            return false;
        }
        assert(v@.skip(start as int)[j as int] == v@[start + j]);
        j = j + 1;
    }
    if start + k == n {
        true
    } else {
        let r = !word_char(v[start + k]);
        assert(v@.skip(start as int)[k as int] == v@[start + k]);
        r
    }
}

/// Executable letter-dot pair run length at a position.
fn pairs_run_exec(v: &Vec<char>, start: usize) -> (r: usize)
    requires
        start <= v@.len(),
    ensures
        r == pairs_run(v@.skip(start as int)),
        start + r <= v@.len(),
    decreases v@.len() - start,
{
    let n = v.len();
    if n - start >= 2 {
        let c0 = v[start];
        let c1 = v[start + 1];
        if (('a' <= c0 && c0 <= 'z') || ('A' <= c0 && c0 <= 'Z')) && c1 == '.' {
            assert(v@.skip(start as int)[0] == c0);
            assert(v@.skip(start as int)[1] == c1);
            let rest = pairs_run_exec(v, start + 2);
            assert(v@.skip(start as int).skip(2) =~= v@.skip(start + 2));
            proof {
                lemma_pairs_run(v@.skip(start + 2));
            }
            return 2 + rest;
        }
    }
    proof {
        if v@.skip(start as int).len() >= 2 {
            assert(v@.skip(start as int)[0] == v@[start as int]);
            assert(v@.skip(start as int)[1] == v@[start + 1]);
        }
    }
    0
}

/// Executable abbreviation-match length at a position, trailing whitespace
/// included.
fn abbrev_len_exec(v: &Vec<char>, start: usize) -> (r: usize)
    requires
        start <= v@.len(),
    ensures
        r == abbrev_len(v@.skip(start as int)),
        start + r <= v@.len(),
{
    let ghost suf = v@.skip(start as int);
    let n = v.len();
    let mut core: usize = 0;
    if consonant_word_at_exec(v, start, 5) {
        core = 5;
    } else if consonant_word_at_exec(v, start, 4) {
        core = 4;
    } else if consonant_word_at_exec(v, start, 3) {
        core = 3;
    } else {
        let pr = pairs_run_exec(v, start);
        if pr >= 6 {
            core = pr;
        }
    }
    assert(core == abbrev_core(suf));
    if core == 0 {
        return 0;
    }
    proof {
        lemma_pairs_run(suf);
        assert(consonant_word_at(suf, 5) ==> 5 <= suf.len());
        assert(consonant_word_at(suf, 4) ==> 4 <= suf.len());
        assert(consonant_word_at(suf, 3) ==> 3 <= suf.len());
    }
    assert(start + core <= v@.len());
    let mut e: usize = start + core;
    while e < n && space_char(v[e])
        invariant
            start + core <= e <= n,
            n == v@.len(),
            forall|j: int| start + core <= j < e ==> is_space_char(v@[j]),
        decreases n - e,
    {
        e = e + 1;
    }
    proof {
        let tail = suf.skip(core as int);
        assert forall|j: int| 0 <= j < e - start - core implies is_space_char(tail[j]) by {
            assert(tail[j] == v@[start + core + j]);
        }
        if e - start - core < tail.len() {
            assert(tail[e - start - core] == v@[e as int]);
        }
        crate::chars::lemma_space_run_is(tail, e - start - core);
    }
    e - start
}

/// Executable abbreviation stripping, mirroring [`strip_abbrevs`].
fn strip_abbrevs_vec(v: &Vec<char>) -> (r: Vec<char>)
    ensures
        r@ == strip_abbrevs(v@, true),
{
    let mut r: Vec<char> = Vec::new();
    let mut i: usize = 0;
    let mut boundary: bool = true;
    assert(v@.skip(0) =~= v@);
    assert(r@ + strip_abbrevs(v@, true) =~= strip_abbrevs(v@, true));
    while i < v.len()
        invariant
            i <= v@.len(),
            r@ + strip_abbrevs(v@.skip(i as int), boundary) == strip_abbrevs(v@, true),
        decreases v@.len() - i,
    {
        let ghost pre = r@;
        let ghost suf = v@.skip(i as int);
        let ml = if boundary {
            abbrev_len_exec(v, i)
        } else {
            0
        };
        if boundary && ml > 0 {
            assert(suf[ml - 1] == v@[i + ml - 1]);
            boundary = !word_char(v[i + ml - 1]);
            i = i + ml;
            assert(suf.skip(ml as int) =~= v@.skip(i as int));
        } else {
            r.push(v[i]);
            assert(r@ =~= pre + seq![suf[0]]);
            assert(suf.skip(1) =~= v@.skip(i + 1));
            assert(pre + (seq![suf[0]] + strip_abbrevs(suf.skip(1), !is_word_char(suf[0]))) =~= pre
                + seq![suf[0]] + strip_abbrevs(suf.skip(1), !is_word_char(suf[0])));
            boundary = !word_char(v[i]);
            i = i + 1;
        }
    }
    assert(v@.skip(i as int) =~= Seq::<char>::empty());
    assert(r@ + strip_abbrevs(Seq::<char>::empty(), boundary) =~= r@);
    r
}

} // verus!

verus! {

// ---------------------------------------------------------------------------
// Bracketed spans
// ---------------------------------------------------------------------------

/// The first bracketed span: the first `(` together with the first `)` after
/// it. `None` when no such pair exists.
pub open spec fn bracket_span(s: Seq<char>) -> Option<(int, int)> {
    match find_sub(s, seq!['(']) {
        Some(i) => match find_from(s, seq![')'], i + 1) {
            Some(j) => Some((i, j)),
            None => None,
        },
        None => None,
    }
}

/// Some character of `s` between positions `i` and `j` inclusive is a digit.
pub open spec fn span_has_digit(s: Seq<char>, i: int, j: int) -> bool {
    exists|k: int| i <= k <= j && 0 <= k < s.len() && is_digit_char(s[k])
}

/// Every bracketed span removed, scanning left to right.
pub open spec fn strip_brackets(s: Seq<char>) -> Seq<char>
    decreases s.len(),
    via strip_brackets_dec
{
    match bracket_span(s) {
        Some(span) => s.take(span.0) + strip_brackets(s.skip(span.1 + 1)),
        None => s,
    }
}

#[via_fn]
proof fn strip_brackets_dec(s: Seq<char>) {
    crate::chars::lemma_find_from_props(s, seq!['('], 0);
    match find_sub(s, seq!['(']) {
        Some(i) => {
            crate::chars::lemma_find_from_props(s, seq![')'], i + 1);
        },
        None => {},
    }
}

/// Executable search for the first bracketed span.
fn bracket_span_exec(v: &Vec<char>) -> (r: Option<(usize, usize)>)
    ensures
        match r {
            Some(p) => bracket_span(v@) == Some((p.0 as int, p.1 as int)) && p.0 < p.1 < v@.len(),
            None => bracket_span(v@) is None,
        },
{
    let open = one_char_vec('(');
    let close = one_char_vec(')');
    let n = v.len();
    proof {
        crate::chars::lemma_find_from_props(v@, open@, 0);
    }
    match crate::chars::find_in(v, &open) {
        Some(i) => {
            assert(i < n);
            proof {
                crate::chars::lemma_find_from_props(v@, close@, i + 1);
            }
            match find_from_exec(v, &close, i + 1) {
                Some(j) => {
                    assert(matches_at(v@, seq![')'], j as int));
                    Some((i, j))
                },
                None => None,
            }
        },
        None => None,
    }
}

/// A one-character vector.
pub fn one_char_vec(c: char) -> (r: Vec<char>)
    ensures
        r@ =~= seq![c],
{
    let mut r: Vec<char> = Vec::new();
    r.push(c);
    r
}

/// Executable search for a pattern starting at a given position.
fn find_from_exec(v: &Vec<char>, pat: &Vec<char>, from: usize) -> (r: Option<usize>)
    requires
        pat@.len() > 0,
    ensures
        crate::chars::opt_int(r) == find_from(v@, pat@, from as int),
        match r {
            Some(j) => from <= j && j + pat@.len() <= v@.len(),
            None => true,
        },
{
    let n = v.len();
    if from > n {
        assert(find_from(v@, pat@, from as int) is None);
        return None;
    }
    let rest = sub_vec(v, from, n);
    assert(rest@ =~= v@.skip(from as int));
    let r = crate::chars::find_in(&rest, pat);
    proof {
        crate::chars::lemma_find_from_props(rest@, pat@, 0);
        lemma_find_shift(v@, pat@, from as int);
    }
    match r {
        Some(k) => Some(k + from),
        None => None,
    }
}

/// Searching a suffix is searching the whole text from that position on.
proof fn lemma_find_shift(s: Seq<char>, pat: Seq<char>, from: int)
    requires
        pat.len() > 0,
        from >= 0,
    ensures
        find_from(s, pat, from) == match find_sub(s.skip(if from <= s.len() {
            from
        } else {
            s.len() as int
        }), pat) {
            Some(k) => Some(k + if from <= s.len() {
                from
            } else {
                s.len() as int
            }),
            None => None::<int>,
        },
{
    let f = if from <= s.len() {
        from
    } else {
        s.len() as int
    };
    let suf = s.skip(f);
    crate::chars::lemma_find_from_props(suf, pat, 0);
    crate::chars::lemma_find_from_props(s, pat, from);
    if from > s.len() {
        assert(suf.len() == 0);
        assert(find_sub(suf, pat) is None);
        assert(find_from(s, pat, from) is None);
    } else {
        match find_sub(suf, pat) {
            Some(k) => {
                assert(matches_at(suf, pat, k));
                assert(suf.subrange(k, k + pat.len()) =~= s.subrange(f + k, f + k + pat.len()));
                assert(matches_at(s, pat, f + k));
                match find_from(s, pat, from) {
                    Some(j) => {
                        assert(j <= f + k);
                        if j < f + k {
                            assert(matches_at(s, pat, j));
                            assert(suf.subrange(j - f, j - f + pat.len()) =~= s.subrange(
                                j,
                                j + pat.len(),
                            ));
                            assert(matches_at(suf, pat, j - f));
                            assert(false);
                        }
                    },
                    None => {
                        assert(!matches_at(s, pat, f + k));
                        assert(false);
                    },
                }
            },
            None => {
                match find_from(s, pat, from) {
                    Some(j) => {
                        assert(matches_at(s, pat, j));
                        assert(suf.subrange(j - f, j - f + pat.len()) =~= s.subrange(
                            j,
                            j + pat.len(),
                        ));
                        assert(matches_at(suf, pat, j - f));
                        assert(false);
                    },
                    None => {},
                }
            },
        }
    }
}

/// Executable digit search in an inclusive span.
fn span_has_digit_exec(v: &Vec<char>, i: usize, j: usize) -> (r: bool)
    requires
        j < v@.len(),
    ensures
        r == span_has_digit(v@, i as int, j as int),
{
    let n = v.len();
    let mut k: usize = i;
    while k <= j
        invariant
            i <= k,
            j < v@.len(),
            n == v@.len(),
            forall|m: int| i <= m < k ==> !is_digit_char(v@[m]),
        decreases j + 1 - k,
    {
        if digit_char(v[k]) {
            assert(is_digit_char(v@[k as int]));
            return true;
        }
        k = k + 1;
    }
    false
}

/// Executable bracket stripping, mirroring [`strip_brackets`].
fn strip_brackets_vec(v: &Vec<char>) -> (r: Vec<char>)
    ensures
        r@ == strip_brackets(v@),
{
    let mut r: Vec<char> = Vec::new();
    let mut rest: Vec<char> = sub_vec(v, 0, v.len());
    assert(rest@ =~= v@);
    assert(r@ + strip_brackets(v@) =~= strip_brackets(v@));
    loop
        invariant
            r@ + strip_brackets(rest@) == strip_brackets(v@),
        decreases rest@.len() + 1,
    {
        let ghost pre = r@;
        match bracket_span_exec(&rest) {
            Some(span) => {
                let rl = rest.len();
                assert(span.1 < rl);
                let head = sub_vec(&rest, 0, span.0);
                assert(head@ =~= rest@.take(span.0 as int));
                crate::chars::extend_chars(&mut r, &head);
                let next = sub_vec(&rest, span.1 + 1, rl);
                assert(next@ =~= rest@.skip(span.1 + 1));
                assert(pre + (rest@.take(span.0 as int) + strip_brackets(next@)) =~= pre
                    + rest@.take(span.0 as int) + strip_brackets(next@));
                rest = next;
            },
            None => {
                crate::chars::extend_chars(&mut r, &rest);
                return r;
            },
        }
    }
}

} // verus!

verus! {

// ---------------------------------------------------------------------------
// The normalizer
// ---------------------------------------------------------------------------

/// The bracket rule of the normalizer: bracketed spans are removed only when
/// the first one holds a digit (store numbers, zip fragments); a bracketed
/// span without digits is kept.
pub open spec fn bracket_stage(s: Seq<char>) -> Seq<char> {
    match bracket_span(s) {
        Some(span) => if span_has_digit(s, span.0, span.1) {
            strip_brackets(s)
        } else {
            s
        },
        None => s,
    }
}

/// What [`clean`] computes: token substitutions, noise-abbreviation removal,
/// the bracket rule, end trimming, separator normalization to `", "`,
/// abbreviation refolds, whitespace collapapsing, dash repairs, and
/// first-occurrence deduplication of comma segments.
pub open spec fn clean_spec(s: Seq<char>) -> Seq<char> {
    let a = replace_seq(s, "'s"@, "s"@);
    let b = replace_seq(a, "St. "@, "Saint "@);
    let c = replace_seq(b, "Ft. "@, "Fort "@);
    let d = replace_seq(c, "FT. "@, "FORT "@);
    let e = strip_abbrevs(d, true);
    let f = bracket_stage(e);
    let g = trim_trail(trim_lead(f));
    let h = join_sep(split_class(CharClass::Keep, g), ", "@);
    let i = replace_seq(h, "St,"@, "St."@);
    let j = replace_seq(i, "Ft,"@, "Ft."@);
    let k = collapse_spaces(j);
    let l = replace_seq(k, " - "@, "|-|"@);
    let m = replace_seq(l, "- "@, "-"@);
    let n = replace_seq(m, "|-|"@, " - "@);
    let o = replace_seq(n, ", , "@, ", "@);
    let p = replace_seq(o, "--"@, "-"@);
    join_sep(unique_pieces(segments(p, ", "@)), ", "@)
}

/// Executable bracket rule.
fn bracket_stage_vec(v: &Vec<char>) -> (r: Vec<char>)
    ensures
        r@ == bracket_stage(v@),
{
    match bracket_span_exec(v) {
        Some(span) => {
            if span_has_digit_exec(v, span.0, span.1) {
                strip_brackets_vec(v)
            } else {
                sub_vec(v, 0, v.len())
            }
        },
        None => sub_vec(v, 0, v.len()),
    }
}

/// Replacement with string-literal pattern and replacement.
fn replace_lit(v: &Vec<char>, pat: &str, rep: &str) -> (r: Vec<char>)
    requires
        pat@.len() > 0,
    ensures
        r@ == replace_seq(v@, pat@, rep@),
{
    let p = chars_vec(pat);
    let q = chars_vec(rep);
    replace_in(v, &p, &q)
}

/// Remove useless noise from a location string: values in brackets with
/// digits, upper-case noise words, repeated comma segments, stray separators
/// and whitespace. The exact transformation is [`clean_spec`].
pub fn clean(s: &mut String)
    ensures
        final(s)@ == clean_spec(old(s)@),
{
    proof {
        reveal_strlit("'s");
        reveal_strlit("St. ");
        reveal_strlit("Ft. ");
        reveal_strlit("FT. ");
        reveal_strlit("St,");
        reveal_strlit("St.");
        reveal_strlit("Ft,");
        reveal_strlit("Ft.");
        reveal_strlit(", ");
        reveal_strlit(" - ");
        reveal_strlit("|-|");
        reveal_strlit("- ");
        reveal_strlit("-");
        reveal_strlit(", , ");
        reveal_strlit("--");
    }
    let v0 = chars_vec(s.as_str());
    let a = replace_lit(&v0, "'s", "s");
    let b = replace_lit(&a, "St. ", "Saint ");
    let c = replace_lit(&b, "Ft. ", "Fort ");
    let d = replace_lit(&c, "FT. ", "FORT ");
    let e = strip_abbrevs_vec(&d);
    let f = bracket_stage_vec(&e);
    let g = trim_ends(&f);
    let sep = chars_vec(", ");
    let pieces = split_class_vec(CharClass::Keep, &g);
    let h = join_pieces(&pieces, &sep);
    let i = replace_lit(&h, "St,", "St.");
    let j = replace_lit(&i, "Ft,", "Ft.");
    let k = collapse_spaces_vec(&j);
    let l = replace_lit(&k, " - ", "|-|");
    let m = replace_lit(&l, "- ", "-");
    let n = replace_lit(&m, "|-|", " - ");
    let o = replace_lit(&n, ", , ", ", ");
    let p = replace_lit(&o, "--", "-");
    let segs = segments_vec(&p, &sep);
    let uniq = unique_pieces_vec(&segs);
    let out = join_pieces(&uniq, &sep);
    *s = string_of(&out);
}

// ---------------------------------------------------------------------------
// Tokenization
// ---------------------------------------------------------------------------

/// The tokens of `s`: its maximal runs of letters and digits.
pub open spec fn tokens(s: Seq<char>) -> Seq<Seq<char>> {
    split_class(CharClass::Word, s)
}

/// Split a string at every non-alphanumeric character and drop the empty
/// parts: the tokens of the string.
pub fn split(s: &str) -> (r: Vec<String>)
    ensures
        strings_view(r@) == tokens(s@),
{
    let v = chars_vec(s);
    let pieces = split_class_vec(CharClass::Word, &v);
    let mut r: Vec<String> = Vec::new();
    let mut i: usize = 0;
    while i < pieces.len()
        invariant
            i <= pieces@.len(),
            strings_view(r@) == pieces_view(pieces@).take(i as int),
        decreases pieces@.len() - i,
    {
        let piece = string_of(&pieces[i]);
        assert(piece@ == pieces_view(pieces@)[i as int]);
        let ghost pre = r@;
        r.push(piece);
        proof {
            assert(strings_view(pre) == pieces_view(pieces@).take(i as int));
            assert(strings_view(pre).len() == pre.len());
            assert(pieces_view(pieces@).take(i as int).len() == i);
            assert(pre.len() == i);
            assert forall|j: int| 0 <= j < i + 1 implies strings_view(r@)[j] == pieces_view(
                pieces@,
            ).take(i + 1)[j] by {
                if j < i {
                    assert(strings_view(pre)[j] == pieces_view(pieces@).take(i as int)[j]);
                    assert(r@[j] == pre[j]);
                } else {
                    assert(r@[j]@ == pieces_view(pieces@)[i as int]);
                }
            }
            assert(strings_view(r@) =~= pieces_view(pieces@).take(i + 1));
        }
        i = i + 1;
    }
    assert(strings_view(r@) =~= pieces_view(pieces@).take(pieces@.len() as int));
    assert(pieces_view(pieces@).take(pieces@.len() as int) =~= pieces_view(pieces@));
    r
}

} // verus!

verus! {

// ---------------------------------------------------------------------------
// Candidate countries and diacritic folding
// ---------------------------------------------------------------------------

/// The candidate-country views: the given country alone, else the United
/// States and Canada in that order.
pub open spec fn candidate_countries(country: Option<crate::nodes::country::CountryV>) -> Seq<
    crate::nodes::country::CountryV,
> {
    match country {
        Some(c) => seq![c],
        None => seq![
            crate::nodes::country::united_states_v(),
            crate::nodes::country::canada_v(),
        ],
    }
}

/// The countries a resolver should consider: the known country alone, or the
/// United States and Canada in that order.
pub fn get_countries(country: &Option<crate::nodes::Country>) -> (r: Vec<crate::nodes::Country>)
    ensures
        r@.len() == candidate_countries(match country {
            Some(c) => Some(c@),
            None => None,
        }).len(),
        forall|i: int|
            0 <= i < r@.len() ==> r@[i]@ == candidate_countries(
                match country {
                    Some(c) => Some(c@),
                    None => None,
                },
            )[i],
{
    let mut r: Vec<crate::nodes::Country> = Vec::new();
    match country {
        Some(c) => {
            r.push(c.duplicate());
        },
        None => {
            r.push(crate::nodes::country::united_states());
            r.push(crate::nodes::country::canada());
        },
    }
    r
}

/// What the ASCII transliteration of a character sequence returns; the
/// result depends on the characters alone. Only the trusted wrapper below
/// gives this name a meaning.
pub uninterp spec fn folded(s: Seq<char>) -> Seq<char>;

/// Relies on `unidecode::unidecode`: Unicode-to-ASCII transliteration
/// (diacritic removal), a pure function of the input text. Its documentation
/// guarantees that every ASCII character is mapped to itself, so a text that
/// is already ASCII comes back unchanged.
#[verifier::external_body]
fn fold_ascii(s: &String) -> (r: String)
    ensures
        r@ == folded(s@),
        (forall|i: int| 0 <= i < s@.len() ==> (s@[i] as u32) < 128) ==> r@ == s@,
{
    unidecode::unidecode(s)
}

/// The diacritic-folding pass over a location: the city name and the state
/// name are transliterated to ASCII, everything else is unchanged.
pub open spec fn decode_spec(l: crate::nodes::location::LocationV) -> (
    crate::nodes::location::LocationV
) {
    crate::nodes::location::LocationV {
        city: match l.city {
            Some(c) => Some(crate::nodes::city::CityV { name: folded(c.name), state: c.state }),
            None => None,
        },
        state: match l.state {
            Some(s) => Some(crate::nodes::state::StateV { name: folded(s.name), code: s.code }),
            None => None,
        },
        country: l.country,
        zipcode: l.zipcode,
        address: l.address,
    }
}

/// Fold the accents out of the resolved city and state names.
pub fn decode(location: &mut crate::nodes::Location)
    ensures
        final(location)@ == decode_spec(old(location)@),
{
    let city = match &location.city {
        Some(c) => Some(crate::nodes::City {
            name: fold_ascii(&c.name),
            state: match &c.state {
                Some(s) => Some(s.clone()),
                None => None,
            },
        }),
        None => None,
    };
    location.city = city;
    let state = match &location.state {
        Some(s) => Some(crate::nodes::State { name: fold_ascii(&s.name), code: s.code.clone() }),
        None => None,
    };
    location.state = state;
}

} // verus!

verus! {

// ---------------------------------------------------------------------------
// Normalization as a fixed point on comma-separated plain text
// ---------------------------------------------------------------------------

/// A plain character: an ASCII letter, an ASCII digit or a single space.
pub open spec fn is_plain_char(c: char) -> bool {
    ('a' <= c && c <= 'z') || ('A' <= c && c <= 'Z') || ('0' <= c && c <= '9') || c == ' '
}

/// Text without dots and without runs of three noise consonants passes the
/// noise-abbreviation scanner unchanged.
proof fn lemma_strip_abbrevs_plain(s: Seq<char>, boundary: bool)
    requires
        forall|i: int| 0 <= i < s.len() ==> s[i] != '.',
        forall|i: int|
            #![trigger s[i]]
            0 <= i && i + 2 < s.len() ==> !(is_noise_consonant(s[i]) && is_noise_consonant(
                s[i + 1],
            ) && is_noise_consonant(s[i + 2])),
    ensures
        strip_abbrevs(s, boundary) == s,
    decreases s.len(),
{
    if s.len() == 0 {
        assert(strip_abbrevs(s, boundary) =~= s);
    } else {
        assert(abbrev_core(s) == 0) by {
            if consonant_match(s) > 0 {
                // A consonant-word match starts with three noise consonants,
                // which the requires rule out.
                assert(is_noise_consonant(s[0]) && is_noise_consonant(s[1]) && is_noise_consonant(
                    s[2],
                ));
                assert(0 + 2 < s.len());
            }
            if pairs_run(s) >= 6 {
                assert(s[1] == '.');
            }
        }
        let t = s.skip(1);
        assert forall|i: int| 0 <= i < t.len() implies t[i] != '.' by {
            assert(t[i] == s[i + 1]);
        }
        assert forall|i: int|
            #![trigger t[i]]
            0 <= i && i + 2 < t.len() implies !(is_noise_consonant(t[i]) && is_noise_consonant(
            t[i + 1],
        ) && is_noise_consonant(t[i + 2])) by {
            assert(t[i] == s[i + 1]);
            assert(t[i + 1] == s[i + 2]);
            assert(t[i + 2] == s[i + 3]);
        }
        lemma_strip_abbrevs_plain(t, !crate::chars::is_word_char(s[0]));
        assert(seq![s[0]] + t =~= s);
    }
}

} // verus!

verus! {

} // verus!

verus! {

/// One space inserted after every comma: the shape the separator pass gives
/// a comma-separated text before whitespace collapsing.
pub open spec fn widen(s: Seq<char>) -> Seq<char>
    decreases s.len(),
{
    if s.len() == 0 {
        Seq::empty()
    } else if s[0] == ',' {
        seq![',', ' '] + widen(s.skip(1))
    } else {
        seq![s[0]] + widen(s.skip(1))
    }
}

/// The character discipline of comma-separated plain text: plain characters
/// and commas only, every comma followed by a space, no space before a comma,
/// no two spaces in a row, and no run of three noise consonants.
pub open spec fn csv_chars(s: Seq<char>) -> bool {
    &&& forall|i: int| 0 <= i < s.len() ==> is_plain_char(s[i]) || s[i] == ','
    &&& forall|i: int|
        #![trigger s[i]]
        0 <= i < s.len() && s[i] == ',' ==> i + 1 < s.len() && s[i + 1] == ' '
    &&& forall|i: int|
        #![trigger s[i]]
        0 <= i && i + 1 < s.len() ==> !(s[i] == ' ' && s[i + 1] == ' ')
    &&& forall|i: int|
        #![trigger s[i]]
        0 <= i && i + 1 < s.len() ==> !(s[i] == ' ' && s[i + 1] == ',')
    &&& forall|i: int|
        #![trigger s[i]]
        0 <= i && i + 2 < s.len() ==> !(is_noise_consonant(s[i]) && is_noise_consonant(s[i + 1])
            && is_noise_consonant(s[i + 2]))
}

/// Comma-separated plain text: the character discipline, no space or comma
/// at either end, no segment ending in `St` or `Ft`, and no repeated
/// segment.
pub open spec fn is_plain_csv(s: Seq<char>) -> bool {
    &&& csv_chars(s)
    &&& s.len() > 0 ==> s[0] != ' ' && s[0] != ','
    &&& s.len() > 0 ==> s[s.len() - 1] != ' '
    &&& !crate::chars::contains_sub(s, "St,"@)
    &&& !crate::chars::contains_sub(s, "Ft,"@)
    &&& forall|i: int, j: int|
        0 <= i < j < segments(s, ", "@).len() ==> segments(s, ", "@)[i] != segments(s, ", "@)[j]
}

/// The character discipline survives dropping a prefix.
proof fn lemma_csv_chars_skip(s: Seq<char>, n: int)
    requires
        csv_chars(s),
        0 <= n <= s.len(),
    ensures
        csv_chars(s.skip(n)),
{
    let t = s.skip(n);
    assert forall|i: int| 0 <= i < t.len() implies is_plain_char(t[i]) || t[i] == ',' by {
        assert(t[i] == s[i + n]);
    }
    assert forall|i: int|
        #![trigger t[i]]
        0 <= i < t.len() && t[i] == ',' implies i + 1 < t.len() && t[i + 1] == ' ' by {
        assert(t[i] == s[i + n]);
        if i + 1 < t.len() {
            assert(t[i + 1] == s[i + n + 1]);
        } else {
            assert(i + n == s.len() - 1 || i + n + 1 < s.len());
        }
    }
    assert forall|i: int|
        #![trigger t[i]]
        0 <= i && i + 1 < t.len() implies !(t[i] == ' ' && t[i + 1] == ' ') by {
        assert(t[i] == s[i + n]);
        assert(t[i + 1] == s[i + n + 1]);
    }
    assert forall|i: int|
        #![trigger t[i]]
        0 <= i && i + 1 < t.len() implies !(t[i] == ' ' && t[i + 1] == ',') by {
        assert(t[i] == s[i + n]);
        assert(t[i + 1] == s[i + n + 1]);
    }
    assert forall|i: int|
        #![trigger t[i]]
        0 <= i && i + 2 < t.len() implies !(is_noise_consonant(t[i]) && is_noise_consonant(
        t[i + 1],
    ) && is_noise_consonant(t[i + 2])) by {
        assert(t[i] == s[i + n]);
        assert(t[i + 1] == s[i + n + 1]);
        assert(t[i + 2] == s[i + n + 2]);
    }
}

/// The separator pass turns disciplined comma text into its widened form:
/// splitting at the commas and joining with `", "` inserts one space after
/// every comma.
proof fn lemma_split_join_csv(s: Seq<char>)
    requires
        csv_chars(s),
        s.len() > 0 ==> s[0] != ',',
    ensures
        join_sep(split_class(CharClass::Keep, s), ", "@) == widen(s),
    decreases s.len(),
{
    reveal_strlit(", ");
    crate::chars::lemma_find_from_props(s, seq![','], 0);
    if s.len() == 0 {
        assert(split_class(CharClass::Keep, s) =~= Seq::<Seq<char>>::empty());
        assert(join_sep(Seq::<Seq<char>>::empty(), ", "@) =~= widen(s));
    } else {
        match find_sub(s, seq![',']) {
            None => {
                // No comma: one single piece, and widening changes nothing.
                assert forall|j: int| 0 <= j < s.len() implies class_spec(
                    CharClass::Keep,
                    s[j],
                ) by {
                    assert(!matches_at(s, seq![','], j));
                    assert(s.subrange(j, j + 1) =~= seq![s[j]]);
                    assert(s[j] != ',');
                    assert(is_plain_char(s[j]));
                }
                crate::chars::lemma_run_len_is(CharClass::Keep, s, s.len() as int);
                assert(s.take(s.len() as int) =~= s);
                assert(s.skip(s.len() as int) =~= Seq::<char>::empty());
                assert(split_class(CharClass::Keep, Seq::<char>::empty()) =~= Seq::<
                    Seq<char>,
                >::empty());
                assert(split_class(CharClass::Keep, s) =~= seq![s]);
                assert(crate::chars::join_tail(seq![s], ", "@, 1) =~= Seq::<char>::empty());
                assert(join_sep(seq![s], ", "@) =~= s + Seq::<char>::empty());
                assert(s + Seq::<char>::empty() =~= s);
                lemma_widen_no_comma(s);
            },
            Some(p) => {
                assert(matches_at(s, seq![','], p));
                assert(s.subrange(p, p + 1) == seq![',']);
                assert(s.subrange(p, p + 1)[0] == s[p]);
                assert(seq![','][0] == ',');
                assert(s[p] == ',');
                assert(p > 0) by {
                    assert(s[0] != ',');
                }
                // The leading run is exactly the text before the comma.
                assert forall|j: int| 0 <= j < p implies class_spec(CharClass::Keep, s[j]) by {
                    assert(!matches_at(s, seq![','], j));
                    assert(s.subrange(j, j + 1) =~= seq![s[j]]);
                    assert(s[j] != ',');
                    assert(is_plain_char(s[j]));
                }
                crate::chars::lemma_run_len_is(CharClass::Keep, s, p);
                assert(split_class(CharClass::Keep, s) == seq![s.take(p)] + split_class(
                    CharClass::Keep,
                    s.skip(p),
                ));
                // The comma itself is skipped by the splitter.
                assert(s.skip(p)[0] == ',');
                assert(!class_spec(CharClass::Keep, ','));
                assert(s.skip(p).skip(1) =~= s.skip(p + 1));
                assert(split_class(CharClass::Keep, s.skip(p)) == split_class(
                    CharClass::Keep,
                    s.skip(p + 1),
                ));
                // The suffix after the comma starts with the mandated space.
                assert(p + 1 < s.len() && s[p + 1] == ' ');
                let rest = s.skip(p + 1);
                lemma_csv_chars_skip(s, p + 1);
                assert(rest[0] == ' ');
                lemma_split_join_csv(rest);
                lemma_segments_like_split(rest);
                crate::chars::lemma_join_cons(
                    s.take(p),
                    split_class(CharClass::Keep, rest),
                    ", "@,
                );
                // Widening distributes over the decomposition at the comma.
                lemma_widen_decompose(s, p);
            },
        }
    }
}

/// A comma-free text widens to itself.
proof fn lemma_widen_no_comma(s: Seq<char>)
    requires
        forall|i: int| 0 <= i < s.len() ==> s[i] != ',',
    ensures
        widen(s) == s,
    decreases s.len(),
{
    if s.len() == 0 {
        assert(widen(s) =~= s);
    } else {
        let t = s.skip(1);
        assert forall|i: int| 0 <= i < t.len() implies t[i] != ',' by {
            assert(t[i] == s[i + 1]);
        }
        lemma_widen_no_comma(t);
        assert(seq![s[0]] + t =~= s);
    }
}

/// Widening a text whose first comma sits at `p`: the prefix stays, the
/// comma gains a space, and the suffix is widened on its own.
proof fn lemma_widen_decompose(s: Seq<char>, p: int)
    requires
        0 <= p < s.len(),
        s[p] == ',',
        forall|j: int| 0 <= j < p ==> s[j] != ',',
    ensures
        widen(s) == s.take(p) + ", "@ + widen(s.skip(p + 1)),
    decreases p,
{
    reveal_strlit(", ");
    if p == 0 {
        assert(s.take(0) =~= Seq::<char>::empty());
        assert(seq![',', ' '] =~= ", "@);
        assert(widen(s) == seq![',', ' '] + widen(s.skip(1)));
        assert(Seq::<char>::empty() + ", "@ + widen(s.skip(1)) =~= seq![',', ' '] + widen(
            s.skip(1),
        ));
    } else {
        assert(s[0] != ',');
        let t = s.skip(1);
        assert(t[p - 1] == s[p]);
        assert forall|j: int| 0 <= j < p - 1 implies t[j] != ',' by {
            assert(t[j] == s[j + 1]);
        }
        lemma_widen_decompose(t, p - 1);
        assert(t.skip(p) =~= s.skip(p + 1));
        assert(seq![s[0]] + t.take(p - 1) =~= s.take(p));
        assert(seq![s[0]] + (t.take(p - 1) + ", "@ + widen(t.skip(p))) =~= (seq![s[0]] + t.take(
            p - 1,
        )) + ", "@ + widen(t.skip(p)));
    }
}

/// A splitter piece count fact kept local to the induction: the split of a
/// nonempty text has at least one piece.
proof fn lemma_segments_like_split(s: Seq<char>)
    requires
        s.len() > 0,
        class_spec(CharClass::Keep, s[0]),
    ensures
        split_class(CharClass::Keep, s).len() >= 1,
{
    crate::chars::lemma_run_len(CharClass::Keep, s);
}

} // verus!

verus! {

/// Widening inserts only spaces, so a space-free, comma-free-start pattern
/// absent from the text is absent from the widened text too.
proof fn lemma_widen_absence(s: Seq<char>, a: char, b: char)
    requires
        csv_chars(s),
        a != ' ' && a != ',',
        b != ' ' && b != ',',
        !crate::chars::contains_sub(s, seq![a, b, ',']),
    ensures
        !crate::chars::contains_sub(widen(s), seq![a, b, ',']),
    decreases s.len(),
{
    let pat = seq![a, b, ','];
    crate::chars::lemma_contains_iff_matches(widen(s), pat);
    crate::chars::lemma_contains_iff_matches(s, pat);
    if s.len() == 0 {
        assert(widen(s) =~= Seq::<char>::empty());
        if crate::chars::contains_sub(widen(s), pat) {
            let i = choose|i: int| matches_at(widen(s), pat, i);
        }
    } else {
        let t = s.skip(1);
        lemma_csv_chars_skip(s, 1);
        assert forall|k: int| !matches_at(t, pat, k) by {
            if matches_at(t, pat, k) {
                assert(t.subrange(k, k + 3) =~= s.subrange(k + 1, k + 4));
                assert(matches_at(s, pat, k + 1));
            }
        }
        crate::chars::lemma_contains_iff_matches(t, pat);
        lemma_widen_absence(t, a, b);
        crate::chars::lemma_contains_iff_matches(widen(t), pat);
        if crate::chars::contains_sub(widen(s), pat) {
            let i = choose|i: int| matches_at(widen(s), pat, i);
            if s[0] == ',' {
                let w = seq![',', ' '] + widen(t);
                assert(widen(s) == w);
                if i == 0 {
                    crate::chars::lemma_match_char(w, pat, 0, 0);
                    assert(w[0] == a);
                } else if i == 1 {
                    crate::chars::lemma_match_char(w, pat, 1, 0);
                    assert(w[1] == a);
                } else {
                    assert(w.subrange(i, i + 3) =~= widen(t).subrange(i - 2, i + 1));
                    assert(matches_at(widen(t), pat, i - 2));
                }
            } else {
                let w = seq![s[0]] + widen(t);
                assert(widen(s) == w);
                if i == 0 {
                    // A match at the front means the text itself starts with
                    // the pattern: the widened tail starts like the tail.
                    crate::chars::lemma_match_char(w, pat, 0, 0);
                    crate::chars::lemma_match_char(w, pat, 0, 1);
                    crate::chars::lemma_match_char(w, pat, 0, 2);
                    assert(s[0] == a);
                    assert(widen(t)[0] == b);
                    assert(widen(t)[1] == ',');
                    assert(t.len() > 0);
                    assert(widen(t)[0] == t[0] || (t[0] == ',' && widen(t)[0] == ','));
                    assert(t[0] == b) by {
                        if t[0] == ',' {
                            assert(widen(t) == seq![',', ' '] + widen(t.skip(1)));
                            assert(widen(t)[0] == ',');
                        } else {
                            assert(widen(t) == seq![t[0]] + widen(t.skip(1)));
                            assert(widen(t)[0] == t[0]);
                        }
                    }
                    let t2 = t.skip(1);
                    assert(widen(t) == seq![t[0]] + widen(t2));
                    assert(widen(t2)[0] == ',');
                    assert(t2.len() > 0) by {
                        if t2.len() == 0 {
                            assert(widen(t2) =~= Seq::<char>::empty());
                        }
                    }
                    assert(t2[0] == ',') by {
                        if t2[0] != ',' {
                            assert(widen(t2) == seq![t2[0]] + widen(t2.skip(1)));
                            assert(widen(t2)[0] == t2[0]);
                        }
                    }
                    assert(s.subrange(0, 3) =~= seq![s[0], t[0], t2[0]]);
                    assert(seq![s[0], t[0], t2[0]] =~= pat);
                    assert(matches_at(s, pat, 0));
                } else {
                    assert(w.subrange(i, i + 3) =~= widen(t).subrange(i - 1, i + 2));
                    assert(matches_at(widen(t), pat, i - 1));
                }
            }
        }
    }
}

/// Collapsing the widened text recovers the text: the inserted spaces merge
/// with the mandated space after each comma, and nothing else changes.
proof fn lemma_collapse_widen(s: Seq<char>)
    requires
        csv_chars(s),
    ensures
        crate::chars::collapse_spaces(widen(s)) == s,
    decreases s.len(),
{
    if s.len() == 0 {
        assert(widen(s) =~= Seq::<char>::empty());
        assert(crate::chars::collapse_spaces(Seq::<char>::empty()) =~= s);
    } else if s[0] == ',' {
        // The comma is followed by a space in the text, so the widened text
        // starts with a comma and two spaces that collapse back to one.
        assert(s.len() >= 2 && s[1] == ' ');
        let t = s.skip(1);
        let t2 = s.skip(2);
        assert(t[0] == ' ');
        assert(t.skip(1) =~= t2);
        assert(widen(t) == seq![' '] + widen(t2));
        assert(widen(s) == seq![',', ' '] + widen(t));
        let w = widen(s);
        assert(w == seq![',', ' ', ' '] + widen(t2)) by {
            assert(seq![',', ' '] + (seq![' '] + widen(t2)) =~= seq![',', ' ', ' '] + widen(t2));
        }
        assert(!crate::chars::is_space_char(','));
        assert(w[0] == ',');
        assert(crate::chars::collapse_spaces(w) == seq![','] + crate::chars::collapse_spaces(
            w.skip(1),
        ));
        let w1 = w.skip(1);
        assert(w1 =~= seq![' ', ' '] + widen(t2));
        // The run of spaces at the front of the remainder is exactly two.
        assert(widen(t2).len() > 0 ==> widen(t2)[0] != ' ') by {
            if t2.len() > 0 {
                assert(s[2] != ' ');
                assert(s[2] != ' ' && t2[0] == s[2]);
                if t2[0] == ',' {
                    assert(widen(t2) == seq![',', ' '] + widen(t2.skip(1)));
                } else {
                    assert(widen(t2) == seq![t2[0]] + widen(t2.skip(1)));
                }
            } else {
                assert(widen(t2) =~= Seq::<char>::empty());
            }
        }
        assert(crate::chars::is_space_char(w1[0]));
        assert(crate::chars::space_run(w1) == 2) by {
            assert(w1[0] == ' ' && w1[1] == ' ');
            assert(2 < w1.len() ==> !crate::chars::is_space_char(w1[2])) by {
                if 2 < w1.len() {
                    assert(w1[2] == widen(t2)[0]);
                }
            }
            crate::chars::lemma_space_run_is(w1, 2);
        }
        assert(crate::chars::collapse_spaces(w1) == seq![' '] + crate::chars::collapse_spaces(
            w1.skip(2),
        ));
        assert(w1.skip(2) =~= widen(t2));
        lemma_csv_chars_skip(s, 2);
        lemma_collapse_widen(t2);
        assert(seq![','] + (seq![' '] + t2) =~= s);
    } else if s[0] == ' ' {
        // A lone space: the next character is neither space nor comma, so
        // the run stays a single space.
        let t = s.skip(1);
        assert(widen(s) == seq![' '] + widen(t));
        let w = widen(s);
        assert(crate::chars::space_run(w) == 1) by {
            assert(w[0] == ' ');
            assert(1 < w.len() ==> !crate::chars::is_space_char(w[1])) by {
                if 1 < w.len() {
                    assert(t.len() > 0) by {
                        if t.len() == 0 {
                            assert(widen(t) =~= Seq::<char>::empty());
                        }
                    }
                    assert(t[0] == s[1]);
                    assert(s[1] != ' ');
                    assert(s[1] != ',');
                    assert(widen(t) == seq![t[0]] + widen(t.skip(1)));
                    assert(w[1] == t[0]);
                }
            }
            crate::chars::lemma_space_run_is(w, 1);
        }
        assert(crate::chars::is_space_char(w[0]));
        assert(crate::chars::collapse_spaces(w) == seq![' '] + crate::chars::collapse_spaces(
            w.skip(1),
        ));
        assert(w.skip(1) =~= widen(t));
        lemma_csv_chars_skip(s, 1);
        lemma_collapse_widen(t);
        assert(seq![' '] + t =~= s);
    } else {
        let t = s.skip(1);
        assert(widen(s) == seq![s[0]] + widen(t));
        let w = widen(s);
        assert(!crate::chars::is_space_char(w[0])) by {
            assert(is_plain_char(s[0]) || s[0] == ',');
            assert(w[0] == s[0]);
        }
        assert(crate::chars::collapse_spaces(w) == seq![w[0]] + crate::chars::collapse_spaces(
            w.skip(1),
        ));
        assert(w.skip(1) =~= widen(t));
        lemma_csv_chars_skip(s, 1);
        lemma_collapse_widen(t);
        assert(seq![s[0]] + t =~= s);
    }
}

} // verus!

verus! {

/// The normalizer leaves comma-separated plain text unchanged: every stage
/// of [`clean_spec`] either does not fire or undoes the previous stage's
/// widening.
pub proof fn lemma_clean_csv_fixpoint(s: Seq<char>)
    requires
        is_plain_csv(s),
    ensures
        clean_spec(s) == s,
{
    reveal_strlit("'s");
    reveal_strlit("St. ");
    reveal_strlit("Ft. ");
    reveal_strlit("FT. ");
    reveal_strlit("St,");
    reveal_strlit("Ft,");
    reveal_strlit(", ");
    reveal_strlit(" - ");
    reveal_strlit("|-|");
    reveal_strlit("- ");
    reveal_strlit("-");
    reveal_strlit(", , ");
    reveal_strlit("--");
    assert forall|i: int| 0 <= i < s.len() implies s[i] != '\'' && s[i] != '.' && s[i] != '-'
        && s[i] != '|' && s[i] != '(' by {
        assert(is_plain_char(s[i]) || s[i] == ',');
    }
    crate::chars::lemma_absent_char(s, "'s"@, 0);
    crate::chars::lemma_replace_absent(s, "'s"@, "s"@);
    crate::chars::lemma_absent_char(s, "St. "@, 2);
    crate::chars::lemma_replace_absent(s, "St. "@, "Saint "@);
    crate::chars::lemma_absent_char(s, "Ft. "@, 2);
    crate::chars::lemma_replace_absent(s, "Ft. "@, "Fort "@);
    crate::chars::lemma_absent_char(s, "FT. "@, 2);
    crate::chars::lemma_replace_absent(s, "FT. "@, "FORT "@);
    lemma_strip_abbrevs_plain(s, true);
    assert(bracket_stage(s) == s) by {
        crate::chars::lemma_absent_char(s, seq!['('], 0);
        crate::chars::lemma_find_from_props(s, seq!['('], 0);
        assert(find_sub(s, seq!['(']) is None);
    }
    assert(trim_trail(trim_lead(s)) == s) by {
        if s.len() > 0 {
            assert(is_plain_char(s[0]) || s[0] == ',');
            assert(!crate::chars::is_trim_char(s[0]));
            let z = s.len() - 1;
            assert(s[z] != ',') by {
                if s[z] == ',' {
                    assert(z + 1 < s.len());
                }
            }
            assert(is_plain_char(s[z]) || s[z] == ',');
            assert(!crate::chars::is_trim_char(s[z]));
        }
    }
    lemma_split_join_csv(s);
    let w = widen(s);
    assert("St,"@ =~= seq!['S', 't', ',']);
    lemma_widen_absence(s, 'S', 't');
    crate::chars::lemma_replace_absent(w, "St,"@, "St."@);
    assert("Ft,"@ =~= seq!['F', 't', ',']);
    lemma_widen_absence(s, 'F', 't');
    crate::chars::lemma_replace_absent(w, "Ft,"@, "Ft."@);
    lemma_collapse_widen(s);
    crate::chars::lemma_absent_char(s, " - "@, 1);
    crate::chars::lemma_replace_absent(s, " - "@, "|-|"@);
    crate::chars::lemma_absent_char(s, "- "@, 0);
    crate::chars::lemma_replace_absent(s, "- "@, "-"@);
    crate::chars::lemma_absent_char(s, "|-|"@, 0);
    crate::chars::lemma_replace_absent(s, "|-|"@, " - "@);
    assert(!crate::chars::contains_sub(s, ", , "@)) by {
        crate::chars::lemma_contains_iff_matches(s, ", , "@);
        if crate::chars::contains_sub(s, ", , "@) {
            let i = choose|i: int| matches_at(s, ", , "@, i);
            crate::chars::lemma_match_char(s, ", , "@, i, 1);
            crate::chars::lemma_match_char(s, ", , "@, i, 2);
            assert(s[i + 1] == ' ' && s[i + 2] == ',');
        }
    }
    crate::chars::lemma_replace_absent(s, ", , "@, ", "@);
    crate::chars::lemma_absent_char(s, "--"@, 0);
    crate::chars::lemma_replace_absent(s, "--"@, "-"@);
    let segs = segments(s, ", "@);
    assert forall|i: int| 0 <= i < segs.len() implies !Seq::<Seq<char>>::empty().contains(
        segs[i],
    ) by {
        if Seq::<Seq<char>>::empty().contains(segs[i]) {
            let k = choose|k: int| 0 <= k < 0 && Seq::<Seq<char>>::empty()[k] == segs[i];
        }
    }
    crate::chars::lemma_unique_distinct(segs, Seq::empty());
    crate::chars::lemma_join_segments(s, ", "@);
}

/// Idempotent normalization, on the texts the normalizer itself produces in
/// comma-separated plain form: once a cleaned text is in that class,
/// cleaning again changes nothing.
pub proof fn lemma_clean_idempotent(s: Seq<char>)
    requires
        is_plain_csv(clean_spec(s)),
    ensures
        clean_spec(clean_spec(s)) == clean_spec(s),
{
    lemma_clean_csv_fixpoint(clean_spec(s));
}

} // verus!
