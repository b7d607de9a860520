//! Character classes and text primitives that the normalizer and the
//! resolvers share. Text is handled as `Vec<char>` with `Seq<char>` as its
//! mathematical model; every executable function mirrors a spec function.

use vstd::prelude::*;

verus! {

broadcast use vstd::string::group_string_axioms;

// ---------------------------------------------------------------------------
// Character classes
// ---------------------------------------------------------------------------

/// A character is an ASCII decimal digit.
pub open spec fn is_digit_char(c: char) -> bool {
    '0' <= c && c <= '9'
}

/// Executable test for [`is_digit_char`].
pub fn digit_char(c: char) -> (r: bool)
    ensures
        r == is_digit_char(c),
{
    '0' <= c && c <= '9'
}

/// Whether a character outside the ASCII range has the Unicode `Alphabetic`
/// property. Only the trusted wrapper below gives this name a meaning.
pub uninterp spec fn unicode_letter(c: char) -> bool;

/// A character counts as a letter: ASCII letters are listed exactly, other
/// characters go by the Unicode `Alphabetic` property.
pub open spec fn is_letter_char(c: char) -> bool {
    if (c as u32) < 128 {
        ('a' <= c && c <= 'z') || ('A' <= c && c <= 'Z')
    } else {
        unicode_letter(c)
    }
}

/// Relies on `char::is_alphabetic`: true exactly for characters with the
/// Unicode `Alphabetic` property, which within ASCII are the letters a-z and
/// A-Z.
#[verifier::external_body]
pub fn letter_char(c: char) -> (r: bool)
    ensures
        r == is_letter_char(c),
        (c as u32) >= 128 ==> r == unicode_letter(c),
{
    c.is_alphabetic()
}

/// Whether a character outside the ASCII range has the Unicode `White_Space`
/// property. Only the trusted wrapper below gives this name a meaning.
pub uninterp spec fn unicode_space(c: char) -> bool;

/// A character counts as whitespace: ASCII whitespace is listed exactly,
/// other characters go by the Unicode `White_Space` property.
pub open spec fn is_space_char(c: char) -> bool {
    if (c as u32) < 128 {
        c == ' ' || c == '\t' || c == '\n' || c == '\u{0b}' || c == '\u{0c}' || c == '\r'
    } else {
        unicode_space(c)
    }
}

/// Relies on `char::is_whitespace`: true exactly for characters with the
/// Unicode `White_Space` property, which within ASCII are space, tab, line
/// feed, vertical tab, form feed and carriage return.
#[verifier::external_body]
pub fn space_char(c: char) -> (r: bool)
    ensures
        r == is_space_char(c),
        (c as u32) >= 128 ==> r == unicode_space(c),
{
    c.is_whitespace()
}

/// A character that tokenization keeps: a letter or a digit.
pub open spec fn is_word_char(c: char) -> bool {
    is_letter_char(c) || is_digit_char(c)
}

/// Executable test for [`is_word_char`].
pub fn word_char(c: char) -> (r: bool)
    ensures
        r == is_word_char(c),
{
    letter_char(c) || digit_char(c)
}

/// A character the normalizer keeps in place: a letter, a digit, whitespace
/// or a hyphen. Everything else becomes a segment separator.
pub open spec fn is_keep_char(c: char) -> bool {
    is_word_char(c) || is_space_char(c) || c == '-'
}

/// Executable test for [`is_keep_char`].
pub fn keep_char(c: char) -> (r: bool)
    ensures
        r == is_keep_char(c),
{
    word_char(c) || space_char(c) || c == '-'
}

/// Punctuation the normalizer strips from the ends of the text.
pub open spec fn is_trim_char(c: char) -> bool {
    is_space_char(c) || c == '-' || c == ',' || c == ';' || c == ':' || c == '_' || c == '.'
        || c == '?' || c == '!' || c == '/'
}

/// Executable test for [`is_trim_char`].
pub fn trim_char(c: char) -> (r: bool)
    ensures
        r == is_trim_char(c),
{
    space_char(c) || c == '-' || c == ',' || c == ';' || c == ':' || c == '_' || c == '.'
        || c == '?' || c == '!' || c == '/'
}

/// ASCII lower-casing of a single character; other characters are unchanged.
pub open spec fn lower_char(c: char) -> char {
    if 'A' <= c && c <= 'Z' {
        ((c as u32) + 32) as char
    } else {
        c
    }
}

/// Executable ASCII lower-casing.
pub fn to_lower_char(c: char) -> (r: char)
    ensures
        r == lower_char(c),
{
    if 'A' <= c && c <= 'Z' {
        (((c as u32) + 32) as u8) as char
    } else {
        c
    }
}

/// ASCII upper-casing of a single character; other characters are unchanged.
pub open spec fn upper_char(c: char) -> char {
    if 'a' <= c && c <= 'z' {
        ((c as u32) - 32) as char
    } else {
        c
    }
}

/// Executable ASCII upper-casing.
pub fn to_upper_char(c: char) -> (r: char)
    ensures
        r == upper_char(c),
{
    if 'a' <= c && c <= 'z' {
        (((c as u32) - 32) as u8) as char
    } else {
        c
    }
}

// ---------------------------------------------------------------------------
// Conversions between Rust strings and character vectors
// ---------------------------------------------------------------------------

/// The characters of a string slice, in order.
pub fn chars_vec(s: &str) -> (r: Vec<char>)
    ensures
        r@ == s@,
{
    let n = s.unicode_len();
    let mut r: Vec<char> = Vec::new();
    let mut i: usize = 0;
    while i < n
        invariant
            i <= n,
            n == s@.len(),
            r@ == s@.take(i as int),
        decreases n - i,
    {
        r.push(s.get_char(i));
        i = i + 1;
        assert(r@ =~= s@.take(i as int));
    }
    assert(r@ =~= s@);
    r
}

/// Relies on `String::push`: appends one character to the string.
#[verifier::external_body]
fn push_char(s: &mut String, c: char)
    ensures
        final(s)@ == old(s)@.push(c),
{
    s.push(c)
}

/// A freshly allocated string holding exactly the given characters.
pub fn string_of(v: &Vec<char>) -> (r: String)
    ensures
        r@ == v@,
{
    let mut r = String::new();
    let mut i: usize = 0;
    while i < v.len()
        invariant
            i <= v@.len(),
            r@ == v@.take(i as int),
        decreases v@.len() - i,
    {
        push_char(&mut r, v[i]);
        i = i + 1;
        assert(r@ =~= v@.take(i as int));
    }
    assert(r@ =~= v@);
    r
}

// ---------------------------------------------------------------------------
// ASCII case folding of whole sequences
// ---------------------------------------------------------------------------

/// ASCII lower-casing of a character sequence.
pub open spec fn lower_seq(s: Seq<char>) -> Seq<char> {
    Seq::new(s.len(), |i: int| lower_char(s[i]))
}

/// Executable ASCII lower-casing of a character vector.
pub fn to_lower_vec(v: &Vec<char>) -> (r: Vec<char>)
    ensures
        r@ == lower_seq(v@),
{
    let mut r: Vec<char> = Vec::new();
    let mut i: usize = 0;
    while i < v.len()
        invariant
            i <= v@.len(),
            r@ == lower_seq(v@).take(i as int),
        decreases v@.len() - i,
    {
        r.push(to_lower_char(v[i]));
        i = i + 1;
        assert(r@ =~= lower_seq(v@).take(i as int));
    }
    assert(r@ =~= lower_seq(v@));
    r
}

/// ASCII upper-casing of a character sequence.
pub open spec fn upper_seq(s: Seq<char>) -> Seq<char> {
    Seq::new(s.len(), |i: int| upper_char(s[i]))
}

/// Executable ASCII upper-casing of a character vector.
pub fn to_upper_vec(v: &Vec<char>) -> (r: Vec<char>)
    ensures
        r@ == upper_seq(v@),
{
    let mut r: Vec<char> = Vec::new();
    let mut i: usize = 0;
    while i < v.len()
        invariant
            i <= v@.len(),
            r@ == upper_seq(v@).take(i as int),
        decreases v@.len() - i,
    {
        r.push(to_upper_char(v[i]));
        i = i + 1;
        assert(r@ =~= upper_seq(v@).take(i as int));
    }
    assert(r@ =~= upper_seq(v@));
    r
}

} // verus!

verus! {

// ---------------------------------------------------------------------------
// Substring search
// ---------------------------------------------------------------------------

/// The pattern occurs in `s` at position `i`.
pub open spec fn matches_at(s: Seq<char>, pat: Seq<char>, i: int) -> bool {
    0 <= i && i + pat.len() <= s.len() && s.subrange(i, i + pat.len() as int) == pat
}

/// The first position at or after `i` where the pattern occurs, if any.
/// An empty pattern is never looked for.
pub open spec fn find_from(s: Seq<char>, pat: Seq<char>, i: int) -> Option<int>
    decreases s.len() - i,
{
    if pat.len() == 0 || i < 0 || i + pat.len() > s.len() {
        None
    } else if matches_at(s, pat, i) {
        Some(i)
    } else {
        find_from(s, pat, i + 1)
    }
}

/// The first position where the pattern occurs, if any.
pub open spec fn find_sub(s: Seq<char>, pat: Seq<char>) -> Option<int> {
    find_from(s, pat, 0)
}

/// The pattern occurs somewhere in `s`.
pub open spec fn contains_sub(s: Seq<char>, pat: Seq<char>) -> bool {
    find_sub(s, pat) is Some
}

/// An `Option<usize>` as its mathematical counterpart.
pub open spec fn opt_int(o: Option<usize>) -> Option<int> {
    match o {
        Some(i) => Some(i as int),
        None => None,
    }
}

/// Whether the pattern occurs at position `i`, by direct comparison.
pub fn matches_at_exec(s: &Vec<char>, pat: &Vec<char>, i: usize) -> (r: bool)
    requires
        i + pat@.len() <= s@.len(),
    ensures
        r == matches_at(s@, pat@, i as int),
{
    let n: usize = s.len();
    let mut k: usize = 0;
    while k < pat.len()
        invariant
            k <= pat@.len(),
            i + pat@.len() <= s@.len(),
            s@.len() == n,
            forall|j: int| 0 <= j < k ==> s@[i + j] == pat@[j],
        decreases pat@.len() - k,
    {
        if s[i + k] != pat[k] {
            assert(s@.subrange(i as int, i + pat@.len() as int)[k as int] != pat@[k as int]);
            return false;
        }
        k = k + 1;
    }
    assert(s@.subrange(i as int, i + pat@.len() as int) =~= pat@);
    true
}

/// First occurrence of the pattern in `s`, scanning left to right.
pub fn find_in(s: &Vec<char>, pat: &Vec<char>) -> (r: Option<usize>)
    requires
        pat@.len() > 0,
    ensures
        opt_int(r) == find_sub(s@, pat@),
{
    if pat.len() > s.len() {
        return None;
    }
    let limit = s.len() - pat.len();
    let mut i: usize = 0;
    while i <= limit
        invariant
            pat@.len() > 0,
            pat@.len() <= s@.len(),
            limit == s@.len() - pat@.len(),
            limit <= usize::MAX - 1,
            i <= limit + 1,
            find_sub(s@, pat@) == find_from(s@, pat@, i as int),
        decreases limit + 1 - i,
    {
        if matches_at_exec(s, pat, i) {
            return Some(i);
        }
        i = i + 1;
    }
    None
}

/// Executable test for [`contains_sub`].
pub fn contains_in(s: &Vec<char>, pat: &Vec<char>) -> (r: bool)
    requires
        pat@.len() > 0,
    ensures
        r == contains_sub(s@, pat@),
{
    find_in(s, pat).is_some()
}

/// The pattern is a prefix of `s`.
pub open spec fn starts_with(s: Seq<char>, pat: Seq<char>) -> bool {
    matches_at(s, pat, 0)
}

/// Executable test for [`starts_with`].
pub fn starts_with_exec(s: &Vec<char>, pat: &Vec<char>) -> (r: bool)
    ensures
        r == starts_with(s@, pat@),
{
    if pat.len() > s.len() {
        return false;
    }
    matches_at_exec(s, pat, 0)
}

/// Two character vectors hold the same characters.
pub fn eq_chars(a: &Vec<char>, b: &Vec<char>) -> (r: bool)
    ensures
        r == (a@ == b@),
{
    if a.len() != b.len() {
        assert(a@ != b@);
        return false;
    }
    let mut k: usize = 0;
    while k < a.len()
        invariant
            k <= a@.len(),
            a@.len() == b@.len(),
            forall|j: int| 0 <= j < k ==> a@[j] == b@[j],
        decreases a@.len() - k,
    {
        if a[k] != b[k] {
            return false;
        }
        k = k + 1;
    }
    assert(a@ =~= b@);
    true
}

// ---------------------------------------------------------------------------
// Replacement
// ---------------------------------------------------------------------------

/// Every non-overlapping occurrence of `pat`, scanning left to right,
/// replaced by `rep`.
pub open spec fn replace_seq(s: Seq<char>, pat: Seq<char>, rep: Seq<char>) -> Seq<char>
    decreases s.len(),
    when pat.len() > 0
{
    if s.len() == 0 {
        s
    } else if matches_at(s, pat, 0) {
        rep + replace_seq(s.skip(pat.len() as int), pat, rep)
    } else {
        seq![s[0]] + replace_seq(s.skip(1), pat, rep)
    }
}

/// Executable replacement, mirroring [`replace_seq`].
pub fn replace_in(s: &Vec<char>, pat: &Vec<char>, rep: &Vec<char>) -> (r: Vec<char>)
    requires
        pat@.len() > 0,
    ensures
        r@ == replace_seq(s@, pat@, rep@),
{
    let mut r: Vec<char> = Vec::new();
    let mut i: usize = 0;
    assert(s@.skip(0) =~= s@);
    assert(r@ + replace_seq(s@, pat@, rep@) =~= replace_seq(s@, pat@, rep@));
    while i < s.len()
        invariant
            i <= s@.len(),
            pat@.len() > 0,
            replace_seq(s@, pat@, rep@) == r@ + replace_seq(s@.skip(i as int), pat@, rep@),
        decreases s@.len() - i,
    {
        let ghost pre = r@;
        if pat.len() <= s.len() - i && matches_at_exec(s, pat, i) {
            assert(matches_at(s@.skip(i as int), pat@, 0)) by {
                assert(s@.skip(i as int).subrange(0, pat@.len() as int)
                    =~= s@.subrange(i as int, i + pat@.len() as int));
            }
            let mut k: usize = 0;
            while k < rep.len()
                invariant
                    k <= rep@.len(),
                    r@ == pre + rep@.take(k as int),
                decreases rep@.len() - k,
            {
                r.push(rep[k]);
                k = k + 1;
                assert(r@ =~= pre + rep@.take(k as int));
            }
            assert(r@ =~= pre + rep@);
            assert(s@.skip(i as int).skip(pat@.len() as int) =~= s@.skip(i + pat@.len()));
            i = i + pat.len();
        } else {
            assert(!matches_at(s@.skip(i as int), pat@, 0)) by {
                if i + pat@.len() <= s@.len() {
                    assert(s@.skip(i as int).subrange(0, pat@.len() as int)
                        =~= s@.subrange(i as int, i + pat@.len() as int));
                }
            }
            r.push(s[i]);
            assert(r@ =~= pre + seq![s@[i as int]]);
            assert(s@.skip(i as int).skip(1) =~= s@.skip(i + 1));
            assert(seq![s@.skip(i as int)[0]] =~= seq![s@[i as int]]);
            i = i + 1;
        }
    }
    assert(s@.skip(i as int) =~= Seq::<char>::empty());
    assert(replace_seq(Seq::<char>::empty(), pat@, rep@) =~= Seq::<char>::empty());
    assert(r@ =~= r@ + Seq::<char>::empty());
    r
}

} // verus!

verus! {

// ---------------------------------------------------------------------------
// Small vector helpers
// ---------------------------------------------------------------------------

/// The views of a list of character vectors.
pub open spec fn pieces_view(ps: Seq<Vec<char>>) -> Seq<Seq<char>> {
    Seq::new(ps.len(), |i: int| ps[i]@)
}

/// Appends all characters of `src` to `r`.
pub fn extend_chars(r: &mut Vec<char>, src: &Vec<char>)
    ensures
        final(r)@ == old(r)@ + src@,
{
    let ghost pre = r@;
    let mut k: usize = 0;
    while k < src.len()
        invariant
            k <= src@.len(),
            r@ == pre + src@.take(k as int),
        decreases src@.len() - k,
    {
        r.push(src[k]);
        k = k + 1;
        assert(r@ =~= pre + src@.take(k as int));
    }
    assert(r@ =~= pre + src@);
}

/// A copy of the characters of `v` between two positions.
pub fn sub_vec(v: &Vec<char>, a: usize, b: usize) -> (r: Vec<char>)
    requires
        a <= b <= v@.len(),
    ensures
        r@ == v@.subrange(a as int, b as int),
{
    let mut r: Vec<char> = Vec::new();
    let mut k: usize = a;
    while k < b
        invariant
            a <= k <= b <= v@.len(),
            r@ == v@.subrange(a as int, k as int),
        decreases b - k,
    {
        r.push(v[k]);
        k = k + 1;
        assert(r@ =~= v@.subrange(a as int, k as int));
    }
    r
}

/// Whether one of the listed pieces holds exactly the given characters.
pub fn pieces_contain(ps: &Vec<Vec<char>>, x: &Vec<char>) -> (r: bool)
    ensures
        r == pieces_view(ps@).contains(x@),
{
    let mut i: usize = 0;
    while i < ps.len()
        invariant
            i <= ps@.len(),
            forall|j: int| 0 <= j < i ==> pieces_view(ps@)[j] != x@,
        decreases ps@.len() - i,
    {
        if eq_chars(&ps[i], x) {
            assert(pieces_view(ps@)[i as int] == x@);
            return true;
        }
        i = i + 1;
    }
    false
}

// ---------------------------------------------------------------------------
// Splitting into runs of a character class
// ---------------------------------------------------------------------------

/// The character classes the library splits on.
#[derive(Clone, Copy)]
pub enum CharClass {
    /// Letters and digits: tokenization.
    Word,
    /// Everything but whitespace: whitespace splitting.
    NonSpace,
    /// Letters, digits, whitespace and hyphens: the normalizer's separator pass.
    Keep,
}

/// Membership of a character in a class.
pub open spec fn class_spec(cl: CharClass, c: char) -> bool {
    match cl {
        CharClass::Word => is_word_char(c),
        CharClass::NonSpace => !is_space_char(c),
        CharClass::Keep => is_keep_char(c),
    }
}

/// Executable test for [`class_spec`].
pub fn class_test(cl: CharClass, c: char) -> (r: bool)
    ensures
        r == class_spec(cl, c),
{
    match cl {
        CharClass::Word => word_char(c),
        CharClass::NonSpace => !space_char(c),
        CharClass::Keep => keep_char(c),
    }
}

/// Length of the longest prefix of `s` whose characters are all in the class.
pub open spec fn run_len(cl: CharClass, s: Seq<char>) -> nat
    decreases s.len(),
{
    if s.len() == 0 || !class_spec(cl, s[0]) {
        0
    } else {
        1 + run_len(cl, s.skip(1))
    }
}

/// The run length is within bounds, covers only class characters, and stops
/// at the first character outside the class.
pub proof fn lemma_run_len(cl: CharClass, s: Seq<char>)
    ensures
        run_len(cl, s) <= s.len(),
        forall|j: int| 0 <= j < run_len(cl, s) ==> class_spec(cl, s[j]),
        run_len(cl, s) < s.len() ==> !class_spec(cl, s[run_len(cl, s) as int]),
    decreases s.len(),
{
    if s.len() > 0 && class_spec(cl, s[0]) {
        lemma_run_len(cl, s.skip(1));
        assert forall|j: int| 0 <= j < run_len(cl, s) implies class_spec(cl, s[j]) by {
            if j > 0 {
                assert(class_spec(cl, s.skip(1)[j - 1]));
            }
        }
    }
}

/// Any bound with the same three properties is the run length.
pub proof fn lemma_run_len_is(cl: CharClass, s: Seq<char>, k: int)
    requires
        0 <= k <= s.len(),
        forall|j: int| 0 <= j < k ==> class_spec(cl, s[j]),
        k < s.len() ==> !class_spec(cl, s[k]),
    ensures
        run_len(cl, s) == k,
    decreases s.len(),
{
    if s.len() == 0 {
    } else if k == 0 {
    } else {
        assert(class_spec(cl, s[0]));
        assert forall|j: int| 0 <= j < k - 1 implies class_spec(cl, s.skip(1)[j]) by {
            assert(class_spec(cl, s[j + 1]));
        }
        if k - 1 < s.skip(1).len() {
            assert(s.skip(1)[k - 1] == s[k]);
        }
        lemma_run_len_is(cl, s.skip(1), k - 1);
    }
}

/// The maximal runs of class characters in `s`, in order.
pub open spec fn split_class(cl: CharClass, s: Seq<char>) -> Seq<Seq<char>>
    decreases s.len(),
    via split_class_dec
{
    if s.len() == 0 {
        Seq::empty()
    } else if !class_spec(cl, s[0]) {
        split_class(cl, s.skip(1))
    } else {
        seq![s.take(run_len(cl, s) as int)] + split_class(cl, s.skip(run_len(cl, s) as int))
    }
}

#[via_fn]
proof fn split_class_dec(cl: CharClass, s: Seq<char>) {
    lemma_run_len(cl, s);
}

/// Executable splitter, mirroring [`split_class`].
pub fn split_class_vec(cl: CharClass, v: &Vec<char>) -> (r: Vec<Vec<char>>)
    ensures
        pieces_view(r@) == split_class(cl, v@),
{
    let mut r: Vec<Vec<char>> = Vec::new();
    let mut i: usize = 0;
    assert(v@.skip(0) =~= v@);
    assert(pieces_view(r@) + split_class(cl, v@) =~= split_class(cl, v@));
    while i < v.len()
        invariant
            i <= v@.len(),
            pieces_view(r@) + split_class(cl, v@.skip(i as int)) == split_class(cl, v@),
        decreases v@.len() - i,
    {
        let ghost pre = pieces_view(r@);
        if !class_test(cl, v[i]) {
            assert(v@.skip(i as int).skip(1) =~= v@.skip(i + 1));
            i = i + 1;
        } else {
            let start = i;
            i = i + 1;
            while i < v.len() && class_test(cl, v[i])
                invariant
                    start < i <= v@.len(),
                    forall|j: int| start <= j < i ==> class_spec(cl, v@[j]),
                decreases v@.len() - i,
            {
                i = i + 1;
            }
            let piece = sub_vec(v, start, i);
            proof {
                let suf = v@.skip(start as int);
                assert forall|j: int| 0 <= j < i - start implies class_spec(cl, suf[j]) by {
                    assert(suf[j] == v@[start + j]);
                }
                if i - start < suf.len() {
                    assert(suf[i - start] == v@[i as int]);
                }
                lemma_run_len_is(cl, suf, i - start);
                assert(piece@ =~= suf.take((i - start) as int));
                assert(suf.skip((i - start) as int) =~= v@.skip(i as int));
            }
            r.push(piece);
            assert(pieces_view(r@) =~= pre + seq![piece@]);
            assert(seq![piece@] + split_class(cl, v@.skip(i as int)) =~= split_class(
                cl,
                v@.skip(start as int),
            ));
            assert(pieces_view(r@) + split_class(cl, v@.skip(i as int)) =~= pre + (seq![piece@]
                + split_class(cl, v@.skip(i as int))));
        }
    }
    assert(v@.skip(i as int) =~= Seq::<char>::empty());
    assert(pieces_view(r@) + split_class(cl, v@.skip(i as int)) =~= pieces_view(r@));
    r
}

} // verus!

verus! {

// ---------------------------------------------------------------------------
// Joining pieces with a separator
// ---------------------------------------------------------------------------

/// The tail of a separated join: separator, piece, separator, piece, ...
pub open spec fn join_tail(ps: Seq<Seq<char>>, sep: Seq<char>, k: int) -> Seq<char>
    decreases ps.len() - k,
{
    if k < 0 || k >= ps.len() {
        Seq::empty()
    } else {
        sep + ps[k] + join_tail(ps, sep, k + 1)
    }
}

/// The pieces joined with the separator between them.
pub open spec fn join_sep(ps: Seq<Seq<char>>, sep: Seq<char>) -> Seq<char> {
    if ps.len() == 0 {
        Seq::empty()
    } else {
        ps[0] + join_tail(ps, sep, 1)
    }
}

/// Executable join, mirroring [`join_sep`].
pub fn join_pieces(ps: &Vec<Vec<char>>, sep: &Vec<char>) -> (r: Vec<char>)
    ensures
        r@ == join_sep(pieces_view(ps@), sep@),
{
    let mut r: Vec<char> = Vec::new();
    if ps.len() == 0 {
        assert(r@ =~= join_sep(pieces_view(ps@), sep@));
        return r;
    }
    extend_chars(&mut r, &ps[0]);
    assert(r@ =~= Seq::<char>::empty() + ps@[0]@);
    let mut k: usize = 1;
    while k < ps.len()
        invariant
            1 <= k <= ps@.len(),
            r@ + join_tail(pieces_view(ps@), sep@, k as int) == join_sep(pieces_view(ps@), sep@),
        decreases ps@.len() - k,
    {
        let ghost pre = r@;
        extend_chars(&mut r, sep);
        extend_chars(&mut r, &ps[k]);
        assert(r@ =~= pre + (sep@ + pieces_view(ps@)[k as int]));
        assert(pre + (sep@ + pieces_view(ps@)[k as int]) + join_tail(
            pieces_view(ps@),
            sep@,
            k + 1,
        ) =~= pre + join_tail(pieces_view(ps@), sep@, k as int));
        k = k + 1;
    }
    assert(r@ + join_tail(pieces_view(ps@), sep@, k as int) =~= r@);
    r
}

// ---------------------------------------------------------------------------
// First-occurrence facts about substring search
// ---------------------------------------------------------------------------

/// What a successful or failed search means, occurrence by occurrence.
pub proof fn lemma_find_from_props(s: Seq<char>, pat: Seq<char>, i: int)
    requires
        pat.len() > 0,
        i >= 0,
    ensures
        match find_from(s, pat, i) {
            Some(j) => i <= j && matches_at(s, pat, j) && (forall|k: int|
                i <= k < j ==> !matches_at(s, pat, k)),
            None => forall|k: int| i <= k ==> !matches_at(s, pat, k),
        },
    decreases s.len() - i,
{
    if i + pat.len() > s.len() {
        assert forall|k: int| i <= k implies !matches_at(s, pat, k) by {}
    } else if matches_at(s, pat, i) {
    } else {
        lemma_find_from_props(s, pat, i + 1);
    }
}

// ---------------------------------------------------------------------------
// Segments: splitting at every occurrence of a separator string
// ---------------------------------------------------------------------------

/// The parts of `s` between occurrences of `sep`, leftmost first. A text
/// without the separator is a single segment.
pub open spec fn segments(s: Seq<char>, sep: Seq<char>) -> Seq<Seq<char>>
    decreases s.len(),
    via segments_dec
{
    if sep.len() == 0 {
        seq![s]
    } else {
        match find_sub(s, sep) {
            Some(i) => seq![s.take(i)] + segments(s.skip(i + sep.len()), sep),
            None => seq![s],
        }
    }
}

#[via_fn]
proof fn segments_dec(s: Seq<char>, sep: Seq<char>) {
    if sep.len() > 0 {
        lemma_find_from_props(s, sep, 0);
    }
}

/// Executable segment split, mirroring [`segments`].
pub fn segments_vec(v: &Vec<char>, sep: &Vec<char>) -> (r: Vec<Vec<char>>)
    requires
        sep@.len() > 0,
    ensures
        pieces_view(r@) == segments(v@, sep@),
{
    let mut r: Vec<Vec<char>> = Vec::new();
    let mut rest: Vec<char> = sub_vec(v, 0, v.len());
    assert(rest@ =~= v@);
    loop
        invariant
            sep@.len() > 0,
            pieces_view(r@) + segments(rest@, sep@) == segments(v@, sep@),
        decreases rest@.len() + 1,
    {
        let ghost pre = pieces_view(r@);
        match find_in(&rest, sep) {
            Some(i) => {
                proof {
                    lemma_find_from_props(rest@, sep@, 0);
                }
                let rl = rest.len();
                assert(i + sep@.len() <= rl);
                let piece = sub_vec(&rest, 0, i);
                assert(piece@ =~= rest@.take(i as int));
                r.push(piece);
                let next = sub_vec(&rest, i + sep.len(), rl);
                assert(next@ =~= rest@.skip(i + sep@.len()));
                assert(pieces_view(r@) =~= pre + seq![rest@.take(i as int)]);
                assert(pre + (seq![rest@.take(i as int)] + segments(next@, sep@)) =~= pre + seq![
                    rest@.take(i as int),
                ] + segments(next@, sep@));
                rest = next;
            },
            None => {
                r.push(rest);
                assert(pieces_view(r@) =~= pre + seq![rest@]);
                return r;
            },
        }
    }
}

// ---------------------------------------------------------------------------
// Removing adjacent duplicates and keeping first occurrences
// ---------------------------------------------------------------------------

/// Adjacent equal pieces collapsed to one.
pub open spec fn dedup_adjacent(ps: Seq<Seq<char>>) -> Seq<Seq<char>>
    decreases ps.len(),
{
    if ps.len() == 0 {
        Seq::empty()
    } else if ps.len() == 1 {
        ps
    } else if ps[0] == ps[1] {
        dedup_adjacent(ps.skip(1))
    } else {
        seq![ps[0]] + dedup_adjacent(ps.skip(1))
    }
}

/// Executable adjacent dedup, mirroring [`dedup_adjacent`].
pub fn dedup_adjacent_vec(ps: &Vec<Vec<char>>) -> (r: Vec<Vec<char>>)
    ensures
        pieces_view(r@) == dedup_adjacent(pieces_view(ps@)),
{
    let mut r: Vec<Vec<char>> = Vec::new();
    let mut i: usize = 0;
    assert(pieces_view(ps@).skip(0) =~= pieces_view(ps@));
    assert(pieces_view(r@) + dedup_adjacent(pieces_view(ps@)) =~= dedup_adjacent(
        pieces_view(ps@),
    ));
    while i < ps.len()
        invariant
            i <= ps@.len(),
            pieces_view(r@) + dedup_adjacent(pieces_view(ps@).skip(i as int)) == dedup_adjacent(
                pieces_view(ps@),
            ),
        decreases ps@.len() - i,
    {
        let ghost pre = pieces_view(r@);
        let ghost suf = pieces_view(ps@).skip(i as int);
        if i + 1 < ps.len() && eq_chars(&ps[i], &ps[i + 1]) {
            assert(suf[0] == suf[1]);
            assert(suf.skip(1) =~= pieces_view(ps@).skip(i + 1));
        } else {
            let piece = sub_vec(&ps[i], 0, ps[i].len());
            assert(piece@ =~= pieces_view(ps@)[i as int]);
            r.push(piece);
            assert(pieces_view(r@) =~= pre + seq![suf[0]]);
            proof {
                if suf.len() == 1 {
                    assert(dedup_adjacent(suf) == suf);
                    assert(suf =~= seq![suf[0]] + dedup_adjacent(suf.skip(1)));
                } else {
                    assert(suf[1] == pieces_view(ps@)[i + 1]);
                }
                assert(suf.skip(1) =~= pieces_view(ps@).skip(i + 1));
                assert(pre + (seq![suf[0]] + dedup_adjacent(suf.skip(1))) =~= pre + seq![suf[0]]
                    + dedup_adjacent(suf.skip(1)));
            }
        }
        i = i + 1;
    }
    assert(pieces_view(ps@).skip(i as int) =~= Seq::<Seq<char>>::empty());
    assert(pieces_view(r@) + dedup_adjacent(Seq::<Seq<char>>::empty()) =~= pieces_view(r@));
    r
}

/// Only the first occurrence of each distinct piece kept, given what has been
/// seen already.
pub open spec fn unique_from(ps: Seq<Seq<char>>, seen: Seq<Seq<char>>) -> Seq<Seq<char>>
    decreases ps.len(),
{
    if ps.len() == 0 {
        Seq::empty()
    } else if seen.contains(ps[0]) {
        unique_from(ps.skip(1), seen)
    } else {
        seq![ps[0]] + unique_from(ps.skip(1), seen.push(ps[0]))
    }
}

/// Only the first occurrence of each distinct piece kept, in order.
pub open spec fn unique_pieces(ps: Seq<Seq<char>>) -> Seq<Seq<char>> {
    unique_from(ps, Seq::empty())
}

/// Executable first-occurrence filter, mirroring [`unique_pieces`].
pub fn unique_pieces_vec(ps: &Vec<Vec<char>>) -> (r: Vec<Vec<char>>)
    ensures
        pieces_view(r@) == unique_pieces(pieces_view(ps@)),
{
    let mut r: Vec<Vec<char>> = Vec::new();
    let mut i: usize = 0;
    assert(pieces_view(ps@).skip(0) =~= pieces_view(ps@));
    assert(pieces_view(r@) =~= Seq::<Seq<char>>::empty());
    assert(pieces_view(r@) + unique_from(pieces_view(ps@), pieces_view(r@)) =~= unique_pieces(
        pieces_view(ps@),
    ));
    while i < ps.len()
        invariant
            i <= ps@.len(),
            unique_pieces(pieces_view(ps@)) == pieces_view(r@) + unique_from(
                pieces_view(ps@).skip(i as int),
                pieces_view(r@),
            ),
        decreases ps@.len() - i,
    {
        let ghost pre = pieces_view(r@);
        let ghost suf = pieces_view(ps@).skip(i as int);
        if pieces_contain(&r, &ps[i]) {
            assert(suf.skip(1) =~= pieces_view(ps@).skip(i + 1));
            assert(suf[0] == pieces_view(ps@)[i as int]);
        } else {
            let piece = sub_vec(&ps[i], 0, ps[i].len());
            assert(piece@ =~= pieces_view(ps@)[i as int]);
            r.push(piece);
            assert(pieces_view(r@) =~= pre.push(suf[0]));
            assert(pieces_view(r@) =~= pre + seq![suf[0]]);
            assert(suf.skip(1) =~= pieces_view(ps@).skip(i + 1));
            assert(pre + (seq![suf[0]] + unique_from(suf.skip(1), pre.push(suf[0]))) =~= pre
                + seq![suf[0]] + unique_from(suf.skip(1), pre.push(suf[0])));
        }
        i = i + 1;
    }
    assert(pieces_view(ps@).skip(i as int) =~= Seq::<Seq<char>>::empty());
    assert(pieces_view(r@) + unique_from(Seq::<Seq<char>>::empty(), pieces_view(r@))
        =~= pieces_view(r@));
    r
}

// ---------------------------------------------------------------------------
// Trimming and whitespace collapsing
// ---------------------------------------------------------------------------

/// `s` without its leading run of trim punctuation and whitespace.
pub open spec fn trim_lead(s: Seq<char>) -> Seq<char>
    decreases s.len(),
{
    if s.len() > 0 && is_trim_char(s[0]) {
        trim_lead(s.skip(1))
    } else {
        s
    }
}

/// `s` without its trailing run of trim punctuation and whitespace.
pub open spec fn trim_trail(s: Seq<char>) -> Seq<char>
    decreases s.len(),
{
    if s.len() > 0 && is_trim_char(s[s.len() - 1]) {
        trim_trail(s.take(s.len() - 1))
    } else {
        s
    }
}

/// A leading run of trim characters is exactly what [`trim_lead`] removes.
proof fn lemma_trim_lead_is(s: Seq<char>, k: int)
    requires
        0 <= k <= s.len(),
        forall|j: int| 0 <= j < k ==> is_trim_char(s[j]),
        k < s.len() ==> !is_trim_char(s[k]),
    ensures
        trim_lead(s) == s.skip(k),
    decreases s.len(),
{
    if k == 0 {
        assert(s.skip(0) =~= s);
    } else {
        assert(is_trim_char(s[0]));
        assert forall|j: int| 0 <= j < k - 1 implies is_trim_char(s.skip(1)[j]) by {
            assert(s.skip(1)[j] == s[j + 1]);
        }
        if k - 1 < s.skip(1).len() {
            assert(s.skip(1)[k - 1] == s[k]);
        }
        lemma_trim_lead_is(s.skip(1), k - 1);
        assert(s.skip(1).skip(k - 1) =~= s.skip(k));
    }
}

/// A trailing run of trim characters is exactly what [`trim_trail`] removes.
proof fn lemma_trim_trail_is(s: Seq<char>, k: int)
    requires
        0 <= k <= s.len(),
        forall|j: int| k <= j < s.len() ==> is_trim_char(s[j]),
        k > 0 ==> !is_trim_char(s[k - 1]),
    ensures
        trim_trail(s) == s.take(k),
    decreases s.len(),
{
    if k == s.len() {
        if s.len() > 0 && is_trim_char(s[s.len() - 1]) {
        } else {
            assert(s.take(k) =~= s);
        }
    } else {
        assert(is_trim_char(s[s.len() - 1]));
        let t = s.take(s.len() - 1);
        assert forall|j: int| k <= j < t.len() implies is_trim_char(t[j]) by {
            assert(t[j] == s[j]);
        }
        if k > 0 {
            assert(t[k - 1] == s[k - 1]);
        }
        lemma_trim_trail_is(t, k);
        assert(t.take(k) =~= s.take(k));
    }
}

/// Executable trim of both ends, mirroring `trim_trail(trim_lead(s))`.
pub fn trim_ends(v: &Vec<char>) -> (r: Vec<char>)
    ensures
        r@ == trim_trail(trim_lead(v@)),
{
    let n = v.len();
    let mut lo: usize = 0;
    while lo < n && trim_char(v[lo])
        invariant
            lo <= n,
            n == v@.len(),
            forall|j: int| 0 <= j < lo ==> is_trim_char(v@[j]),
        decreases n - lo,
    {
        lo = lo + 1;
    }
    proof {
        lemma_trim_lead_is(v@, lo as int);
    }
    let mut hi: usize = n;
    while hi > lo && trim_char(v[hi - 1])
        invariant
            lo <= hi <= n,
            n == v@.len(),
            forall|j: int| hi <= j < n ==> is_trim_char(v@[j]),
        decreases hi,
    {
        hi = hi - 1;
    }
    let ghost mid = v@.skip(lo as int);
    proof {
        assert forall|j: int| hi - lo <= j < mid.len() implies is_trim_char(mid[j]) by {
            assert(mid[j] == v@[j + lo]);
        }
        if hi > lo {
            assert(mid[hi - lo - 1] == v@[hi - 1]);
        }
        lemma_trim_trail_is(mid, hi - lo);
    }
    let r = sub_vec(v, lo, hi);
    assert(r@ =~= mid.take(hi - lo));
    r
}

/// Every maximal run of whitespace replaced by a single space.
pub open spec fn collapse_spaces(s: Seq<char>) -> Seq<char>
    decreases s.len(),
    via collapse_spaces_dec
{
    if s.len() == 0 {
        Seq::empty()
    } else if is_space_char(s[0]) {
        seq![' '] + collapse_spaces(s.skip(space_run(s) as int))
    } else {
        seq![s[0]] + collapse_spaces(s.skip(1))
    }
}

/// Length of the leading whitespace run.
pub open spec fn space_run(s: Seq<char>) -> nat
    decreases s.len(),
{
    if s.len() == 0 || !is_space_char(s[0]) {
        0
    } else {
        1 + space_run(s.skip(1))
    }
}

/// The space run is within bounds, covers only whitespace, and stops at the
/// first non-whitespace character.
pub proof fn lemma_space_run(s: Seq<char>)
    ensures
        space_run(s) <= s.len(),
        forall|j: int| 0 <= j < space_run(s) ==> is_space_char(s[j]),
        space_run(s) < s.len() ==> !is_space_char(s[space_run(s) as int]),
    decreases s.len(),
{
    if s.len() > 0 && is_space_char(s[0]) {
        lemma_space_run(s.skip(1));
        assert forall|j: int| 0 <= j < space_run(s) implies is_space_char(s[j]) by {
            if j > 0 {
                assert(is_space_char(s.skip(1)[j - 1]));
            }
        }
    }
}

/// Any bound with the same properties is the space run.
pub proof fn lemma_space_run_is(s: Seq<char>, k: int)
    requires
        0 <= k <= s.len(),
        forall|j: int| 0 <= j < k ==> is_space_char(s[j]),
        k < s.len() ==> !is_space_char(s[k]),
    ensures
        space_run(s) == k,
    decreases s.len(),
{
    if s.len() == 0 {
    } else if k == 0 {
    } else {
        assert(is_space_char(s[0]));
        assert forall|j: int| 0 <= j < k - 1 implies is_space_char(s.skip(1)[j]) by {
            assert(s.skip(1)[j] == s[j + 1]);
        }
        if k - 1 < s.skip(1).len() {
            assert(s.skip(1)[k - 1] == s[k]);
        }
        lemma_space_run_is(s.skip(1), k - 1);
    }
}

#[via_fn]
proof fn collapse_spaces_dec(s: Seq<char>) {
    lemma_space_run(s);
}

/// Executable whitespace collapsing, mirroring [`collapse_spaces`].
pub fn collapse_spaces_vec(v: &Vec<char>) -> (r: Vec<char>)
    ensures
        r@ == collapse_spaces(v@),
{
    let mut r: Vec<char> = Vec::new();
    let mut i: usize = 0;
    assert(v@.skip(0) =~= v@);
    assert(r@ + collapse_spaces(v@) =~= collapse_spaces(v@));
    while i < v.len()
        invariant
            i <= v@.len(),
            r@ + collapse_spaces(v@.skip(i as int)) == collapse_spaces(v@),
        decreases v@.len() - i,
    {
        let ghost pre = r@;
        let ghost suf = v@.skip(i as int);
        if space_char(v[i]) {
            let start = i;
            i = i + 1;
            while i < v.len() && space_char(v[i])
                invariant
                    start < i <= v@.len(),
                    forall|j: int| start <= j < i ==> is_space_char(v@[j]),
                decreases v@.len() - i,
            {
                i = i + 1;
            }
            proof {
                assert forall|j: int| 0 <= j < i - start implies is_space_char(suf[j]) by {
                    assert(suf[j] == v@[start + j]);
                }
                if i - start < suf.len() {
                    assert(suf[i - start] == v@[i as int]);
                }
                lemma_space_run_is(suf, i - start);
                assert(suf.skip((i - start) as int) =~= v@.skip(i as int));
            }
            r.push(' ');
            assert(r@ =~= pre + seq![' ']);
            assert(pre + (seq![' '] + collapse_spaces(v@.skip(i as int))) =~= pre + seq![' ']
                + collapse_spaces(v@.skip(i as int)));
        } else {
            r.push(v[i]);
            assert(r@ =~= pre + seq![suf[0]]);
            assert(suf.skip(1) =~= v@.skip(i + 1));
            assert(pre + (seq![suf[0]] + collapse_spaces(suf.skip(1))) =~= pre + seq![suf[0]]
                + collapse_spaces(suf.skip(1)));
            i = i + 1;
        }
    }
    assert(v@.skip(i as int) =~= Seq::<char>::empty());
    assert(r@ + collapse_spaces(Seq::<char>::empty()) =~= r@);
    r
}

} // verus!

verus! {

/// The views of a list of strings.
pub open spec fn strings_view(ss: Seq<String>) -> Seq<Seq<char>> {
    Seq::new(ss.len(), |i: int| ss[i]@)
}

} // verus!

verus! {

/// `s` without its leading whitespace.
pub open spec fn ws_lead(s: Seq<char>) -> Seq<char>
    decreases s.len(),
{
    if s.len() > 0 && is_space_char(s[0]) {
        ws_lead(s.skip(1))
    } else {
        s
    }
}

/// `s` without its trailing whitespace.
pub open spec fn ws_trail(s: Seq<char>) -> Seq<char>
    decreases s.len(),
{
    if s.len() > 0 && is_space_char(s[s.len() - 1]) {
        ws_trail(s.take(s.len() - 1))
    } else {
        s
    }
}

/// `s` without leading and trailing whitespace.
pub open spec fn trim_spaces(s: Seq<char>) -> Seq<char> {
    ws_trail(ws_lead(s))
}

proof fn lemma_ws_lead_is(s: Seq<char>, k: int)
    requires
        0 <= k <= s.len(),
        forall|j: int| 0 <= j < k ==> is_space_char(s[j]),
        k < s.len() ==> !is_space_char(s[k]),
    ensures
        ws_lead(s) == s.skip(k),
    decreases s.len(),
{
    if k == 0 {
        assert(s.skip(0) =~= s);
    } else {
        assert(is_space_char(s[0]));
        assert forall|j: int| 0 <= j < k - 1 implies is_space_char(s.skip(1)[j]) by {
            assert(s.skip(1)[j] == s[j + 1]);
        }
        if k - 1 < s.skip(1).len() {
            assert(s.skip(1)[k - 1] == s[k]);
        }
        lemma_ws_lead_is(s.skip(1), k - 1);
        assert(s.skip(1).skip(k - 1) =~= s.skip(k));
    }
}

proof fn lemma_ws_trail_is(s: Seq<char>, k: int)
    requires
        0 <= k <= s.len(),
        forall|j: int| k <= j < s.len() ==> is_space_char(s[j]),
        k > 0 ==> !is_space_char(s[k - 1]),
    ensures
        ws_trail(s) == s.take(k),
    decreases s.len(),
{
    if k == s.len() {
        if s.len() > 0 && is_space_char(s[s.len() - 1]) {
        } else {
            assert(s.take(k) =~= s);
        }
    } else {
        assert(is_space_char(s[s.len() - 1]));
        let t = s.take(s.len() - 1);
        assert forall|j: int| k <= j < t.len() implies is_space_char(t[j]) by {
            assert(t[j] == s[j]);
        }
        if k > 0 {
            assert(t[k - 1] == s[k - 1]);
        }
        lemma_ws_trail_is(t, k);
        assert(t.take(k) =~= s.take(k));
    }
}

/// Executable whitespace trim of both ends, mirroring [`trim_spaces`].
pub fn trim_spaces_vec(v: &Vec<char>) -> (r: Vec<char>)
    ensures
        r@ == trim_spaces(v@),
{
    let n = v.len();
    let mut lo: usize = 0;
    while lo < n && space_char(v[lo])
        invariant
            lo <= n,
            n == v@.len(),
            forall|j: int| 0 <= j < lo ==> is_space_char(v@[j]),
        decreases n - lo,
    {
        lo = lo + 1;
    }
    proof {
        lemma_ws_lead_is(v@, lo as int);
    }
    let mut hi: usize = n;
    while hi > lo && space_char(v[hi - 1])
        invariant
            lo <= hi <= n,
            n == v@.len(),
            forall|j: int| hi <= j < n ==> is_space_char(v@[j]),
        decreases hi,
    {
        hi = hi - 1;
    }
    let ghost mid = v@.skip(lo as int);
    proof {
        assert forall|j: int| hi - lo <= j < mid.len() implies is_space_char(mid[j]) by {
            assert(mid[j] == v@[j + lo]);
        }
        if hi > lo {
            assert(mid[hi - lo - 1] == v@[hi - 1]);
        }
        lemma_ws_trail_is(mid, hi - lo);
    }
    let r = sub_vec(v, lo, hi);
    assert(r@ =~= mid.take(hi - lo));
    r
}

/// Trim the whitespace off both ends of a string.
pub fn trim_str(s: &String) -> (r: String)
    ensures
        r@ == trim_spaces(s@),
{
    let v = chars_vec(s.as_str());
    let t = trim_spaces_vec(&v);
    string_of(&t)
}

/// All characters of `c` removed from `s`.
pub open spec fn remove_char(s: Seq<char>, c: char) -> Seq<char>
    decreases s.len(),
{
    if s.len() == 0 {
        Seq::empty()
    } else if s[0] == c {
        remove_char(s.skip(1), c)
    } else {
        seq![s[0]] + remove_char(s.skip(1), c)
    }
}

/// Executable character removal, mirroring [`remove_char`].
pub fn remove_char_vec(v: &Vec<char>, c: char) -> (r: Vec<char>)
    ensures
        r@ == remove_char(v@, c),
{
    let mut r: Vec<char> = Vec::new();
    let mut i: usize = 0;
    assert(v@.skip(0) =~= v@);
    assert(r@ + remove_char(v@, c) =~= remove_char(v@, c));
    while i < v.len()
        invariant
            i <= v@.len(),
            r@ + remove_char(v@.skip(i as int), c) == remove_char(v@, c),
        decreases v@.len() - i,
    {
        let ghost pre = r@;
        let ghost suf = v@.skip(i as int);
        assert(suf[0] == v@[i as int]);
        assert(suf.skip(1) =~= v@.skip(i + 1));
        if v[i] != c {
            r.push(v[i]);
            assert(r@ =~= pre + seq![suf[0]]);
            assert(pre + (seq![suf[0]] + remove_char(suf.skip(1), c)) =~= pre + seq![suf[0]]
                + remove_char(suf.skip(1), c));
        }
        i = i + 1;
    }
    assert(v@.skip(i as int) =~= Seq::<char>::empty());
    assert(r@ + remove_char(Seq::<char>::empty(), c) =~= r@);
    r
}

} // verus!

verus! {

/// A text contains a pattern exactly when the pattern matches somewhere.
pub proof fn lemma_contains_iff_matches(s: Seq<char>, pat: Seq<char>)
    requires
        pat.len() > 0,
    ensures
        contains_sub(s, pat) <==> exists|i: int| matches_at(s, pat, i),
{
    lemma_find_from_props(s, pat, 0);
    match find_sub(s, pat) {
        Some(j) => {
            assert(matches_at(s, pat, j));
        },
        None => {
            if exists|i: int| matches_at(s, pat, i) {
                let i = choose|i: int| matches_at(s, pat, i);
                assert(!matches_at(s, pat, i));
            }
        },
    }
}

/// A match pins every character of the span.
pub proof fn lemma_match_char(s: Seq<char>, pat: Seq<char>, i: int, j: int)
    requires
        matches_at(s, pat, i),
        0 <= j < pat.len(),
    ensures
        s[i + j] == pat[j],
{
    assert(s.subrange(i, i + pat.len() as int)[j] == pat[j]);
}

/// Replacing a pattern that does not occur changes nothing.
pub proof fn lemma_replace_absent(s: Seq<char>, pat: Seq<char>, rep: Seq<char>)
    requires
        pat.len() > 0,
        !contains_sub(s, pat),
    ensures
        replace_seq(s, pat, rep) == s,
    decreases s.len(),
{
    lemma_contains_iff_matches(s, pat);
    if s.len() == 0 {
    } else {
        assert(!matches_at(s, pat, 0));
        let t = s.skip(1);
        lemma_contains_iff_matches(t, pat);
        assert forall|i: int| !matches_at(t, pat, i) by {
            if matches_at(t, pat, i) {
                assert(t.subrange(i, i + pat.len() as int) =~= s.subrange(
                    i + 1,
                    i + 1 + pat.len() as int,
                ));
                assert(matches_at(s, pat, i + 1));
            }
        }
        lemma_replace_absent(t, pat, rep);
        assert(seq![s[0]] + t =~= s);
    }
}

} // verus!

verus! {

/// A pattern with a character the text never holds cannot occur in it.
pub proof fn lemma_absent_char(s: Seq<char>, pat: Seq<char>, j: int)
    requires
        0 <= j < pat.len(),
        forall|i: int| 0 <= i < s.len() ==> s[i] != pat[j],
    ensures
        !contains_sub(s, pat),
{
    lemma_contains_iff_matches(s, pat);
    if contains_sub(s, pat) {
        let i = choose|i: int| matches_at(s, pat, i);
        lemma_match_char(s, pat, i, j);
        assert(s[i + j] != pat[j]);
    }
}

/// Joining after a leading piece: the piece, the separator, then the rest.
pub proof fn lemma_join_cons(a: Seq<char>, ps: Seq<Seq<char>>, sep: Seq<char>)
    requires
        ps.len() >= 1,
    ensures
        join_sep(seq![a] + ps, sep) == a + sep + join_sep(ps, sep),
    decreases ps.len(),
{
    lemma_join_tail_shift(a, ps, sep, 1);
    assert((seq![a] + ps)[0] == a);
    assert(join_sep(seq![a] + ps, sep) == a + join_tail(seq![a] + ps, sep, 1));
    assert(join_tail(ps, sep, 1) == join_tail(seq![a] + ps, sep, 2));
    assert(join_tail(seq![a] + ps, sep, 1) == sep + (seq![a] + ps)[1] + join_tail(
        seq![a] + ps,
        sep,
        2,
    ));
    assert((seq![a] + ps)[1] == ps[0]);
    assert(join_sep(ps, sep) == ps[0] + join_tail(ps, sep, 1));
    assert(a + (sep + ps[0] + join_tail(ps, sep, 1)) =~= a + sep + (ps[0] + join_tail(
        ps,
        sep,
        1,
    )));
}

/// The join tail ignores a piece prepended in front of the start index.
proof fn lemma_join_tail_shift(a: Seq<char>, ps: Seq<Seq<char>>, sep: Seq<char>, k: int)
    requires
        k >= 0,
    ensures
        join_tail(seq![a] + ps, sep, k + 1) == join_tail(ps, sep, k),
    decreases ps.len() - k,
{
    if k >= ps.len() {
        assert(join_tail(seq![a] + ps, sep, k + 1) =~= Seq::<char>::empty());
    } else {
        lemma_join_tail_shift(a, ps, sep, k + 1);
        assert((seq![a] + ps)[k + 1] == ps[k]);
    }
}

/// A segment split always yields at least one segment.
pub proof fn lemma_segments_nonempty(s: Seq<char>, sep: Seq<char>)
    ensures
        segments(s, sep).len() >= 1,
{
    if sep.len() > 0 {
        match find_sub(s, sep) {
            Some(i) => {},
            None => {},
        }
    }
}

/// Joining the segments with the separator rebuilds the text.
pub proof fn lemma_join_segments(s: Seq<char>, sep: Seq<char>)
    requires
        sep.len() > 0,
    ensures
        join_sep(segments(s, sep), sep) == s,
    decreases s.len(),
{
    lemma_find_from_props(s, sep, 0);
    match find_sub(s, sep) {
        Some(p) => {
            let rest = s.skip(p + sep.len());
            lemma_join_segments(rest, sep);
            lemma_segments_nonempty(rest, sep);
            lemma_join_cons(s.take(p), segments(rest, sep), sep);
            assert(s.subrange(p, p + sep.len()) == sep);
            assert(s.take(p) + sep + rest =~= s);
        },
        None => {
            assert(join_tail(seq![s], sep, 1) =~= Seq::<char>::empty());
            assert(join_sep(seq![s], sep) =~= s + Seq::<char>::empty());
            assert(s + Seq::<char>::empty() =~= s);
        },
    }
}

/// First-occurrence filtering leaves a list of distinct pieces, none seen
/// before, unchanged.
pub proof fn lemma_unique_distinct(ps: Seq<Seq<char>>, seen: Seq<Seq<char>>)
    requires
        forall|i: int, j: int| 0 <= i < j < ps.len() ==> ps[i] != ps[j],
        forall|i: int| 0 <= i < ps.len() ==> !seen.contains(ps[i]),
    ensures
        unique_from(ps, seen) == ps,
    decreases ps.len(),
{
    if ps.len() > 0 {
        let t = ps.skip(1);
        assert forall|i: int, j: int| 0 <= i < j < t.len() implies t[i] != t[j] by {
            assert(t[i] == ps[i + 1]);
            assert(t[j] == ps[j + 1]);
        }
        assert forall|i: int| 0 <= i < t.len() implies !seen.push(ps[0]).contains(t[i]) by {
            assert(t[i] == ps[i + 1]);
            assert(ps[i + 1] != ps[0]);
            if seen.push(ps[0]).contains(t[i]) {
                let k = choose|k: int| 0 <= k < seen.push(ps[0]).len() && seen.push(ps[0])[k]
                    == t[i];
                if k < seen.len() {
                    assert(seen[k] == t[i]);
                    assert(seen.contains(ps[i + 1]));
                } else {
                    assert(seen.push(ps[0])[k] == ps[0]);
                }
            }
        }
        lemma_unique_distinct(t, seen.push(ps[0]));
        assert(seq![ps[0]] + t =~= ps);
    }
}

} // verus!
