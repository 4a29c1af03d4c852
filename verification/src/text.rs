//! Character-level helpers shared by the parsers: views of strings as
//! character sequences, trimming, searching, and decimal numbers.

use vstd::prelude::*;
use vstd::string::StringSliceAdditionalSpecFns;

verus! {

// ------------------------------------------------------------------ specifications

/// Unicode `White_Space`, as `char::is_whitespace` decides it.
pub open spec fn is_ws(c: char) -> bool {
    ||| ('\u{9}' <= c && c <= '\u{d}')
    ||| c == ' '
    ||| c == '\u{85}'
    ||| c == '\u{a0}'
    ||| c == '\u{1680}'
    ||| ('\u{2000}' <= c && c <= '\u{200a}')
    ||| c == '\u{2028}'
    ||| c == '\u{2029}'
    ||| c == '\u{202f}'
    ||| c == '\u{205f}'
    ||| c == '\u{3000}'
}

/// `s` without its leading whitespace.
pub open spec fn trim_start(s: Seq<char>) -> Seq<char>
    decreases s.len(),
{
    if s.len() > 0 && is_ws(s[0]) {
        trim_start(s.drop_first())
    } else {
        s
    }
}

/// `s` without its trailing whitespace.
pub open spec fn trim_end(s: Seq<char>) -> Seq<char>
    decreases s.len(),
{
    if s.len() > 0 && is_ws(s.last()) {
        trim_end(s.drop_last())
    } else {
        s
    }
}

/// `s` without leading and trailing whitespace (`str::trim`).
pub open spec fn trim(s: Seq<char>) -> Seq<char> {
    trim_end(trim_start(s))
}

/// ASCII lower-casing of one character (`char::to_ascii_lowercase`).
pub open spec fn ascii_lower(c: char) -> char {
    if 'A' <= c && c <= 'Z' {
        ((c as u32) + 32) as char
    } else {
        c
    }
}

/// ASCII upper-casing of one character (`char::to_ascii_uppercase`).
pub open spec fn ascii_upper(c: char) -> char {
    if 'a' <= c && c <= 'z' {
        ((c as u32) - 32) as char
    } else {
        c
    }
}

/// `s` with every ASCII letter lower-cased.
pub open spec fn lower(s: Seq<char>) -> Seq<char> {
    s.map_values(|c: char| ascii_lower(c))
}

/// `s` with every ASCII letter upper-cased.
pub open spec fn upper(s: Seq<char>) -> Seq<char> {
    s.map_values(|c: char| ascii_upper(c))
}

/// Whether `s` begins with `p`.
pub open spec fn starts_with(s: Seq<char>, p: Seq<char>) -> bool {
    p.len() <= s.len() && s.subrange(0, p.len() as int) == p
}

/// Whether `p` occurs in `s` at position `i`.
pub open spec fn matches_at(s: Seq<char>, p: Seq<char>, i: int) -> bool {
    0 <= i && i + p.len() <= s.len() && s.subrange(i, i + p.len()) == p
}

/// First position at or after `i` where `p` occurs in `s`.
pub open spec fn find_from(s: Seq<char>, p: Seq<char>, i: int) -> Option<int>
    decreases s.len() + 1 - i,
{
    if i < 0 || i + p.len() > s.len() {
        None
    } else if matches_at(s, p, i) {
        Some(i)
    } else {
        find_from(s, p, i + 1)
    }
}

/// First position where `p` occurs in `s` (`str::find` with a string pattern).
pub open spec fn find(s: Seq<char>, p: Seq<char>) -> Option<int> {
    find_from(s, p, 0)
}

/// Whether `p` occurs anywhere in `s` (`str::contains`).
pub open spec fn contains(s: Seq<char>, p: Seq<char>) -> bool {
    find(s, p) is Some
}

/// First position at or after `i` that holds the character `c`.
pub open spec fn index_of_from(s: Seq<char>, c: char, i: int) -> Option<int>
    decreases s.len() - i,
{
    if i < 0 || i >= s.len() {
        None
    } else if s[i] == c {
        Some(i)
    } else {
        index_of_from(s, c, i + 1)
    }
}

/// First position of the character `c` in `s`.
pub open spec fn index_of(s: Seq<char>, c: char) -> Option<int> {
    index_of_from(s, c, 0)
}

/// Last position of the character `c` in `s` (`str::rfind` with a char).
pub open spec fn rindex_of(s: Seq<char>, c: char) -> Option<int>
    decreases s.len(),
{
    if s.len() == 0 {
        None
    } else if s.last() == c {
        Some(s.len() - 1)
    } else {
        rindex_of(s.drop_last(), c)
    }
}

/// The part of `s` before the first `c` (the first item of `s.split(c)`).
pub open spec fn before(s: Seq<char>, c: char) -> Seq<char> {
    match index_of(s, c) {
        Some(i) => s.take(i),
        None => s,
    }
}

/// The part of `s` after the first `c`, if `c` occurs (the second item of `s.split(c)`).
pub open spec fn after(s: Seq<char>, c: char) -> Option<Seq<char>> {
    match index_of(s, c) {
        Some(i) => Some(s.skip(i + 1)),
        None => None,
    }
}

/// Whether `c` is an ASCII decimal digit.
pub open spec fn is_digit(c: char) -> bool {
    '0' <= c && c <= '9'
}

/// The decimal digit `d` (0..=9) as a character.
pub open spec fn digit_char(d: nat) -> char {
    (('0' as u32) + d) as char
}

/// Whether all characters of `s` are decimal digits.
pub open spec fn all_digits(s: Seq<char>) -> bool {
    forall|i: int| 0 <= i < s.len() ==> is_digit(#[trigger] s[i])
}

/// The number that the decimal digits `s` spell.
pub open spec fn digits_value(s: Seq<char>) -> nat
    decreases s.len(),
{
    if s.len() == 0 {
        0
    } else {
        digits_value(s.drop_last()) * 10 + ((s.last() as u32) - ('0' as u32)) as nat
    }
}

/// `str::parse::<u16>`: an optional `+`, then at least one decimal digit, with a value
/// that fits in 16 bits.
pub open spec fn parse_u16_spec(s: Seq<char>) -> Option<u16> {
    let d = if s.len() > 0 && s[0] == '+' { s.drop_first() } else { s };
    if d.len() > 0 && all_digits(d) && digits_value(d) <= 65535 {
        Some(digits_value(d) as u16)
    } else {
        None
    }
}

/// `str::parse::<u64>`: an optional `+`, then at least one decimal digit, with a value
/// that fits in 64 bits.
pub open spec fn parse_u64_spec(s: Seq<char>) -> Option<u64> {
    let d = if s.len() > 0 && s[0] == '+' { s.drop_first() } else { s };
    if d.len() > 0 && all_digits(d) && digits_value(d) <= u64::MAX {
        Some(digits_value(d) as u64)
    } else {
        None
    }
}

/// `s` without the character `c` repeated at its end (`trim_end_matches(c)`).
pub open spec fn trim_end_char(s: Seq<char>, c: char) -> Seq<char>
    decreases s.len(),
{
    if s.len() > 0 && s.last() == c {
        trim_end_char(s.drop_last(), c)
    } else {
        s
    }
}

/// `s` without the character `c` repeated at its start.
pub open spec fn trim_start_char(s: Seq<char>, c: char) -> Seq<char>
    decreases s.len(),
{
    if s.len() > 0 && s[0] == c {
        trim_start_char(s.drop_first(), c)
    } else {
        s
    }
}

/// `s` without the character `c` repeated at either end (`trim_matches(c)`).
pub open spec fn trim_char(s: Seq<char>, c: char) -> Seq<char> {
    trim_end_char(trim_start_char(s, c), c)
}

/// The character sequences of a list of strings.
pub open spec fn string_views(v: Seq<String>) -> Seq<Seq<char>> {
    v.map_values(|s: String| s@)
}

/// Decimal rendering of `n` without leading zeros (`format!("{n}")`).
pub open spec fn dec(n: nat) -> Seq<char>
    decreases n,
{
    if n < 10 {
        seq![digit_char(n)]
    } else {
        dec(n / 10).push(digit_char(n % 10))
    }
}

// ------------------------------------------------------------------ lemmas

/// A search that starts where nothing matched before `j` finds the match at `j`.
pub proof fn lemma_find_from_first(s: Seq<char>, p: Seq<char>, i: int, j: int)
    requires
        0 <= i <= j,
        matches_at(s, p, j),
        forall|k: int| i <= k < j ==> !matches_at(s, p, k),
    ensures
        find_from(s, p, i) == Some(j),
    decreases j - i,
{
    if i < j {
        lemma_find_from_first(s, p, i + 1, j);
    }
}

/// A search finds nothing when nothing matches.
pub proof fn lemma_find_from_none(s: Seq<char>, p: Seq<char>, i: int)
    requires
        0 <= i,
        forall|k: int| i <= k ==> !matches_at(s, p, k),
    ensures
        find_from(s, p, i) is None,
    decreases s.len() + 1 - i,
{
    if i + p.len() <= s.len() {
        lemma_find_from_none(s, p, i + 1);
    }
}

/// What a successful search reports.
pub proof fn lemma_find_from_found(s: Seq<char>, p: Seq<char>, i: int)
    requires
        0 <= i,
    ensures
        find_from(s, p, i) matches Some(j) ==> i <= j && matches_at(s, p, j) && forall|k: int|
            i <= k < j ==> !matches_at(s, p, k),
        find_from(s, p, i) is None ==> forall|k: int| i <= k ==> !matches_at(s, p, k),
    decreases s.len() + 1 - i,
{
    if i + p.len() <= s.len() && !matches_at(s, p, i) {
        lemma_find_from_found(s, p, i + 1);
    }
}

/// A character search that starts where nothing matched before `j` finds `j`.
pub proof fn lemma_index_of_first(s: Seq<char>, c: char, i: int, j: int)
    requires
        0 <= i <= j < s.len(),
        s[j] == c,
        forall|k: int| i <= k < j ==> s[k] != c,
    ensures
        index_of_from(s, c, i) == Some(j),
    decreases j - i,
{
    if i < j {
        lemma_index_of_first(s, c, i + 1, j);
    }
}

/// A character search finds nothing where the character does not occur.
pub proof fn lemma_index_of_none(s: Seq<char>, c: char, i: int)
    requires
        0 <= i,
        forall|k: int| i <= k < s.len() ==> s[k] != c,
    ensures
        index_of_from(s, c, i) is None,
    decreases s.len() - i,
{
    if i < s.len() {
        lemma_index_of_none(s, c, i + 1);
    }
}

/// What a successful character search reports.
pub proof fn lemma_index_of_found(s: Seq<char>, c: char, i: int)
    requires
        0 <= i,
    ensures
        index_of_from(s, c, i) matches Some(j) ==> i <= j < s.len() && s[j] == c && forall|k: int|
            i <= k < j ==> s[k] != c,
        index_of_from(s, c, i) is None ==> forall|k: int| i <= k < s.len() ==> s[k] != c,
    decreases s.len() - i,
{
    if i < s.len() && s[i] != c {
        lemma_index_of_found(s, c, i + 1);
    }
}

/// What a backward character search reports.
pub proof fn lemma_rindex_of(s: Seq<char>, c: char)
    ensures
        rindex_of(s, c) matches Some(j) ==> 0 <= j < s.len() && s[j] == c && forall|k: int|
            j < k < s.len() ==> s[k] != c,
        rindex_of(s, c) is None ==> forall|k: int| 0 <= k < s.len() ==> s[k] != c,
    decreases s.len(),
{
    if s.len() > 0 && s.last() != c {
        lemma_rindex_of(s.drop_last(), c);
        assert forall|k: int| 0 <= k < s.len() - 1 implies s.drop_last()[k] == s[k] by {}
    }
}

/// The backward search finds the last occurrence.
pub proof fn lemma_rindex_of_last(s: Seq<char>, c: char, j: int)
    requires
        0 <= j < s.len(),
        s[j] == c,
        forall|k: int| j < k < s.len() ==> s[k] != c,
    ensures
        rindex_of(s, c) == Some(j),
    decreases s.len(),
{
    if j < s.len() - 1 {
        lemma_rindex_of_last(s.drop_last(), c, j);
    }
}

/// Trimming a sequence that has no whitespace at either end changes nothing.
pub proof fn lemma_trim_noop(s: Seq<char>)
    requires
        s.len() > 0 ==> !is_ws(s[0]) && !is_ws(s.last()),
    ensures
        trim(s) == s,
{
}

/// The digits of a decimal rendering.
pub proof fn lemma_dec(n: nat)
    ensures
        dec(n).len() > 0,
        all_digits(dec(n)),
        digits_value(dec(n)) == n,
    decreases n,
{
    if n >= 10 {
        lemma_dec(n / 10);
        let d = dec(n / 10);
        assert(dec(n).drop_last() =~= d);
        assert(dec(n).last() == digit_char(n % 10));
        assert((digit_char(n % 10) as u32) == 48 + n % 10);
        assert(digits_value(dec(n)) == digits_value(d) * 10 + n % 10);
        assert(n == (n / 10) * 10 + n % 10);
        assert forall|i: int| 0 <= i < dec(n).len() implies is_digit(#[trigger] dec(n)[i]) by {
            if i < d.len() {
                assert(dec(n)[i] == d[i]);
            }
        }
    } else {
        assert(dec(n).drop_last() =~= Seq::<char>::empty());
        assert((digit_char(n) as u32) == 48 + n);
        assert(digits_value(dec(n)) == digits_value(Seq::<char>::empty()) * 10 + n);
    }
}

/// Parsing a decimal rendering gives the number back.
pub proof fn lemma_parse_dec(n: u16)
    ensures
        parse_u16_spec(dec(n as nat)) == Some(n),
{
    lemma_dec(n as nat);
    assert(is_digit(dec(n as nat)[0]));
}

// ------------------------------------------------------------------ executable helpers

/// The characters of a string slice, in order.
pub fn chars_of(s: &str) -> (out: Vec<char>)
    ensures
        out@ == s@,
{
    let mut out: Vec<char> = Vec::new();
    for c in it: s.chars()
        invariant
            out@ == it.seq().take(it.index() as int),
            it.seq() == s@,
    {
        out.push(c);
    }
    out
}

/// Appends one character to a string.
#[verifier::external_body]
pub(crate) fn push_char(s: &mut String, c: char)
    ensures
        final(s)@ == old(s)@.push(c),
{
    s.push(c);
}

/// Appends the characters `v[lo..hi]` to a string.
pub fn push_chars(s: &mut String, v: &Vec<char>, lo: usize, hi: usize)
    requires
        lo <= hi <= v@.len(),
    ensures
        final(s)@ == old(s)@ + v@.subrange(lo as int, hi as int),
{
    let mut i = lo;
    while i < hi
        invariant
            lo <= i <= hi <= v@.len(),
            s@ == old(s)@ + v@.subrange(lo as int, i as int),
        decreases hi - i,
    {
        push_char(s, v[i]);
        i = i + 1;
        assert(v@.subrange(lo as int, i as int) =~= v@.subrange(lo as int, (i - 1) as int).push(
            v@[i - 1],
        ));
    }
}

/// Appends a string slice to a string.
pub fn push_str(s: &mut String, t: &str)
    ensures
        final(s)@ == old(s)@ + t@,
{
    let v = chars_of(t);
    push_chars(s, &v, 0, v.len());
    assert(v@.subrange(0, v@.len() as int) =~= t@);
}

/// A new string holding the characters `v[lo..hi]`.
pub fn string_of(v: &Vec<char>, lo: usize, hi: usize) -> (out: String)
    requires
        lo <= hi <= v@.len(),
    ensures
        out@ == v@.subrange(lo as int, hi as int),
{
    let mut out = String::new();
    push_chars(&mut out, v, lo, hi);
    assert(Seq::<char>::empty() + v@.subrange(lo as int, hi as int) =~= v@.subrange(
        lo as int,
        hi as int,
    ));
    out
}

/// `char::is_whitespace`.
pub fn is_whitespace(c: char) -> (b: bool)
    ensures
        b == is_ws(c),
{
    ('\u{9}' <= c && c <= '\u{d}') || c == ' ' || c == '\u{85}' || c == '\u{a0}' || c
        == '\u{1680}' || ('\u{2000}' <= c && c <= '\u{200a}') || c == '\u{2028}' || c == '\u{2029}'
        || c == '\u{202f}' || c == '\u{205f}' || c == '\u{3000}'
}

/// `char::to_ascii_lowercase`.
pub fn to_ascii_lower(c: char) -> (d: char)
    ensures
        d == ascii_lower(c),
{
    if 'A' <= c && c <= 'Z' {
        let u: u32 = (c as u32) + 32;
        assert(0x61 <= u <= 0x7a);
        char_from_ascii(u)
    } else {
        c
    }
}

/// The character with an ASCII code point.
fn char_from_ascii(u: u32) -> (c: char)
    requires
        u < 128,
    ensures
        c == u as char,
{
    let b: u8 = u as u8;
    b as char
}

/// The bounds `(a, b)` of `v[lo..hi]` with surrounding whitespace removed.
pub fn trim_bounds(v: &Vec<char>, lo: usize, hi: usize) -> (r: (usize, usize))
    requires
        lo <= hi <= v@.len(),
    ensures
        lo <= r.0 <= r.1 <= hi,
        v@.subrange(r.0 as int, r.1 as int) == trim(v@.subrange(lo as int, hi as int)),
{
    let ghost s = v@.subrange(lo as int, hi as int);
    let mut a = lo;
    while a < hi && is_whitespace(v[a])
        invariant
            lo <= a <= hi <= v@.len(),
            trim_start(v@.subrange(a as int, hi as int)) == trim_start(s),
        decreases hi - a,
    {
        assert(v@.subrange(a as int, hi as int).drop_first() =~= v@.subrange(
            a + 1,
            hi as int,
        ));
        a = a + 1;
    }
    let mut b = hi;
    while b > a && is_whitespace(v[b - 1])
        invariant
            lo <= a <= b <= hi <= v@.len(),
            trim_end(v@.subrange(a as int, b as int)) == trim_end(v@.subrange(a as int, hi as int)),
        decreases b - a,
    {
        assert(v@.subrange(a as int, b as int).drop_last() =~= v@.subrange(a as int, b - 1));
        b = b - 1;
    }
    (a, b)
}

/// Whether `p` occurs in `v` at position `i`.
pub fn matches_here(v: &Vec<char>, p: &Vec<char>, i: usize) -> (b: bool)
    ensures
        b == matches_at(v@, p@, i as int),
{
    if i > v.len() || p.len() > v.len() - i {
        return false;
    }
    let mut k: usize = 0;
    while k < p.len()
        invariant
            i + p@.len() <= v@.len(),
            v@.len() == v.len(),
            k <= p@.len(),
            forall|m: int| 0 <= m < k ==> v@[i + m] == p@[m],
        decreases p@.len() - k,
    {
        if v[i + k] != p[k] {
            assert(v@.subrange(i as int, i + p@.len())[k as int] != p@[k as int]);
            return false;
        }
        k = k + 1;
    }
    assert(v@.subrange(i as int, i + p@.len()) =~= p@);
    true
}

/// First position at or after `from` where `p` occurs in `v` (`str::find`).
pub fn find_in(v: &Vec<char>, p: &Vec<char>, from: usize) -> (r: Option<usize>)
    ensures
        r matches Some(i) ==> find_from(v@, p@, from as int) == Some(i as int),
        r is None ==> find_from(v@, p@, from as int) is None,
{
    if p.len() > v.len() {
        proof {
            lemma_find_from_none(v@, p@, from as int);
        }
        return None;
    }
    if p.len() == 0 {
        if from <= v.len() {
            assert(v@.subrange(from as int, from as int) =~= p@);
            return Some(from);
        }
        proof {
            lemma_find_from_none(v@, p@, from as int);
        }
        return None;
    }
    let last = v.len() - p.len();
    let mut i = from;
    while i < last + 1
        invariant
            from <= i,
            last == v@.len() - p@.len(),
            last < v.len(),
            p@.len() >= 1,
            forall|k: int| from <= k < i ==> !matches_at(v@, p@, k),
        decreases last + 1 - i,
    {
        if matches_here(v, p, i) {
            proof {
                lemma_find_from_first(v@, p@, from as int, i as int);
            }
            return Some(i);
        }
        i = i + 1;
    }
    proof {
        lemma_find_from_none(v@, p@, from as int);
    }
    None
}

/// First position at or after `from` that holds `c`.
pub fn index_of_char(v: &Vec<char>, c: char, from: usize) -> (r: Option<usize>)
    ensures
        r matches Some(i) ==> index_of_from(v@, c, from as int) == Some(i as int),
        r is None ==> index_of_from(v@, c, from as int) is None,
{
    let mut i = from;
    while i < v.len()
        invariant
            from <= i,
            forall|k: int| from <= k < i ==> v@[k] != c,
        decreases v@.len() - i,
    {
        if v[i] == c {
            proof {
                lemma_index_of_first(v@, c, from as int, i as int);
            }
            return Some(i);
        }
        i = i + 1;
    }
    proof {
        lemma_index_of_none(v@, c, from as int);
    }
    None
}

/// Last position of `c` in `v[lo..hi]`, counted from `lo`.
pub fn rindex_of_char(v: &Vec<char>, c: char, lo: usize, hi: usize) -> (r: Option<usize>)
    requires
        lo <= hi <= v@.len(),
    ensures
        r matches Some(i) ==> rindex_of(v@.subrange(lo as int, hi as int), c) == Some(i as int),
        r is None ==> rindex_of(v@.subrange(lo as int, hi as int), c) is None,
{
    let ghost s = v@.subrange(lo as int, hi as int);
    let mut j = hi;
    while j > lo
        invariant
            lo <= j <= hi <= v@.len(),
            s == v@.subrange(lo as int, hi as int),
            forall|k: int| j <= k < hi ==> v@[k] != c,
        decreases j - lo,
    {
        if v[j - 1] == c {
            proof {
                lemma_rindex_of_last(s, c, j - 1 - lo);
            }
            return Some(j - 1 - lo);
        }
        j = j - 1;
    }
    proof {
        lemma_rindex_of(s, c);
        if rindex_of(s, c) is Some {
            let k = rindex_of(s, c)->0;
            assert(s[k] == v@[lo + k]);
        }
    }
    None
}

/// `str::parse::<u16>` on `v[lo..hi]`.
pub fn parse_u16(v: &Vec<char>, lo: usize, hi: usize) -> (r: Option<u16>)
    requires
        lo <= hi <= v@.len(),
    ensures
        r == parse_u16_spec(v@.subrange(lo as int, hi as int)),
{
    let ghost s = v@.subrange(lo as int, hi as int);
    let mut start = lo;
    if lo < hi && v[lo] == '+' {
        start = lo + 1;
    }
    let ghost d = v@.subrange(start as int, hi as int);
    assert(d =~= (if s.len() > 0 && s[0] == '+' { s.drop_first() } else { s }));
    if start == hi {
        return None;
    }
    let ghost spec_result = parse_u16_spec(s);
    assert(spec_result == (if d.len() > 0 && all_digits(d) && digits_value(d) <= 65535 {
        Some(digits_value(d) as u16)
    } else {
        None
    }));
    let mut value: u32 = 0;
    let mut i = start;
    while i < hi
        invariant
            lo <= start <= i <= hi <= v@.len(),
            d == v@.subrange(start as int, hi as int),
            d.len() > 0,
            spec_result == parse_u16_spec(v@.subrange(lo as int, hi as int)),
            spec_result == (if all_digits(d) && digits_value(d) <= 65535 {
                Some(digits_value(d) as u16)
            } else {
                None
            }),
            all_digits(v@.subrange(start as int, i as int)),
            value == digits_value(v@.subrange(start as int, i as int)),
            value <= 65535,
        decreases hi - i,
    {
        let c = v[i];
        if !('0' <= c && c <= '9') {
            assert(d[i - start] == c);
            return None;
        }
        let ghost prev = v@.subrange(start as int, i as int);
        let ghost next = v@.subrange(start as int, i + 1);
        assert(next.drop_last() =~= prev);
        assert(next.last() == c);
        let digit: u32 = (c as u32) - ('0' as u32);
        let nv: u32 = value * 10 + digit;
        if nv > 65535 {
            // every further digit only makes the value larger
            proof {
                if all_digits(d) {
                    lemma_digits_value_grows(d, (i + 1 - start) as int);
                    assert(d.take(i + 1 - start) =~= next);
                }
            }
            return None;
        }
        value = nv;
        i = i + 1;
    }
    assert(v@.subrange(start as int, hi as int) == d);
    Some(value as u16)
}

/// The value of a digit string is at least that of each of its prefixes.
pub proof fn lemma_digits_value_grows(d: Seq<char>, k: int)
    requires
        0 <= k <= d.len(),
        all_digits(d),
    ensures
        digits_value(d.take(k)) <= digits_value(d),
    decreases d.len() - k,
{
    if k < d.len() {
        lemma_digits_value_grows(d, k + 1);
        assert(d.take(k + 1).drop_last() =~= d.take(k));
        assert(is_digit(d[k]));
    } else {
        assert(d.take(k) =~= d);
    }
}

/// Appends the decimal rendering of `n`.
pub fn push_dec(s: &mut String, n: u64)
    ensures
        final(s)@ == old(s)@ + dec(n as nat),
    decreases n,
{
    if n >= 10 {
        push_dec(s, n / 10);
        let d: u32 = (n % 10) as u32;
        push_char(s, char_from_ascii(48 + d));
        assert(old(s)@ + dec(n as nat) =~= old(s)@ + dec((n / 10) as nat) + seq![digit_char((n % 10) as nat)]);
    } else {
        let d: u32 = n as u32;
        push_char(s, char_from_ascii(48 + d));
        assert(dec(n as nat) =~= seq![digit_char(n as nat)]);
    }
}

/// `str::parse::<u64>` on `v[lo..hi]`.
pub fn parse_u64(v: &Vec<char>, lo: usize, hi: usize) -> (r: Option<u64>)
    requires
        lo <= hi <= v@.len(),
    ensures
        r == parse_u64_spec(v@.subrange(lo as int, hi as int)),
{
    let ghost s = v@.subrange(lo as int, hi as int);
    let mut start = lo;
    if lo < hi && v[lo] == '+' {
        start = lo + 1;
    }
    let ghost d = v@.subrange(start as int, hi as int);
    assert(d =~= (if s.len() > 0 && s[0] == '+' { s.drop_first() } else { s }));
    if start == hi {
        return None;
    }
    let ghost spec_result = parse_u64_spec(s);
    let mut value: u64 = 0;
    let mut i = start;
    while i < hi
        invariant
            lo <= start <= i <= hi <= v@.len(),
            d == v@.subrange(start as int, hi as int),
            d.len() > 0,
            spec_result == parse_u64_spec(v@.subrange(lo as int, hi as int)),
            spec_result == (if all_digits(d) && digits_value(d) <= u64::MAX {
                Some(digits_value(d) as u64)
            } else {
                None
            }),
            all_digits(v@.subrange(start as int, i as int)),
            value == digits_value(v@.subrange(start as int, i as int)),
        decreases hi - i,
    {
        let c = v[i];
        if !('0' <= c && c <= '9') {
            assert(d[i - start] == c);
            return None;
        }
        let ghost prev = v@.subrange(start as int, i as int);
        let ghost next = v@.subrange(start as int, i + 1);
        assert(next.drop_last() =~= prev);
        assert(next.last() == c);
        let digit: u64 = ((c as u32) - ('0' as u32)) as u64;
        if value > (u64::MAX - digit) / 10 {
            proof {
                assert(value * 10 + digit > u64::MAX) by (nonlinear_arith)
                    requires
                        value > (u64::MAX - digit) / 10,
                        digit <= 9,
                ;
                if all_digits(d) {
                    lemma_digits_value_grows(d, (i + 1 - start) as int);
                    assert(d.take(i + 1 - start) =~= next);
                }
            }
            return None;
        }
        assert(value * 10 + digit <= u64::MAX) by (nonlinear_arith)
            requires
                value <= (u64::MAX - digit) / 10,
                digit <= 9,
        ;
        value = value * 10 + digit;
        i = i + 1;
    }
    assert(v@.subrange(start as int, hi as int) == d);
    Some(value)
}

/// The bounds of `v[lo..hi]` without the character `c` repeated at its end.
pub fn trim_end_char_bounds(v: &Vec<char>, lo: usize, hi: usize, c: char) -> (b: usize)
    requires
        lo <= hi <= v@.len(),
    ensures
        lo <= b <= hi,
        v@.subrange(lo as int, b as int) == trim_end_char(v@.subrange(lo as int, hi as int), c),
{
    let mut b = hi;
    while b > lo && v[b - 1] == c
        invariant
            lo <= b <= hi <= v@.len(),
            trim_end_char(v@.subrange(lo as int, b as int), c) == trim_end_char(
                v@.subrange(lo as int, hi as int),
                c,
            ),
        decreases b - lo,
    {
        assert(v@.subrange(lo as int, b as int).drop_last() =~= v@.subrange(lo as int, b - 1));
        b = b - 1;
    }
    b
}

/// The bounds of `v[lo..hi]` without the character `c` repeated at either end.
pub fn trim_char_bounds(v: &Vec<char>, lo: usize, hi: usize, c: char) -> (r: (usize, usize))
    requires
        lo <= hi <= v@.len(),
    ensures
        lo <= r.0 <= r.1 <= hi,
        v@.subrange(r.0 as int, r.1 as int) == trim_char(v@.subrange(lo as int, hi as int), c),
{
    let mut a = lo;
    while a < hi && v[a] == c
        invariant
            lo <= a <= hi <= v@.len(),
            trim_start_char(v@.subrange(a as int, hi as int), c) == trim_start_char(
                v@.subrange(lo as int, hi as int),
                c,
            ),
        decreases hi - a,
    {
        assert(v@.subrange(a as int, hi as int).drop_first() =~= v@.subrange(a + 1, hi as int));
        a = a + 1;
    }
    let b = trim_end_char_bounds(v, a, hi, c);
    (a, b)
}

/// The last `n` bytes of `s` as text (read lossily where the cut splits a character), or
/// `s` itself where it is no longer than `n` bytes.
pub fn tail(s: &str, n: usize) -> (r: String)
    ensures
        s.spec_bytes().len() <= n ==> r@ == s@,
        s.spec_bytes().len() > n ==> r@ == crate::deb::utf8_lossy(
            s.spec_bytes().subrange(s.spec_bytes().len() - n, s.spec_bytes().len() as int),
        ),
{
    let b = s.as_bytes();
    let len = b.len();
    if len <= n {
        s.to_string()
    } else {
        crate::deb::lossy(crate::deb::bytes_of(b, len - n, len).as_slice())
    }
}

} // verus!
