//! Character-level string helpers shared by the library.
//!
//! Strings are modelled by their character sequences (`s@`). The helpers here
//! convert between `&str`/`String` and `Vec<char>`, and provide the splitting,
//! trimming, prefix and case operations the rest of the library is built on.

use vstd::prelude::*;

verus! {

// ---------------------------------------------------------------------------
// Conversions
// ---------------------------------------------------------------------------

/// Appends one character to a `String` (std's `String::push`).
#[verifier::external_body]
pub(crate) fn push_char(s: &mut String, c: char)
    ensures
        final(s)@ == old(s)@.push(c),
{
    s.push(c);
}

/// The characters of a string slice, in order.
pub fn chars_of(s: &str) -> (res: Vec<char>)
    ensures
        res@ == s@,
{
    let mut res: Vec<char> = Vec::new();
    for c in it: s.chars()
        invariant
            res@ == it.seq().take(it.index() as int),
    {
        res.push(c);
    }
    res
}

/// Builds a `String` holding exactly the given characters.
pub fn string_from_chars(v: &[char]) -> (res: String)
    ensures
        res@ == v@,
{
    let mut res = String::new();
    let mut i: usize = 0;
    while i < v.len()
        invariant
            i <= v.len(),
            res@ == v@.take(i as int),
        decreases v.len() - i,
    {
        push_char(&mut res, v[i]);
        i = i + 1;
        assert(res@ == v@.take(i as int));
    }
    assert(v@.take(v.len() as int) == v@);
    res
}

/// Number of bytes of the UTF-8 encoding of `s` (what std's `str::len` gives).
pub(crate) fn str_byte_len(s: &str) -> (res: usize)
    ensures
        res as nat == vstd::utf8::encode_utf8(s@).len(),
{
    s.as_bytes().len()
}

/// A copy of a string slice as an owned `String`.
pub fn owned(s: &str) -> (res: String)
    ensures
        res@ == s@,
{
    s.to_owned()
}

/// Concatenation of two string slices.
pub fn concat2(a: &str, b: &str) -> (res: String)
    ensures
        res@ == a@ + b@,
{
    let mut r = a.to_owned();
    r.append(b);
    r
}

/// Concatenation of three string slices.
pub fn concat3(a: &str, b: &str, c: &str) -> (res: String)
    ensures
        res@ == a@ + b@ + c@,
{
    let mut r = a.to_owned();
    r.append(b);
    r.append(c);
    r
}

/// Character-wise equality of two string slices.
pub fn str_eq(a: &str, b: &str) -> (res: bool)
    ensures
        res == (a@ == b@),
{
    let va = chars_of(a);
    let vb = chars_of(b);
    chars_eq(&va, &vb)
}

/// Equality of two character sequences.
pub fn chars_eq(a: &[char], b: &[char]) -> (res: bool)
    ensures
        res == (a@ == b@),
{
    if a.len() != b.len() {
        return false;
    }
    let mut i: usize = 0;
    while i < a.len()
        invariant
            a.len() == b.len(),
            i <= a.len(),
            forall|j: int| 0 <= j < i ==> a@[j] == b@[j],
        decreases a.len() - i,
    {
        if a[i] != b[i] {
            return false;
        }
        i = i + 1;
    }
    assert(a@ =~= b@);
    true
}

// ---------------------------------------------------------------------------
// Decimal rendering
// ---------------------------------------------------------------------------

/// The decimal digit character for `d` (0..=9).
pub open spec fn digit_char(d: nat) -> char {
    if d == 0 { '0' }
    else if d == 1 { '1' }
    else if d == 2 { '2' }
    else if d == 3 { '3' }
    else if d == 4 { '4' }
    else if d == 5 { '5' }
    else if d == 6 { '6' }
    else if d == 7 { '7' }
    else if d == 8 { '8' }
    else { '9' }
}

/// The decimal rendering of a natural number, most significant digit first,
/// without leading zeros (zero renders as "0").
pub open spec fn decimal(n: nat) -> Seq<char>
    decreases n,
{
    if n < 10 {
        seq![digit_char(n)]
    } else {
        decimal(n / 10).push(digit_char(n % 10))
    }
}

/// The digit character of `d`.
fn digit_of(d: u64) -> (c: char)
    requires
        d < 10,
    ensures
        c == digit_char(d as nat),
{
    if d == 0 { '0' }
    else if d == 1 { '1' }
    else if d == 2 { '2' }
    else if d == 3 { '3' }
    else if d == 4 { '4' }
    else if d == 5 { '5' }
    else if d == 6 { '6' }
    else if d == 7 { '7' }
    else if d == 8 { '8' }
    else { '9' }
}

/// The decimal rendering of a `u64`, as std's `Display` writes it.
pub(crate) fn u64_to_string(n: u64) -> (res: String)
    ensures
        res@ == decimal(n as nat),
    decreases n,
{
    let mut s = if n < 10 { String::new() } else { u64_to_string(n / 10) };
    push_char(&mut s, digit_of(n % 10));
    s
}

/// The decimal rendering of a `usize`, as std's `Display` writes it.
pub(crate) fn usize_to_string(n: usize) -> (res: String)
    ensures
        res@ == decimal(n as nat),
{
    u64_to_string(n as u64)
}

// ---------------------------------------------------------------------------
// Whitespace and trimming
// ---------------------------------------------------------------------------

/// Whether `c` has the Unicode `White_Space` property: the 25 code points
/// that the Unicode Character Database (PropList.txt) lists for it.
pub open spec fn is_white_space(c: char) -> bool {
    let u = c as u32;
    ||| 0x09 <= u <= 0x0D
    ||| u == 0x20
    ||| u == 0x85
    ||| u == 0xA0
    ||| u == 0x1680
    ||| 0x2000 <= u <= 0x200A
    ||| u == 0x2028
    ||| u == 0x2029
    ||| u == 0x202F
    ||| u == 0x205F
    ||| u == 0x3000
}

/// Whether `c` is an ASCII character.
pub open spec fn is_ascii_char(c: char) -> bool {
    (c as u32) < 128
}

/// The ASCII characters that carry the `White_Space` property.
pub open spec fn is_ascii_white_space(c: char) -> bool {
    c == ' ' || c == '\t' || c == '\n' || c == '\r' || c == '\x0b' || c == '\x0c'
}

/// Whether `c` is white space, as std's `char::is_whitespace` decides it.
pub fn char_is_whitespace(c: char) -> (res: bool)
    ensures
        res == is_white_space(c),
        is_ascii_char(c) ==> (res == is_ascii_white_space(c)),
{
    let u = c as u32;
    (0x09 <= u && u <= 0x0D) || u == 0x20 || u == 0x85 || u == 0xA0 || u == 0x1680
        || (0x2000 <= u && u <= 0x200A) || u == 0x2028 || u == 0x2029 || u == 0x202F
        || u == 0x205F || u == 0x3000
}

/// `s` with leading white space removed.
pub open spec fn trim_start_spec(s: Seq<char>) -> Seq<char>
    decreases s.len(),
{
    if s.len() > 0 && is_white_space(s[0]) {
        trim_start_spec(s.drop_first())
    } else {
        s
    }
}

/// `s` with trailing white space removed.
pub open spec fn trim_end_spec(s: Seq<char>) -> Seq<char>
    decreases s.len(),
{
    if s.len() > 0 && is_white_space(s.last()) {
        trim_end_spec(s.drop_last())
    } else {
        s
    }
}

/// `s` with leading and trailing white space removed.
pub open spec fn trim_spec(s: Seq<char>) -> Seq<char> {
    trim_end_spec(trim_start_spec(s))
}

proof fn lemma_trim_start_skip(s: Seq<char>, i: int)
    requires
        0 <= i <= s.len(),
        forall|j: int| 0 <= j < i ==> is_white_space(#[trigger] s[j]),
    ensures
        trim_start_spec(s) == trim_start_spec(s.skip(i)),
    decreases i,
{
    if i > 0 {
        assert(s.skip(1) == s.drop_first());
        lemma_trim_start_skip(s.drop_first(), i - 1);
        assert(s.drop_first().skip(i - 1) == s.skip(i));
    } else {
        assert(s.skip(0) == s);
    }
}

proof fn lemma_trim_end_take(s: Seq<char>, k: int)
    requires
        0 <= k <= s.len(),
        forall|j: int| k <= j < s.len() ==> is_white_space(#[trigger] s[j]),
    ensures
        trim_end_spec(s) == trim_end_spec(s.take(k)),
    decreases s.len() - k,
{
    if k < s.len() {
        lemma_trim_end_take(s.drop_last(), k);
        assert(s.drop_last().take(k) == s.take(k));
    } else {
        assert(s.take(k) == s);
    }
}

/// Removes leading and trailing white space (std's `str::trim`).
pub fn trim_chars(v: &[char]) -> (res: Vec<char>)
    ensures
        res@ == trim_spec(v@),
{
    let mut i: usize = 0;
    while i < v.len() && char_is_whitespace(v[i])
        invariant
            i <= v.len(),
            forall|j: int| 0 <= j < i ==> is_white_space(#[trigger] v@[j]),
        decreases v.len() - i,
    {
        i = i + 1;
    }
    proof {
        lemma_trim_start_skip(v@, i as int);
    }
    let ghost t = v@.skip(i as int);
    assert(trim_start_spec(t) == t);
    let mut k: usize = v.len();
    while k > i && char_is_whitespace(v[k - 1])
        invariant
            i <= k <= v.len(),
            forall|j: int| k <= j < v.len() ==> is_white_space(#[trigger] v@[j]),
        decreases k,
    {
        k = k - 1;
    }
    proof {
        let tt = v@.skip(i as int);
        assert forall|j: int| (k - i) <= j < tt.len() implies is_white_space(#[trigger] tt[j]) by {
            assert(tt[j] == v@[j + i]);
        }
        lemma_trim_end_take(tt, k - i);
        let r = tt.take(k - i);
        if r.len() > 0 {
            assert(r.last() == v@[k - 1]);
        }
        assert(trim_end_spec(r) == r);
        assert(r == v@.subrange(i as int, k as int));
    }
    let mut res: Vec<char> = Vec::new();
    let mut p: usize = i;
    while p < k
        invariant
            i <= p <= k <= v.len(),
            res@ == v@.subrange(i as int, p as int),
        decreases k - p,
    {
        res.push(v[p]);
        p = p + 1;
        assert(res@ == v@.subrange(i as int, p as int));
    }
    res
}

// ---------------------------------------------------------------------------
// Case mapping
// ---------------------------------------------------------------------------

/// The Unicode lowercase mapping of a character sequence (std's `to_lowercase`).
pub uninterp spec fn lowercase(s: Seq<char>) -> Seq<char>;

/// The Unicode uppercase mapping of a character sequence (std's `to_uppercase`).
pub uninterp spec fn uppercase(s: Seq<char>) -> Seq<char>;

/// Whether every character of `s` is ASCII.
pub open spec fn all_ascii(s: Seq<char>) -> bool {
    forall|i: int| 0 <= i < s.len() ==> is_ascii_char(#[trigger] s[i])
}

/// ASCII lowercase of one character.
pub open spec fn ascii_lower(c: char) -> char {
    if 'A' <= c && c <= 'Z' { ((c as u32) + 32) as char } else { c }
}

/// ASCII uppercase of one character.
pub open spec fn ascii_upper(c: char) -> char {
    if 'a' <= c && c <= 'z' { ((c as u32) - 32) as char } else { c }
}

/// ASCII lowercase of a sequence.
pub open spec fn ascii_lower_seq(s: Seq<char>) -> Seq<char> {
    s.map_values(|c: char| ascii_lower(c))
}

/// ASCII uppercase of a sequence.
pub open spec fn ascii_upper_seq(s: Seq<char>) -> Seq<char> {
    s.map_values(|c: char| ascii_upper(c))
}

/// std's `str::to_lowercase`. On ASCII input it maps exactly `A`..`Z` to `a`..`z`.
/// Lowercasing follows the Unicode case mappings, in which `@` has no mapping
/// and is part of no other character's mapping, so the result has as many `@`
/// as the input.
#[verifier::external_body]
pub(crate) fn str_to_lowercase(s: &str) -> (res: String)
    ensures
        res@ == lowercase(s@),
        all_ascii(s@) ==> res@ == ascii_lower_seq(s@),
        split_on(res@, '@').len() == split_on(s@, '@').len(),
{
    s.to_lowercase()
}

/// std's `str::to_uppercase`. On ASCII input it maps exactly `a`..`z` to `A`..`Z`.
#[verifier::external_body]
pub(crate) fn str_to_uppercase(s: &str) -> (res: String)
    ensures
        res@ == uppercase(s@),
        all_ascii(s@) ==> res@ == ascii_upper_seq(s@),
{
    s.to_uppercase()
}

/// Lowercase of a character sequence, through std's `str::to_lowercase`.
pub fn lowercase_chars(v: &[char]) -> (res: Vec<char>)
    ensures
        res@ == lowercase(v@),
        all_ascii(v@) ==> res@ == ascii_lower_seq(v@),
{
    let s = string_from_chars(v);
    let l = str_to_lowercase(s.as_str());
    chars_of(l.as_str())
}

/// Uppercase of a character sequence, through std's `str::to_uppercase`.
pub fn uppercase_chars(v: &[char]) -> (res: Vec<char>)
    ensures
        res@ == uppercase(v@),
        all_ascii(v@) ==> res@ == ascii_upper_seq(v@),
{
    let s = string_from_chars(v);
    let u = str_to_uppercase(s.as_str());
    chars_of(u.as_str())
}

/// ASCII lowercase of one character (std's `char::to_ascii_lowercase`).
pub fn to_ascii_lower(c: char) -> (res: char)
    ensures
        res == ascii_lower(c),
{
    if 'A' <= c && c <= 'Z' {
        let u: u32 = (c as u32) + 32;
        proof {
            assert(u < 0xD800);
        }
        char_from_u32_small(u)
    } else {
        c
    }
}

/// The character with code point `u`, for `u` below the surrogate range.
#[verifier::external_body]
pub(crate) fn char_from_u32_small(u: u32) -> (res: char)
    requires
        u < 0xD800,
    ensures
        res == u as char,
        res as u32 == u,
{
    char::from_u32(u).unwrap()
}

// ---------------------------------------------------------------------------
// Searching and splitting
// ---------------------------------------------------------------------------

/// Whether `c` occurs in `v`.
pub fn contains_char(v: &[char], c: char) -> (res: bool)
    ensures
        res == v@.contains(c),
{
    let mut i: usize = 0;
    while i < v.len()
        invariant
            i <= v.len(),
            forall|j: int| 0 <= j < i ==> v@[j] != c,
        decreases v.len() - i,
    {
        if v[i] == c {
            assert(v@[i as int] == c);
            return true;
        }
        i = i + 1;
    }
    false
}

/// Whether `p` is a prefix of `s`.
pub open spec fn starts_with_spec(s: Seq<char>, p: Seq<char>) -> bool {
    p.len() <= s.len() && s.take(p.len() as int) == p
}

/// Whether `p` is a suffix of `s`.
pub open spec fn ends_with_spec(s: Seq<char>, p: Seq<char>) -> bool {
    p.len() <= s.len() && s.skip(s.len() - p.len()) == p
}

/// Whether `v` starts with `p`.
pub fn starts_with(v: &[char], p: &[char]) -> (res: bool)
    ensures
        res == starts_with_spec(v@, p@),
{
    if p.len() > v.len() {
        return false;
    }
    let mut i: usize = 0;
    while i < p.len()
        invariant
            p.len() <= v.len(),
            i <= p.len(),
            forall|j: int| 0 <= j < i ==> v@[j] == p@[j],
        decreases p.len() - i,
    {
        if v[i] != p[i] {
            assert(v@.take(p.len() as int)[i as int] != p@[i as int]);
            return false;
        }
        i = i + 1;
    }
    assert(v@.take(p.len() as int) =~= p@);
    true
}

/// Whether `v` ends with `p`.
pub fn ends_with(v: &[char], p: &[char]) -> (res: bool)
    ensures
        res == ends_with_spec(v@, p@),
{
    if p.len() > v.len() {
        return false;
    }
    let off = v.len() - p.len();
    let mut i: usize = 0;
    while i < p.len()
        invariant
            p.len() <= v.len(),
            off == v.len() - p.len(),
            i <= p.len(),
            forall|j: int| 0 <= j < i ==> v@[off + j] == p@[j],
        decreases p.len() - i,
    {
        if v[off + i] != p[i] {
            assert(v@.skip(off as int)[i as int] != p@[i as int]);
            return false;
        }
        i = i + 1;
    }
    assert(v@.skip(off as int) =~= p@);
    true
}

/// Whether `p` occurs as a contiguous block of `s`.
pub open spec fn contains_seq_spec(s: Seq<char>, p: Seq<char>) -> bool {
    exists|i: int| 0 <= i <= s.len() - p.len() && #[trigger] s.subrange(i, i + p.len()) == p
}

/// Whether `p` occurs as a contiguous block of `v` (std's `str::contains` with a `&str`).
pub fn contains_seq(v: &[char], p: &[char]) -> (res: bool)
    ensures
        res == contains_seq_spec(v@, p@),
{
    if p.len() > v.len() {
        return false;
    }
    if p.len() == 0 {
        assert(v@.subrange(0, 0 + p@.len() as int) =~= p@);
        return true;
    }
    let mut i: usize = 0;
    while i <= v.len() - p.len()
        invariant
            0 < p.len() <= v.len(),
            i <= v.len() - p.len() + 1,
            forall|k: int| 0 <= k < i ==> #[trigger] v@.subrange(k, k + p.len()) != p@,
        decreases v.len() - p.len() + 1 - i,
    {
        let mut j: usize = 0;
        let mut ok = true;
        while j < p.len()
            invariant
                p.len() <= v.len(),
                i <= v.len() - p.len(),
                j <= p.len(),
                ok ==> forall|t: int| 0 <= t < j ==> v@[i + t] == p@[t],
                !ok ==> v@.subrange(i as int, i + p.len()) != p@,
            decreases p.len() - j,
        {
            if v[i + j] != p[j] {
                assert(v@.subrange(i as int, i + p.len())[j as int] != p@[j as int]);
                ok = false;
            }
            j = j + 1;
        }
        if ok {
            assert(v@.subrange(i as int, i + p.len()) =~= p@);
            return true;
        }
        i = i + 1;
    }
    false
}

/// The pieces of `s` separated by `c` (std's `str::split` with a `char`).
/// There is always at least one piece; separators are not kept.
pub open spec fn split_on(s: Seq<char>, c: char) -> Seq<Seq<char>>
    decreases s.len(),
{
    if s.len() == 0 {
        seq![Seq::<char>::empty()]
    } else {
        let init = split_on(s.drop_last(), c);
        if s.last() == c {
            init.push(Seq::<char>::empty())
        } else {
            init.update(init.len() - 1, init.last().push(s.last()))
        }
    }
}

/// `split_on` always yields at least one piece.
pub proof fn lemma_split_on_nonempty(s: Seq<char>, c: char)
    ensures
        split_on(s, c).len() >= 1,
    decreases s.len(),
{
    if s.len() > 0 {
        lemma_split_on_nonempty(s.drop_last(), c);
    }
}

/// The character sequences held by a vector of character vectors.
pub open spec fn views_of(v: Seq<Vec<char>>) -> Seq<Seq<char>> {
    v.map_values(|x: Vec<char>| x@)
}

/// Splits `v` at every occurrence of `c`.
pub fn split_chars(v: &[char], c: char) -> (res: Vec<Vec<char>>)
    ensures
        views_of(res@) == split_on(v@, c),
        res@.len() >= 1,
{
    let mut parts: Vec<Vec<char>> = Vec::new();
    let mut cur: Vec<char> = Vec::new();
    let mut i: usize = 0;
    while i < v.len()
        invariant
            i <= v.len(),
            views_of(parts@).push(cur@) == split_on(v@.take(i as int), c),
        decreases v.len() - i,
    {
        proof {
            assert(v@.take(i + 1).drop_last() == v@.take(i as int));
            lemma_split_on_nonempty(v@.take(i as int), c);
        }
        if v[i] == c {
            let ghost old_parts = views_of(parts@);
            let ghost old_cur = cur@;
            let done = cur;
            parts.push(done);
            cur = Vec::new();
            assert(views_of(parts@) == old_parts.push(old_cur));
        } else {
            let ghost old_parts = views_of(parts@);
            cur.push(v[i]);
            assert(views_of(parts@).push(cur@) =~= split_on(v@.take(i + 1), c));
        }
        i = i + 1;
    }
    assert(v@.take(v.len() as int) == v@);
    let ghost before = views_of(parts@);
    parts.push(cur);
    assert(views_of(parts@) =~= before.push(cur@));
    parts
}

/// The characters of `v` from position `i` up to, not including, `j`.
pub fn sub_chars(v: &[char], i: usize, j: usize) -> (res: Vec<char>)
    requires
        i <= j <= v.len(),
    ensures
        res@ == v@.subrange(i as int, j as int),
{
    let mut out: Vec<char> = Vec::new();
    let mut k: usize = i;
    while k < j
        invariant
            i <= k <= j <= v.len(),
            out@ == v@.subrange(i as int, k as int),
        decreases j - k,
    {
        out.push(v[k]);
        k = k + 1;
    }
    out
}

/// Whether the characters of `v` spell `lit`.
pub fn chars_is(v: &[char], lit: &str) -> (res: bool)
    ensures
        res == (v@ == lit@),
{
    let l = chars_of(lit);
    chars_eq(v, &l)
}

/// Whether `v` starts with `lit`.
pub fn chars_start(v: &[char], lit: &str) -> (res: bool)
    ensures
        res == starts_with_spec(v@, lit@),
{
    let l = chars_of(lit);
    starts_with(v, &l)
}

/// Whether `v` ends with `lit`.
pub fn chars_end(v: &[char], lit: &str) -> (res: bool)
    ensures
        res == ends_with_spec(v@, lit@),
{
    let l = chars_of(lit);
    ends_with(v, &l)
}

/// Whether `lit` occurs in `v`.
pub fn chars_have(v: &[char], lit: &str) -> (res: bool)
    ensures
        res == contains_seq_spec(v@, lit@),
{
    let l = chars_of(lit);
    contains_seq(v, &l)
}

/// The parts joined with `sep` between neighbours (std's `join`).
pub open spec fn join(parts: Seq<Seq<char>>, sep: Seq<char>) -> Seq<char>
    decreases parts.len(),
{
    if parts.len() == 0 {
        Seq::empty()
    } else if parts.len() == 1 {
        parts[0]
    } else {
        join(parts.drop_last(), sep) + sep + parts.last()
    }
}

/// Joining one more part.
pub proof fn lemma_join_push(parts: Seq<Seq<char>>, sep: Seq<char>, x: Seq<char>)
    ensures
        join(parts.push(x), sep) == if parts.len() == 0 { x } else { join(parts, sep) + sep + x },
{
    assert(parts.push(x).drop_last() =~= parts);
    if parts.len() == 0 {
        assert(parts.push(x)[0] == x);
    }
}

/// The number of bytes of one character's UTF-8 encoding.
pub open spec fn char_width(c: char) -> nat {
    vstd::utf8::encode_scalar(c as u32).len()
}

/// The number of bytes of the UTF-8 encoding of the first `k` characters.
pub open spec fn prefix_bytes(s: Seq<char>, k: int) -> nat {
    vstd::utf8::encode_utf8(s.take(k)).len()
}

/// Encoding a concatenation encodes each part.
pub proof fn lemma_encode_concat(a: Seq<char>, b: Seq<char>)
    ensures
        vstd::utf8::encode_utf8(a + b) == vstd::utf8::encode_utf8(a) + vstd::utf8::encode_utf8(b),
    decreases a.len(),
{
    if a.len() > 0 {
        assert((a + b).drop_first() =~= a.drop_first() + b);
        assert((a + b)[0] == a[0]);
        lemma_encode_concat(a.drop_first(), b);
        assert(vstd::utf8::encode_scalar(a[0] as u32) + (vstd::utf8::encode_utf8(a.drop_first()) + vstd::utf8::encode_utf8(b))
            =~= vstd::utf8::encode_scalar(a[0] as u32) + vstd::utf8::encode_utf8(a.drop_first()) + vstd::utf8::encode_utf8(b));
    } else {
        assert(a + b =~= b);
        assert(vstd::utf8::encode_utf8(a) =~= Seq::<u8>::empty());
        assert(Seq::<u8>::empty() + vstd::utf8::encode_utf8(b) =~= vstd::utf8::encode_utf8(b));
    }
}

/// One more character adds its width.
pub proof fn lemma_prefix_bytes_step(s: Seq<char>, k: int)
    requires
        0 <= k < s.len(),
    ensures
        prefix_bytes(s, k + 1) == prefix_bytes(s, k) + char_width(s[k]),
        char_width(s[k]) >= 1,
{
    assert(s.take(k + 1) =~= s.take(k) + seq![s[k]]);
    lemma_encode_concat(s.take(k), seq![s[k]]);
    let one = seq![s[k]];
    assert(one[0] == s[k]);
    assert(one.drop_first() =~= Seq::<char>::empty());
    assert(vstd::utf8::encode_utf8(one.drop_first()) =~= Seq::<u8>::empty());
    assert(vstd::utf8::encode_utf8(one) =~= vstd::utf8::encode_scalar(s[k] as u32));
    vstd::utf8::char_is_scalar(s[k]);
}

/// Byte counts of prefixes grow with the prefix.
pub proof fn lemma_prefix_bytes_mono(s: Seq<char>, i: int, j: int)
    requires
        0 <= i < j <= s.len(),
    ensures
        prefix_bytes(s, i) < prefix_bytes(s, j),
    decreases j - i,
{
    lemma_prefix_bytes_step(s, j - 1);
    if i < j - 1 {
        lemma_prefix_bytes_mono(s, i, j - 1);
    }
}

/// The number of bytes of one character's UTF-8 encoding.
pub fn char_utf8_width(c: char) -> (res: usize)
    ensures
        res == char_width(c),
{
    let u = c as u32;
    proof {
        vstd::utf8::char_is_scalar(c);
    }
    if u < 0x80 {
        1
    } else if u < 0x800 {
        2
    } else if u < 0x10000 {
        3
    } else {
        4
    }
}

} // verus!
