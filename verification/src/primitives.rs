//! Validated primitives: e-mail addresses, invite codes, secrets, token and
//! database settings.

use vstd::prelude::*;
use vstd::string::*;
use vstd::utf8::encode_utf8;
use crate::text::{
    char_from_u32_small, str_byte_len,
    all_ascii, ascii_lower, ascii_lower_seq, chars_of, concat3, contains_char, decimal,
    lemma_split_on_nonempty, lowercase, owned, push_char, split_chars, split_on, starts_with,
    starts_with_spec, str_eq, str_to_lowercase, str_to_uppercase, string_from_chars,
    to_ascii_lower, trim_chars, trim_end_spec, trim_spec, trim_start_spec, is_white_space, is_ascii_char, ascii_upper, ascii_upper_seq, u64_to_string, uppercase, views_of,
};
use rand::Rng;
use argon2::PasswordVerifier;
use argon2::password_hash::{rand_core::OsRng, PasswordHasher, SaltString};
use sha2::Digest;

verus! {

/// Number of bytes of the UTF-8 encoding of `s` (what `str::len` returns).
pub open spec fn utf8_len(s: Seq<char>) -> nat {
    encode_utf8(s).len()
}

// =============================================================================
// Email
// =============================================================================

/// Why an e-mail address was rejected.
#[derive(Debug, Clone, Copy, PartialEq, Eq)]
pub enum EmailError {
    Empty,
    MissingAt,
    InvalidFormat,
}

impl EmailError {
    /// The human readable message of the error.
    pub fn message(&self) -> (res: &'static str)
        ensures
            *self == EmailError::Empty ==> res@ == "Email address is empty"@,
            *self == EmailError::MissingAt ==> res@ == "Email address is missing @ symbol"@,
            *self == EmailError::InvalidFormat ==> res@ == "Email address has invalid format"@,
    {
        match self {
            EmailError::Empty => "Email address is empty",
            EmailError::MissingAt => "Email address is missing @ symbol",
            EmailError::InvalidFormat => "Email address has invalid format",
        }
    }
}

/// The validation rule for e-mail addresses: non-empty, exactly one `@`
/// separating a non-empty local part from a non-empty domain that holds a `.`.
pub open spec fn email_check(s: Seq<char>) -> Result<(), EmailError> {
    let parts = split_on(s, '@');
    if s.len() == 0 {
        Err(EmailError::Empty)
    } else if !s.contains('@') {
        Err(EmailError::MissingAt)
    } else if parts.len() != 2 || parts[0].len() == 0 || parts[1].len() == 0 {
        Err(EmailError::InvalidFormat)
    } else if !parts[1].contains('.') {
        Err(EmailError::InvalidFormat)
    } else {
        Ok(())
    }
}

/// A validated, lowercased e-mail address.
#[derive(Debug, Clone, PartialEq, Eq, Hash)]
pub struct Email(String);

impl View for Email {
    type V = Seq<char>;

    closed spec fn view(&self) -> Seq<char> {
        self.0@
    }
}

/// Validates an address given by its characters.
fn email_validate(v: &[char]) -> (res: Result<(), EmailError>)
    ensures
        res == email_check(v@),
{
    if v.len() == 0 {
        return Err(EmailError::Empty);
    }
    if !contains_char(v, '@') {
        return Err(EmailError::MissingAt);
    }
    let parts = split_chars(v, '@');
    proof {
        assert(views_of(parts@).len() == parts@.len());
    }
    if parts.len() != 2 {
        return Err(EmailError::InvalidFormat);
    }
    assert(views_of(parts@)[0] == parts@[0]@);
    assert(views_of(parts@)[1] == parts@[1]@);
    if parts[0].len() == 0 || parts[1].len() == 0 {
        return Err(EmailError::InvalidFormat);
    }
    if !contains_char(parts[1].as_slice(), '.') {
        return Err(EmailError::InvalidFormat);
    }
    Ok(())
}

/// Index of the first occurrence of `c` in `s`, or `s.len()` when absent.
pub open spec fn first_index_or_len(s: Seq<char>, c: char, k: int) -> bool {
    &&& 0 <= k <= s.len()
    &&& forall|j: int| 0 <= j < k ==> s[j] != c
    &&& k < s.len() ==> s[k] == c
}

/// Splitting a sequence without the separator yields the sequence itself.
pub proof fn lemma_split_no_sep(s: Seq<char>, c: char)
    requires
        !s.contains(c),
    ensures
        split_on(s, c) == seq![s],
    decreases s.len(),
{
    if s.len() > 0 {
        assert(!s.drop_last().contains(c)) by {
            if s.drop_last().contains(c) {
                let j = choose|j: int| 0 <= j < s.drop_last().len() && s.drop_last()[j] == c;
                assert(s[j] == c);
            }
        }
        lemma_split_no_sep(s.drop_last(), c);
        assert(s.last() != c) by {
            assert(s[s.len() - 1] == s.last());
        }
        assert(s.drop_last().push(s.last()) == s);
    } else {
        assert(s == Seq::<char>::empty());
    }
}

/// Splitting around one separator concatenates the pieces of both sides.
pub proof fn lemma_split_concat(a: Seq<char>, b: Seq<char>, c: char)
    ensures
        split_on(a + seq![c] + b, c) == split_on(a, c) + split_on(b, c),
    decreases b.len(),
{
    lemma_split_on_nonempty(a, c);
    lemma_split_on_nonempty(b, c);
    if b.len() == 0 {
        assert((a + seq![c] + b).drop_last() == a);
        assert(split_on(b, c) == seq![Seq::<char>::empty()]);
        assert(split_on(a, c).push(Seq::<char>::empty()) == split_on(a, c) + split_on(b, c));
    } else {
        let b0 = b.drop_last();
        lemma_split_concat(a, b0, c);
        lemma_split_on_nonempty(b0, c);
        assert((a + seq![c] + b).drop_last() == a + seq![c] + b0);
        assert((a + seq![c] + b).last() == b.last());
        let pa = split_on(a, c);
        let pb0 = split_on(b0, c);
        if b.last() == c {
            assert((pa + pb0).push(Seq::<char>::empty()) == pa + pb0.push(Seq::<char>::empty()));
        } else {
            assert((pa + pb0).update((pa + pb0).len() - 1, (pa + pb0).last().push(b.last()))
                == pa + pb0.update(pb0.len() - 1, pb0.last().push(b.last())));
        }
    }
}

/// The first piece of a split is the prefix before the first separator; the
/// remaining pieces are the pieces of the rest.
pub proof fn lemma_split_first(s: Seq<char>, c: char, k: int)
    requires
        first_index_or_len(s, c, k),
    ensures
        split_on(s, c)[0] == s.take(k),
        k < s.len() ==> split_on(s, c).len() >= 2,
        k < s.len() ==> split_on(s, c).skip(1) == split_on(s.skip(k + 1), c),
        k == s.len() ==> split_on(s, c).len() == 1,
{
    assert(!s.take(k).contains(c)) by {
        if s.take(k).contains(c) {
            let j = choose|j: int| 0 <= j < s.take(k).len() && s.take(k)[j] == c;
            assert(s[j] == c);
        }
    }
    lemma_split_no_sep(s.take(k), c);
    if k < s.len() {
        assert(s == s.take(k) + seq![c] + s.skip(k + 1));
        lemma_split_concat(s.take(k), s.skip(k + 1), c);
        lemma_split_on_nonempty(s.skip(k + 1), c);
        assert((seq![s.take(k)] + split_on(s.skip(k + 1), c)).skip(1) == split_on(s.skip(k + 1), c));
    } else {
        assert(s.take(k) == s);
    }
}

/// Position of the first `c` at or after `from`, or `v.len()`.
fn find_from(v: &[char], c: char, from: usize) -> (res: usize)
    requires
        from <= v.len(),
    ensures
        from <= res <= v.len(),
        forall|j: int| from <= j < res ==> v@[j] != c,
        res < v.len() ==> v@[res as int] == c,
{
    let mut i = from;
    while i < v.len()
        invariant
            from <= i <= v.len(),
            forall|j: int| from <= j < i ==> v@[j] != c,
        decreases v.len() - i,
    {
        if v[i] == c {
            return i;
        }
        i = i + 1;
    }
    i
}

/// A split into one piece is the whole sequence.
proof fn lemma_split_one(s: Seq<char>, c: char)
    requires
        split_on(s, c).len() == 1,
    ensures
        split_on(s, c)[0] == s,
    decreases s.len(),
{
    if s.len() > 0 {
        lemma_split_on_nonempty(s.drop_last(), c);
        if s.last() != c {
            lemma_split_one(s.drop_last(), c);
            assert(s.drop_last().push(s.last()) == s);
        }
    }
}

/// A split into two pieces gives back the sequence when the separator is put
/// between them.
proof fn lemma_split_two(s: Seq<char>, c: char)
    requires
        split_on(s, c).len() == 2,
    ensures
        split_on(s, c)[0] + seq![c] + split_on(s, c)[1] == s,
    decreases s.len(),
{
    if s.len() > 0 {
        let init = split_on(s.drop_last(), c);
        lemma_split_on_nonempty(s.drop_last(), c);
        if s.last() == c {
            lemma_split_one(s.drop_last(), c);
            assert(s.drop_last().push(c) == s);
        } else {
            lemma_split_two(s.drop_last(), c);
            assert(init[0] + seq![c] + init[1].push(s.last()) == (init[0] + seq![c] + init[1]).push(s.last()));
            assert(s.drop_last().push(s.last()) == s);
        }
    }
}

/// An address with exactly one `@` is its local part, `@` and its domain.
pub proof fn law_email_parts(e: Email)
    requires
        split_on(e@, '@').len() == 2,
    ensures
        split_on(e@, '@')[0] + seq!['@'] + split_on(e@, '@')[1] == e@,
{
    lemma_split_two(e@, '@');
}

impl Email {
    /// Validates `email` and stores it lowercased.
    pub fn new(email: &str) -> (res: Result<Email, EmailError>)
        ensures
            match res {
                Ok(e) => email_check(email@) is Ok && e@ == lowercase(email@)
                    && split_on(e@, '@').len() == 2
                    && (all_ascii(email@) ==> e@ == ascii_lower_seq(email@)),
                Err(err) => email_check(email@) == Err::<(), EmailError>(err),
            },
    {
        let v = chars_of(email);
        match email_validate(v.as_slice()) {
            Err(e) => Err(e),
            Ok(()) => {
                let lower = str_to_lowercase(email);
                Ok(Email(lower))
            },
        }
    }

    /// Wraps an address that is already known to be valid (no check).
    pub fn from_trusted(email: &str) -> (res: Email)
        ensures
            res@ == email@,
    {
        Email(owned(email))
    }

    /// The address.
    pub fn as_str(&self) -> (res: &str)
        ensures
            res@ == self@,
    {
        self.0.as_str()
    }

    /// The part before the first `@` (the whole address when there is none).
    pub fn local_part(&self) -> (res: &str)
        ensures
            res@ == split_on(self@, '@')[0],
    {
        let s = self.0.as_str();
        let v = chars_of(s);
        let k = find_from(v.as_slice(), '@', 0);
        proof {
            lemma_split_first(self@, '@', k as int);
        }
        s.substring_char(0, k)
    }

    /// The part between the first and the second `@` (empty when there is no `@`).
    pub fn domain(&self) -> (res: &str)
        ensures
            split_on(self@, '@').len() > 1 ==> res@ == split_on(self@, '@')[1],
            split_on(self@, '@').len() <= 1 ==> res@ == Seq::<char>::empty(),
    {
        let s = self.0.as_str();
        let v = chars_of(s);
        let k = find_from(v.as_slice(), '@', 0);
        proof {
            lemma_split_first(self@, '@', k as int);
        }
        if k == v.len() {
            proof {
                reveal_strlit("");
            }
            return "";
        }
        let k2 = find_from(v.as_slice(), '@', k + 1);
        proof {
            let rest = self@.skip(k + 1);
            assert(first_index_or_len(rest, '@', k2 - k - 1)) by {
                assert forall|j: int| 0 <= j < k2 - k - 1 implies rest[j] != '@' by {
                    assert(rest[j] == self@[j + k + 1]);
                }
                if k2 < v.len() {
                    assert(rest[k2 - k - 1] == self@[k2 as int]);
                }
            }
            lemma_split_first(rest, '@', k2 - k - 1);
            assert(split_on(self@, '@')[1] == split_on(self@, '@').skip(1)[0]);
            assert(rest.take(k2 - k - 1) == self@.subrange(k + 1, k2 as int));
        }
        s.substring_char(k + 1, k2)
    }
}

// =============================================================================
// Invite codes
// =============================================================================

/// Length of an invite code.
pub const INVITE_CODE_LENGTH: usize = 8;

/// Whether byte `b` belongs to the invite alphabet
/// `ABCDEFGHJKLMNPQRSTUVWXYZ23456789` (no `I`, `O`, `0`, `1`).
pub open spec fn in_invite_charset(b: u8) -> bool {
    ||| (65 <= b <= 90 && b != 73 && b != 79)
    ||| (50 <= b <= 57)
}

/// The low byte of a character (what `c as u8` yields).
pub open spec fn low_byte(c: char) -> u8 {
    ((c as u32) % 256) as u8
}

/// Whether a byte belongs to the invite alphabet.
pub fn invite_charset_contains(b: u8) -> (res: bool)
    ensures
        res == in_invite_charset(b),
{
    (65 <= b && b <= 90 && b != 73 && b != 79) || (50 <= b && b <= 57)
}

/// The `i`-th character of the invite alphabet.
pub open spec fn invite_char(i: int) -> char {
    if i < 8 {
        ((65 + i) as u32) as char
    } else if i < 13 {
        ((66 + i) as u32) as char
    } else if i < 24 {
        ((67 + i) as u32) as char
    } else {
        ((26 + i) as u32) as char
    }
}

/// std's `rand` `thread_rng().gen_range(0..bound)`.
#[verifier::external_body]
fn random_below(bound: usize) -> (res: usize)
    requires
        bound > 0,
    ensures
        res < bound,
{
    rand::thread_rng().gen_range(0..bound)
}

fn invite_char_at(i: usize) -> (res: char)
    requires
        i < 32,
    ensures
        res == invite_char(i as int),
        in_invite_charset(low_byte(res)),
        in_invite_alphabet(res),
{
    let u: u32 = if i < 8 {
        65 + i as u32
    } else if i < 13 {
        66 + i as u32
    } else if i < 24 {
        67 + i as u32
    } else {
        26 + i as u32
    };
    let c = char_from_u32_small(u);
    assert(low_byte(c) == u as u8);
    c
}

/// An invitation code for joining a family.
#[derive(Clone, PartialEq, Eq, Hash)]
pub struct InviteCode(String);

impl View for InviteCode {
    type V = Seq<char>;

    closed spec fn view(&self) -> Seq<char> {
        self.0@
    }
}

/// Whether `s` is acceptable as an already-normalised invite code: eight bytes
/// long, and the low byte of every character in the invite alphabet.
pub open spec fn invite_code_ok(s: Seq<char>) -> bool {
    &&& utf8_len(s) == INVITE_CODE_LENGTH
    &&& forall|i: int| 0 <= i < s.len() ==> in_invite_charset(#[trigger] low_byte(s[i]))
}

/// Whether a character is one of the invite alphabet's (`A`-`Z` without `I`
/// and `O`, and `2`-`9`).
pub open spec fn in_invite_alphabet(c: char) -> bool {
    let u = c as u32;
    (65 <= u <= 90 && u != 73 && u != 79) || (50 <= u <= 57)
}

/// Whether `other`, trimmed, spells `code` up to ASCII case (what `matches` decides).
pub open spec fn invite_matches(code: Seq<char>, other: Seq<char>) -> bool {
    ascii_lower_seq(code) == ascii_lower_seq(trim_spec(other))
}

/// Trimming keeps a sequence ASCII.
pub proof fn lemma_trim_ascii(s: Seq<char>)
    requires
        all_ascii(s),
    ensures
        all_ascii(trim_spec(s)),
{
    lemma_trim_start_ascii(s);
    lemma_trim_end_ascii(trim_start_spec(s));
}

proof fn lemma_trim_start_ascii(s: Seq<char>)
    requires
        all_ascii(s),
    ensures
        all_ascii(trim_start_spec(s)),
    decreases s.len(),
{
    if s.len() > 0 && is_white_space(s[0]) {
        assert forall|i: int| 0 <= i < s.drop_first().len() implies is_ascii_char(#[trigger] s.drop_first()[i]) by {
            assert(s.drop_first()[i] == s[i + 1]);
        }
        lemma_trim_start_ascii(s.drop_first());
    }
}

proof fn lemma_trim_end_ascii(s: Seq<char>)
    requires
        all_ascii(s),
    ensures
        all_ascii(trim_end_spec(s)),
    decreases s.len(),
{
    if s.len() > 0 && is_white_space(s.last()) {
        assert forall|i: int| 0 <= i < s.drop_last().len() implies is_ascii_char(#[trigger] s.drop_last()[i]) by {
            assert(s.drop_last()[i] == s[i]);
        }
        lemma_trim_end_ascii(s.drop_last());
    }
}

/// A code that `parse` makes of ASCII text matches that text again.
pub proof fn law_parsed_code_matches(x: Seq<char>)
    requires
        all_ascii(x),
    ensures
        invite_matches(ascii_upper_seq(trim_spec(x)), x),
{
    let t = trim_spec(x);
    let u = ascii_upper_seq(t);
    assert forall|i: int| 0 <= i < t.len() implies #[trigger] ascii_lower(u[i]) == ascii_lower(t[i]) by {
        assert(u[i] == ascii_upper(t[i]));
    }
    assert(ascii_lower_seq(u) =~= ascii_lower_seq(t));
}

/// A code made of invite-alphabet characters (as `generate` makes them)
/// matches its own text.
pub proof fn law_code_matches_itself(s: Seq<char>)
    requires
        forall|i: int| 0 <= i < s.len() ==> in_invite_alphabet(#[trigger] s[i]),
    ensures
        invite_matches(s, s),
{
    if s.len() > 0 {
        assert(!is_white_space(s[0]));
        assert(trim_start_spec(s) == s);
        assert(s.last() == s[s.len() - 1]);
        assert(!is_white_space(s.last()));
        assert(trim_end_spec(s) == s);
    }
}

impl InviteCode {
    /// A fresh random code of eight characters of the invite alphabet.
    pub fn generate() -> (res: InviteCode)
        ensures
            res@.len() == INVITE_CODE_LENGTH,
            forall|i: int| 0 <= i < res@.len() ==> in_invite_charset(#[trigger] low_byte(res@[i])),
            forall|i: int| 0 <= i < res@.len() ==> in_invite_alphabet(#[trigger] res@[i]),
    {
        let mut code = String::new();
        let mut n: usize = 0;
        while n < INVITE_CODE_LENGTH
            invariant
                n <= INVITE_CODE_LENGTH,
                code@.len() == n,
                forall|i: int| 0 <= i < code@.len() ==> in_invite_charset(#[trigger] low_byte(code@[i])),
                forall|i: int| 0 <= i < code@.len() ==> in_invite_alphabet(#[trigger] code@[i]),
            decreases INVITE_CODE_LENGTH - n,
        {
            let idx = random_below(32);
            let c = invite_char_at(idx);
            push_char(&mut code, c);
            n = n + 1;
        }
        InviteCode(code)
    }

    /// Normalises (trims white space, uppercases) and validates a code.
    pub fn parse(code: &str) -> (res: Option<InviteCode>)
        ensures
            res is Some <==> invite_code_ok(uppercase(trim_spec(code@))),
            res matches Some(c) ==> c@ == uppercase(trim_spec(code@)),
            all_ascii(code@) ==> (res is Some <==> invite_code_ok(ascii_upper_seq(trim_spec(code@)))),
            all_ascii(code@) ==> (res matches Some(c) ==> c@ == ascii_upper_seq(trim_spec(code@))),
    {
        let v = chars_of(code);
        let t = trim_chars(v.as_slice());
        let ts = string_from_chars(t.as_slice());
        let upper = str_to_uppercase(ts.as_str());
        proof {
            if all_ascii(code@) {
                lemma_trim_ascii(code@);
            }
        }
        if str_byte_len(upper.as_str()) != INVITE_CODE_LENGTH {
            return None;
        }
        let uc = chars_of(upper.as_str());
        let mut i: usize = 0;
        while i < uc.len()
            invariant
                i <= uc.len(),
                uc@ == upper@,
                upper@ == uppercase(trim_spec(code@)),
                all_ascii(code@) ==> upper@ == ascii_upper_seq(trim_spec(code@)),
                forall|j: int| 0 <= j < i ==> in_invite_charset(#[trigger] low_byte(uc@[j])),
            decreases uc.len() - i,
        {
            let b = ((uc[i] as u32) % 256) as u8;
            assert(b == low_byte(uc@[i as int]));
            if !invite_charset_contains(b) {
                assert(!in_invite_charset(low_byte(upper@[i as int])));
                assert(!invite_code_ok(upper@));
                assert(upper@ == uppercase(trim_spec(code@)));
                return None;
            }
            i = i + 1;
        }
        assert(forall|j: int| 0 <= j < upper@.len() ==> in_invite_charset(#[trigger] low_byte(upper@[j])));
        Some(InviteCode(upper))
    }

    /// The code.
    pub fn as_str(&self) -> (res: &str)
        ensures
            res@ == self@,
    {
        self.0.as_str()
    }

    /// Whether `other`, with white space trimmed, equals this code ignoring ASCII case.
    pub fn matches(&self, other: &str) -> (res: bool)
        ensures
            res == invite_matches(self@, other@),
    {
        let a = chars_of(self.0.as_str());
        let ov = chars_of(other);
        let b = trim_chars(ov.as_slice());
        eq_ignore_ascii_case(a.as_slice(), b.as_slice())
    }
}

/// Equality of two character sequences up to ASCII case.
pub fn eq_ignore_ascii_case(a: &[char], b: &[char]) -> (res: bool)
    ensures
        res == (ascii_lower_seq(a@) == ascii_lower_seq(b@)),
{
    if a.len() != b.len() {
        assert(ascii_lower_seq(a@).len() != ascii_lower_seq(b@).len());
        return false;
    }
    let mut i: usize = 0;
    while i < a.len()
        invariant
            a.len() == b.len(),
            i <= a.len(),
            forall|j: int| 0 <= j < i ==> ascii_lower(a@[j]) == ascii_lower(b@[j]),
        decreases a.len() - i,
    {
        if to_ascii_lower(a[i]) != to_ascii_lower(b[i]) {
            assert(ascii_lower_seq(a@)[i as int] != ascii_lower_seq(b@)[i as int]);
            return false;
        }
        i = i + 1;
    }
    assert(ascii_lower_seq(a@) =~= ascii_lower_seq(b@));
    true
}

// =============================================================================
// Invite role
// =============================================================================

/// Role to assign when an invitation is accepted.
#[derive(Debug, Clone, Copy, PartialEq, Eq, Hash)]
pub enum InviteRole {
    Admin,
    Member,
    Guest,
}

impl InviteRole {
    /// The role's display name.
    pub fn as_str(&self) -> (res: &'static str)
        ensures
            *self == InviteRole::Admin ==> res@ == "admin"@,
            *self == InviteRole::Member ==> res@ == "member"@,
            *self == InviteRole::Guest ==> res@ == "guest"@,
    {
        match self {
            InviteRole::Admin => "admin",
            InviteRole::Member => "member",
            InviteRole::Guest => "guest",
        }
    }
}

impl Default for InviteRole {
    fn default() -> (res: Self)
        ensures
            res == InviteRole::Member,
    {
        InviteRole::Member
    }
}

// =============================================================================
// Password hash
// =============================================================================

/// Why hashing a password failed.
#[derive(Debug, Clone, Copy, PartialEq, Eq)]
pub enum PasswordHashError {
    HashingFailed,
}

/// A password hash in PHC string format (Argon2id).
#[derive(Clone, PartialEq, Eq)]
pub struct PasswordHash(String);

impl View for PasswordHash {
    type V = Seq<char>;

    closed spec fn view(&self) -> Seq<char> {
        self.0@
    }
}

/// Whether `s` parses as a PHC password-hash string.
pub uninterp spec fn phc_parses(s: Seq<char>) -> bool;

/// Whether Argon2 accepts `password` against the PHC string `hash`.
pub uninterp spec fn argon2_accepts(hash: Seq<char>, password: Seq<char>) -> bool;

/// Whether `password` verifies against the stored hash text `hash`.
pub open spec fn password_matches(hash: Seq<char>, password: Seq<char>) -> bool {
    phc_parses(hash) && argon2_accepts(hash, password)
}

/// `password_hash::PasswordHash::new(hash).is_ok()`.
#[verifier::external_body]
fn phc_string_parses(hash: &str) -> (res: bool)
    ensures
        res == phc_parses(hash@),
{
    argon2::password_hash::PasswordHash::new(hash).is_ok()
}

/// `Argon2::default().verify_password(password, &parsed(hash)).is_ok()`.
#[verifier::external_body]
fn argon2_verify_password(hash: &str, password: &str) -> (res: bool)
    requires
        phc_parses(hash@),
    ensures
        res == argon2_accepts(hash@, password@),
{
    let parsed = argon2::password_hash::PasswordHash::new(hash).unwrap();
    argon2::Argon2::default().verify_password(password.as_bytes(), &parsed).is_ok()
}

/// `Argon2::default().hash_password(password, &SaltString::generate(OsRng))`,
/// rendered as a PHC string. The salt is random, so the text itself is not
/// stated; what the crate documents is that the string parses back as a PHC
/// hash and that the same password verifies against it.
#[verifier::external_body]
fn argon2_hash_password(password: &str) -> (res: Option<String>)
    ensures
        res matches Some(s) ==> phc_parses(s@) && argon2_accepts(s@, password@),
{
    let salt = SaltString::generate(&mut OsRng);
    match argon2::Argon2::default().hash_password(password.as_bytes(), &salt) {
        Ok(h) => Some(h.to_string()),
        Err(_) => None,
    }
}

impl PasswordHash {
    /// Wraps an existing PHC string.
    pub fn from_hash(hash: &str) -> (res: PasswordHash)
        ensures
            res@ == hash@,
    {
        PasswordHash(owned(hash))
    }

    /// The PHC string, for storage.
    pub fn to_string_for_storage(&self) -> (res: String)
        ensures
            res@ == self@,
    {
        self.0.clone()
    }

    /// Whether `password` matches this hash; a hash that does not parse matches nothing.
    pub fn verify(&self, password: &str) -> (res: bool)
        ensures
            res == password_matches(self@, password@),
    {
        if !phc_string_parses(self.0.as_str()) {
            return false;
        }
        argon2_verify_password(self.0.as_str(), password)
    }

    /// Hashes `password` with a fresh random salt; the same password then
    /// verifies against the hash that comes back.
    pub fn hash(password: &str) -> (res: Result<PasswordHash, PasswordHashError>)
        ensures
            res matches Err(e) ==> e == PasswordHashError::HashingFailed,
            res matches Ok(h) ==> password_matches(h@, password@),
    {
        match argon2_hash_password(password) {
            Some(s) => Ok(PasswordHash(s)),
            None => Err(PasswordHashError::HashingFailed),
        }
    }
}

// =============================================================================
// Session token
// =============================================================================

/// The SHA-256 digest of a byte sequence.
pub uninterp spec fn sha256(data: Seq<u8>) -> Seq<u8>;

/// `<sha2::Sha256 as Digest>::digest(data)`, as a vector of its 32 bytes.
#[verifier::external_body]
pub(crate) fn sha256_digest(data: &[u8]) -> (res: Vec<u8>)
    ensures
        res@ == sha256(data@),
        res@.len() == 32,
{
    sha2::Sha256::digest(data).to_vec()
}

/// Lowercase hexadecimal digit for a nibble.
pub open spec fn hex_digit(n: u8) -> char {
    if n < 10 { ((48 + n) as u32) as char } else { ((87 + n) as u32) as char }
}

/// Lowercase hexadecimal rendering of bytes, two digits per byte.
pub open spec fn lower_hex(data: Seq<u8>) -> Seq<char>
    decreases data.len(),
{
    if data.len() == 0 {
        Seq::empty()
    } else {
        lower_hex(data.drop_last()) + seq![hex_digit(data.last() / 16), hex_digit(data.last() % 16)]
    }
}

fn hex_digit_char(n: u8) -> (res: char)
    requires
        n < 16,
    ensures
        res == hex_digit(n),
{
    if n < 10 {
        char_from_u32_small(48 + n as u32)
    } else {
        char_from_u32_small(87 + n as u32)
    }
}

/// Lowercase hex rendering of bytes.
pub fn to_lower_hex(data: &[u8]) -> (res: String)
    ensures
        res@ == lower_hex(data@),
{
    let mut res = String::new();
    let mut i: usize = 0;
    while i < data.len()
        invariant
            i <= data.len(),
            res@ == lower_hex(data@.take(i as int)),
        decreases data.len() - i,
    {
        let b = data[i];
        push_char(&mut res, hex_digit_char(b / 16));
        push_char(&mut res, hex_digit_char(b % 16));
        assert(data@.take(i + 1).drop_last() == data@.take(i as int));
        i = i + 1;
    }
    assert(data@.take(data.len() as int) == data@);
    res
}

/// The alphanumeric ASCII characters `a-z`, `A-Z`, `0-9`.
pub open spec fn is_ascii_alphanumeric(c: char) -> bool {
    ('a' <= c && c <= 'z') || ('A' <= c && c <= 'Z') || ('0' <= c && c <= '9')
}

/// `char::from(thread_rng().sample(rand::distributions::Alphanumeric))`.
#[verifier::external_body]
fn random_alphanumeric() -> (res: char)
    ensures
        is_ascii_alphanumeric(res),
{
    char::from(rand::thread_rng().sample(rand::distributions::Alphanumeric))
}

/// The stored form of a session token: lowercase hex SHA-256 of its UTF-8 bytes.
pub open spec fn token_hash(token: Seq<char>) -> Seq<char> {
    lower_hex(sha256(encode_utf8(token)))
}

/// A session (bearer) token.
#[derive(Clone, PartialEq, Eq)]
pub struct SessionToken(String);

impl View for SessionToken {
    type V = Seq<char>;

    closed spec fn view(&self) -> Seq<char> {
        self.0@
    }
}

/// Length of a generated session token.
pub const SESSION_TOKEN_LENGTH: usize = 64;

impl SessionToken {
    /// A fresh random token of 64 alphanumeric ASCII characters.
    pub fn generate() -> (res: SessionToken)
        ensures
            res@.len() == SESSION_TOKEN_LENGTH,
            forall|i: int| 0 <= i < res@.len() ==> is_ascii_alphanumeric(#[trigger] res@[i]),
    {
        let mut s = String::new();
        let mut n: usize = 0;
        while n < SESSION_TOKEN_LENGTH
            invariant
                n <= SESSION_TOKEN_LENGTH,
                s@.len() == n,
                forall|i: int| 0 <= i < s@.len() ==> is_ascii_alphanumeric(#[trigger] s@[i]),
            decreases SESSION_TOKEN_LENGTH - n,
        {
            push_char(&mut s, random_alphanumeric());
            n = n + 1;
        }
        SessionToken(s)
    }

    /// Wraps an existing token string.
    pub fn from_string(token: &str) -> (res: SessionToken)
        ensures
            res@ == token@,
    {
        SessionToken(owned(token))
    }

    /// The token.
    pub fn as_str(&self) -> (res: &str)
        ensures
            res@ == self@,
    {
        self.0.as_str()
    }

    /// Lowercase hex SHA-256 of the token's bytes.
    pub fn hash(&self) -> (res: String)
        ensures
            res@ == token_hash(self@),
    {
        let bytes = self.0.as_str().as_bytes();
        let digest = sha256_digest(bytes);
        to_lower_hex(digest.as_slice())
    }

    /// Whether `hash` is the stored form of this token.
    pub fn matches_hash(&self, hash: &str) -> (res: bool)
        ensures
            res == (token_hash(self@) == hash@),
    {
        let h = self.hash();
        str_eq(h.as_str(), hash)
    }
}

// =============================================================================
// Token budgets
// =============================================================================

/// Maximum number of tokens for input/output.
#[derive(Debug, Clone, Copy, PartialEq, Eq)]
pub struct MaxTokens(u32);

impl View for MaxTokens {
    type V = u32;

    closed spec fn view(&self) -> u32 {
        self.0
    }
}

impl MaxTokens {
    /// Budget used for classification.
    pub fn classification() -> (res: MaxTokens)
        ensures
            res@ == 2048,
    {
        MaxTokens(2048)
    }

    /// Extended budget.
    pub fn extended() -> (res: MaxTokens)
        ensures
            res@ == 4096,
    {
        MaxTokens(4096)
    }

    /// Minimal budget.
    pub fn minimal() -> (res: MaxTokens)
        ensures
            res@ == 512,
    {
        MaxTokens(512)
    }

    /// A budget of `value` tokens.
    pub fn new(value: u32) -> (res: MaxTokens)
        ensures
            res@ == value,
    {
        MaxTokens(value)
    }

    /// The budget.
    pub fn value(&self) -> (res: u32)
        ensures
            res == self@,
    {
        self.0
    }
}

impl Default for MaxTokens {
    fn default() -> (res: Self)
        ensures
            res@ == 2048,
    {
        MaxTokens(2048)
    }
}

/// Token usage statistics from a completion.
#[derive(Debug, Clone, Copy, Default, PartialEq, Eq)]
pub struct TokenUsage {
    pub prompt_tokens: u32,
    pub completion_tokens: u32,
    pub total_tokens: u32,
}

impl TokenUsage {
    /// Usage whose total is the sum of prompt and completion tokens.
    pub fn new(prompt: u32, completion: u32) -> (res: TokenUsage)
        requires
            prompt + completion <= u32::MAX,
        ensures
            res.prompt_tokens == prompt,
            res.completion_tokens == completion,
            res.total_tokens == prompt + completion,
    {
        TokenUsage { prompt_tokens: prompt, completion_tokens: completion, total_tokens: prompt + completion }
    }
}

// =============================================================================
// API key
// =============================================================================

/// An API key that is never rendered in logs.
#[derive(Clone, PartialEq, Eq)]
pub struct ApiKey(String);

impl View for ApiKey {
    type V = Seq<char>;

    closed spec fn view(&self) -> Seq<char> {
        self.0@
    }
}

impl ApiKey {
    /// Accepts keys of at least ten bytes.
    pub fn new(key: String) -> (res: Result<ApiKey, String>)
        ensures
            key@.len() == 0 ==> (res matches Err(m) && m@ == "API key cannot be empty"@),
            key@.len() > 0 && utf8_len(key@) < 10 ==> (res matches Err(m) && m@
                == "API key appears too short"@),
            key@.len() > 0 && utf8_len(key@) >= 10 ==> (res matches Ok(k) && k@ == key@),
    {
        if key.as_str().is_empty() {
            return Err(owned("API key cannot be empty"));
        }
        if str_byte_len(key.as_str()) < 10 {
            return Err(owned("API key appears too short"));
        }
        Ok(ApiKey(key))
    }

    /// The key.
    pub fn as_str(&self) -> (res: &str)
        ensures
            res@ == self@,
    {
        self.0.as_str()
    }

    /// The redacted rendering used for display and serialisation.
    pub fn redacted(&self) -> (res: &'static str)
        ensures
            res@ == "[REDACTED]"@,
    {
        "[REDACTED]"
    }
}

// =============================================================================
// Quantized coordinate
// =============================================================================

/// A coordinate in the 3D VAE manifold, scaled by `QUANTIZED_SCALE`.
#[derive(Debug, Clone, Copy, PartialEq, Eq, Hash)]
pub struct QuantizedCoord(i64);

/// Scale of a quantized coordinate: 1.0 is stored as one million.
pub const QUANTIZED_SCALE: i64 = 1_000_000;

impl View for QuantizedCoord {
    type V = i64;

    closed spec fn view(&self) -> i64 {
        self.0
    }
}

impl QuantizedCoord {
    /// A coordinate holding `value`.
    pub fn new(value: i64) -> (res: QuantizedCoord)
        ensures
            res@ == value,
    {
        QuantizedCoord(value)
    }

    /// The stored value.
    pub fn value(&self) -> (res: i64)
        ensures
            res == self@,
    {
        self.0
    }

    /// The origin.
    pub fn zero() -> (res: QuantizedCoord)
        ensures
            res@ == 0,
    {
        QuantizedCoord(0)
    }

    /// The sum of two coordinates; the sum must fit an `i64`.
    pub fn add(self, other: QuantizedCoord) -> (res: QuantizedCoord)
        requires
            i64::MIN <= self@ + other@ <= i64::MAX,
        ensures
            res@ == self@ + other@,
    {
        QuantizedCoord(self.0 + other.0)
    }

    /// Component-wise difference.
    pub fn sub(self, other: QuantizedCoord) -> (res: QuantizedCoord)
        requires
            i64::MIN <= self@ - other@ <= i64::MAX,
        ensures
            res@ == self@ - other@,
    {
        QuantizedCoord(self.0 - other.0)
    }
}

impl Default for QuantizedCoord {
    fn default() -> (res: Self)
        ensures
            res@ == 0,
    {
        QuantizedCoord(0)
    }
}

// =============================================================================
// Database settings
// =============================================================================

/// A validated PostgreSQL connection string.
#[derive(Debug, Clone, PartialEq, Eq)]
pub struct DbConnectionString(String);

impl View for DbConnectionString {
    type V = Seq<char>;

    closed spec fn view(&self) -> Seq<char> {
        self.0@
    }
}

impl DbConnectionString {
    /// Accepts non-empty URLs starting with `postgres://` or `postgresql://`.
    pub fn new(url: &str) -> (res: Result<DbConnectionString, String>)
        ensures
            url@.len() == 0 ==> (res matches Err(m) && m@ == "Connection string cannot be empty"@),
            url@.len() > 0 && !starts_with_spec(url@, "postgres://"@) && !starts_with_spec(
                url@,
                "postgresql://"@,
            ) ==> (res matches Err(m) && m@
                == "Connection string must start with postgres:// or postgresql://"@),
            url@.len() > 0 && (starts_with_spec(url@, "postgres://"@) || starts_with_spec(
                url@,
                "postgresql://"@,
            )) ==> (res matches Ok(c) && c@ == url@),
    {
        let v = chars_of(url);
        if v.len() == 0 {
            return Err(owned("Connection string cannot be empty"));
        }
        let p1 = chars_of("postgres://");
        let p2 = chars_of("postgresql://");
        if !starts_with(v.as_slice(), p1.as_slice()) && !starts_with(v.as_slice(), p2.as_slice()) {
            return Err(owned("Connection string must start with postgres:// or postgresql://"));
        }
        Ok(DbConnectionString(owned(url)))
    }

    /// The URL.
    pub fn as_str(&self) -> (res: &str)
        ensures
            res@ == self@,
    {
        self.0.as_str()
    }
}

impl Default for DbConnectionString {
    fn default() -> (res: Self)
        ensures
            res@ == "postgresql://localhost:5432/familiar"@,
    {
        DbConnectionString(owned("postgresql://localhost:5432/familiar"))
    }
}

/// Connection pool size, between 1 and 100.
#[derive(Debug, Clone, Copy, PartialEq, Eq)]
pub struct DbPoolSize(u32);

/// Smallest accepted pool size.
pub const DB_POOL_MIN: u32 = 1;

/// Largest accepted pool size.
pub const DB_POOL_MAX: u32 = 100;

/// Default pool size.
pub const DB_POOL_DEFAULT: u32 = 5;

impl View for DbPoolSize {
    type V = u32;

    closed spec fn view(&self) -> u32 {
        self.0
    }
}

impl DbPoolSize {
    /// Accepts sizes between 1 and 100.
    pub fn new(size: u32) -> (res: Result<DbPoolSize, String>)
        ensures
            DB_POOL_MIN <= size <= DB_POOL_MAX ==> (res matches Ok(p) && p@ == size),
            !(DB_POOL_MIN <= size <= DB_POOL_MAX) ==> (res matches Err(m) && m@ == "Pool size "@
                + decimal(size as nat) + " must be between 1 and 100"@),
    {
        if size < DB_POOL_MIN || size > DB_POOL_MAX {
            let n = u64_to_string(size as u64);
            return Err(concat3("Pool size ", n.as_str(), " must be between 1 and 100"));
        }
        Ok(DbPoolSize(size))
    }

    /// The size.
    pub fn value(&self) -> (res: u32)
        ensures
            res == self@,
    {
        self.0
    }
}

impl Default for DbPoolSize {
    fn default() -> (res: Self)
        ensures
            res@ == DB_POOL_DEFAULT,
    {
        DbPoolSize(DB_POOL_DEFAULT)
    }
}

} // verus!
