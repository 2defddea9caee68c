//! Resolving thread subjects: normalising names and measuring how far apart
//! two names are, so that "John" and "Jon" can be taken for the same thread.

use vstd::prelude::*;
use crate::ids::{is_random_uuid, UUID};
use crate::primitives::lemma_trim_ascii;
use crate::text::{all_ascii, ascii_lower_seq, str_eq, chars_of, lowercase, lowercase_chars, starts_with_spec, string_from_chars, trim_chars, trim_spec};

verus! {

/// `s` with every leading repetition of the non-empty `p` removed (std's
/// `trim_start_matches` with a string pattern).
pub open spec fn strip_prefixes(s: Seq<char>, p: Seq<char>) -> Seq<char>
    decreases s.len(),
{
    if p.len() > 0 && starts_with_spec(s, p) {
        strip_prefixes(s.skip(p.len() as int), p)
    } else {
        s
    }
}

/// A subject as matched: trimmed, lowercased, without leading `the `, `a `
/// and `an ` (each removed as often as it repeats, in that order).
pub open spec fn normalized_subject(subject: Seq<char>) -> Seq<char> {
    strip_prefixes(strip_prefixes(strip_prefixes(lowercase(trim_spec(subject)), "the "@), "a "@), "an "@)
}

/// `normalized_subject` for ASCII text, where lowercasing is ASCII lowercasing.
pub open spec fn ascii_normalized_subject(subject: Seq<char>) -> Seq<char> {
    strip_prefixes(strip_prefixes(strip_prefixes(ascii_lower_seq(trim_spec(subject)), "the "@), "a "@), "an "@)
}

/// Whether `s` starts with one of the articles `the `, `a `, `an `.
pub open spec fn starts_with_article(s: Seq<char>) -> bool {
    starts_with_spec(s, "the "@) || starts_with_spec(s, "a "@) || starts_with_spec(s, "an "@)
}

/// Stripping a prefix that is not there leaves the text as it is.
proof fn lemma_strip_absent(s: Seq<char>, p: Seq<char>)
    requires
        !starts_with_spec(s, p),
    ensures
        strip_prefixes(s, p) == s,
{
}

/// Stripping `p` from `p` followed by text that does not start with `p` leaves that text.
proof fn lemma_strip_once(p: Seq<char>, w: Seq<char>)
    requires
        p.len() > 0,
        !starts_with_spec(w, p),
    ensures
        strip_prefixes(p + w, p) == w,
{
    assert((p + w).take(p.len() as int) =~= p);
    assert(starts_with_spec(p + w, p));
    assert((p + w).skip(p.len() as int) =~= w);
    assert(strip_prefixes(w, p) == w);
    assert(strip_prefixes(p + w, p) == strip_prefixes((p + w).skip(p.len() as int), p));
}

/// A subject whose trimmed, lowercased text is a leading article followed by
/// a word that starts with no article normalises to that word.
pub proof fn law_normalize_drops_article(subject: Seq<char>, article: Seq<char>, w: Seq<char>)
    requires
        article == "the "@ || article == "a "@ || article == "an "@,
        lowercase(trim_spec(subject)) == article + w,
        !starts_with_article(w),
    ensures
        normalized_subject(subject) == w,
{
    lemma_drop_article(article, w);
}

/// The same for ASCII subjects, where lowercasing is ASCII lowercasing.
pub proof fn law_ascii_normalize_drops_article(subject: Seq<char>, article: Seq<char>, w: Seq<char>)
    requires
        article == "the "@ || article == "a "@ || article == "an "@,
        ascii_lower_seq(trim_spec(subject)) == article + w,
        !starts_with_article(w),
    ensures
        ascii_normalized_subject(subject) == w,
{
    lemma_drop_article(article, w);
}

proof fn lemma_drop_article(article: Seq<char>, w: Seq<char>)
    requires
        article == "the "@ || article == "a "@ || article == "an "@,
        !starts_with_article(w),
    ensures
        strip_prefixes(strip_prefixes(strip_prefixes(article + w, "the "@), "a "@), "an "@) == w,
{
    reveal_strlit("the ");
    reveal_strlit("a ");
    reveal_strlit("an ");
    let the = "the "@;
    let a = "a "@;
    let an = "an "@;
    lemma_strip_absent(w, the);
    lemma_strip_absent(w, a);
    lemma_strip_absent(w, an);
    if article == the {
        lemma_strip_once(the, w);
    } else if article == a {
        assert(!starts_with_spec(a + w, the)) by {
            if starts_with_spec(a + w, the) {
                assert((a + w)[0] == the[0]);
            }
        }
        lemma_strip_once(a, w);
    } else {
        assert(!starts_with_spec(an + w, the)) by {
            if starts_with_spec(an + w, the) {
                assert((an + w).take(4)[0] == the[0]);
            }
        }
        assert(!starts_with_spec(an + w, a)) by {
            if starts_with_spec(an + w, a) {
                assert((an + w).take(2)[1] == a[1]);
            }
        }
        lemma_strip_once(an, w);
    }
}

/// Removes every leading repetition of the non-empty `p`.
fn strip_prefix_all(v: Vec<char>, p: &str) -> (res: Vec<char>)
    requires
        p@.len() > 0,
    ensures
        res@ == strip_prefixes(v@, p@),
{
    let pv = chars_of(p);
    let mut i: usize = 0;
    assert(v@.skip(0) =~= v@);
    loop
        invariant
            i <= v.len(),
            pv@ == p@,
            p@.len() > 0,
            strip_prefixes(v@, p@) == strip_prefixes(v@.skip(i as int), p@),
        decreases v.len() - i,
    {
        let rest = crate::text::sub_chars(&v, i, v.len());
        proof {
            assert(rest@ =~= v@.skip(i as int));
        }
        if crate::text::starts_with(&rest, &pv) {
            proof {
                assert(v@.skip(i as int).skip(p@.len() as int) =~= v@.skip(i + p@.len()));
            }
            i = i + pv.len();
        } else {
            return rest;
        }
    }
}

/// A subject as matched: trimmed, lowercased, without leading articles.
pub fn normalize_subject(subject: &str) -> (res: String)
    ensures
        res@ == normalized_subject(subject@),
        all_ascii(subject@) ==> res@ == ascii_normalized_subject(subject@),
{
    let v = chars_of(subject);
    let t = trim_chars(&v);
    proof {
        if all_ascii(subject@) {
            lemma_trim_ascii(subject@);
        }
    }
    let l = lowercase_chars(&t);
    proof {
        reveal_strlit("the ");
        reveal_strlit("a ");
        reveal_strlit("an ");
    }
    let a = strip_prefix_all(l, "the ");
    let b = strip_prefix_all(a, "a ");
    let c = strip_prefix_all(b, "an ");
    string_from_chars(&c)
}

// ---------------------------------------------------------------------------
// Edit distance
// ---------------------------------------------------------------------------

/// The smallest of three numbers.
pub open spec fn min3(x: nat, y: nat, z: nat) -> nat {
    if x <= y && x <= z {
        x
    } else if y <= z {
        y
    } else {
        z
    }
}

/// The Levenshtein distance: the fewest single-character insertions,
/// deletions and substitutions that turn `a` into `b`.
pub open spec fn lev(a: Seq<char>, b: Seq<char>) -> nat
    decreases a.len() + b.len(),
{
    if a.len() == 0 {
        b.len()
    } else if b.len() == 0 {
        a.len()
    } else {
        min3(
            lev(a.drop_last(), b) + 1,
            lev(a, b.drop_last()) + 1,
            lev(a.drop_last(), b.drop_last()) + if a.last() == b.last() {
                0nat
            } else {
                1nat
            },
        )
    }
}

/// The distance is never more than the longer length.
pub proof fn law_lev_at_most_longer(a: Seq<char>, b: Seq<char>)
    ensures
        lev(a, b) <= if a.len() >= b.len() { a.len() } else { b.len() },
    decreases a.len() + b.len(),
{
    if a.len() > 0 && b.len() > 0 {
        law_lev_at_most_longer(a.drop_last(), b.drop_last());
    }
}

/// The distance is symmetric.
pub proof fn law_lev_symmetric(a: Seq<char>, b: Seq<char>)
    ensures
        lev(a, b) == lev(b, a),
    decreases a.len() + b.len(),
{
    if a.len() > 0 && b.len() > 0 {
        law_lev_symmetric(a.drop_last(), b);
        law_lev_symmetric(a, b.drop_last());
        law_lev_symmetric(a.drop_last(), b.drop_last());
    }
}

/// A string is at distance zero from itself.
pub proof fn law_lev_identity(a: Seq<char>)
    ensures
        lev(a, a) == 0,
    decreases a.len(),
{
    if a.len() > 0 {
        law_lev_identity(a.drop_last());
    }
}

/// The distance from the empty string is the length.
pub proof fn law_lev_empty(a: Seq<char>)
    ensures
        lev(Seq::empty(), a) == a.len(),
        lev(a, Seq::empty()) == a.len(),
{
}

/// The distance is at least the difference of the lengths.
pub proof fn law_lev_length_gap(a: Seq<char>, b: Seq<char>)
    ensures
        lev(a, b) >= a.len() - b.len(),
        lev(a, b) >= b.len() - a.len(),
    decreases a.len() + b.len(),
{
    if a.len() > 0 && b.len() > 0 {
        law_lev_length_gap(a.drop_last(), b);
        law_lev_length_gap(a, b.drop_last());
        law_lev_length_gap(a.drop_last(), b.drop_last());
    }
}

/// Two strings are at distance zero only when they are equal.
pub proof fn law_lev_zero(a: Seq<char>, b: Seq<char>)
    requires
        lev(a, b) == 0,
    ensures
        a == b,
    decreases a.len() + b.len(),
{
    if a.len() > 0 && b.len() > 0 {
        law_lev_zero(a.drop_last(), b.drop_last());
        assert(a.drop_last().push(a.last()) == a);
        assert(b.drop_last().push(b.last()) == b);
    } else {
        assert(a.len() == 0 && b.len() == 0);
        assert(a == b);
    }
}

/// Dropping the last character of the first string changes the distance by at most one.
proof fn lemma_lev_drop_first(a: Seq<char>, b: Seq<char>)
    requires
        a.len() > 0,
    ensures
        lev(a.drop_last(), b) <= lev(a, b) + 1,
    decreases a.len() + b.len(),
{
    let a1 = a.drop_last();
    if b.len() > 0 {
        lemma_lev_drop_first(a, b.drop_last());
        if a1.len() > 0 {
            assert(lev(a1, b) <= lev(a1, b.drop_last()) + 1);
        }
    }
}

/// The distance obeys the triangle law.
pub proof fn law_lev_triangle(a: Seq<char>, b: Seq<char>, c: Seq<char>)
    ensures
        lev(a, c) <= lev(a, b) + lev(b, c),
    decreases a.len() + b.len() + c.len(),
{
    law_lev_at_most_longer(a, c);
    law_lev_length_gap(a, b);
    law_lev_length_gap(b, c);
    if a.len() > 0 && b.len() > 0 && c.len() > 0 {
        let a1 = a.drop_last();
        let b1 = b.drop_last();
        let c1 = c.drop_last();
        let dab = lev(a, b);
        let dbc = lev(b, c);
        if dab == lev(a1, b) + 1 {
            law_lev_triangle(a1, b, c);
        } else if dab == lev(a, b1) + 1 {
            law_lev_triangle(a, b1, c);
            lemma_lev_drop_first(b, c);
        } else {
            assert(dab == lev(a1, b1) + if a.last() == b.last() { 0nat } else { 1nat });
            if dbc == lev(b1, c) + 1 {
                law_lev_triangle(a, b1, c);
                if b1.len() > 0 {
                    assert(lev(a, b1) <= lev(a1, b1) + 1);
                }
            } else if dbc == lev(b, c1) + 1 {
                law_lev_triangle(a, b, c1);
            } else {
                assert(dbc == lev(b1, c1) + if b.last() == c.last() { 0nat } else { 1nat });
                law_lev_triangle(a1, b1, c1);
            }
        }
    }
}

/// The Levenshtein distance between `a` and `b`, counted in characters.
pub fn levenshtein_distance(a: &str, b: &str) -> (res: usize)
    ensures
        res == lev(a@, b@),
{
    let av = chars_of(a);
    let bv = chars_of(b);
    let n = av.len();
    let m = bv.len();
    if n == 0 {
        return m;
    }
    if m == 0 {
        return n;
    }
    // prev[k] = lev(a[..i], b[..k + 1]); the column of the empty prefix of
    // `b`, which is `i` itself, is not stored.
    let mut prev: Vec<usize> = Vec::new();
    let mut j: usize = 0;
    proof {
        assert(av@.take(0) =~= Seq::<char>::empty());
    }
    while j < m
        invariant
            j <= m,
            m == bv@.len(),
            av@.take(0) =~= Seq::<char>::empty(),
            prev@.len() == j,
            forall|k: int| 0 <= k < j ==> #[trigger] prev@[k] as nat == lev(av@.take(0), bv@.take(k + 1)),
        decreases m - j,
    {
        prev.push(j + 1);
        j = j + 1;
    }
    let mut i: usize = 0;
    while i < n
        invariant
            i <= n,
            n == av@.len(),
            m == bv@.len(),
            0 < m,
            prev@.len() == m,
            forall|k: int| 0 <= k < m ==> #[trigger] prev@[k] as nat == lev(av@.take(i as int), bv@.take(k + 1)),
        decreases n - i,
    {
        let mut cur: Vec<usize> = Vec::new();
        let mut j: usize = 0;
        proof {
            assert(bv@.take(0) =~= Seq::<char>::empty());
        }
        while j < m
            invariant
                i < n,
                j <= m,
                n == av@.len(),
                m == bv@.len(),
                bv@.take(0) =~= Seq::<char>::empty(),
                prev@.len() == m,
                forall|k: int| 0 <= k < m ==> #[trigger] prev@[k] as nat == lev(av@.take(i as int), bv@.take(k + 1)),
                cur@.len() == j,
                forall|k: int| 0 <= k < j ==> #[trigger] cur@[k] as nat == lev(av@.take(i + 1), bv@.take(k + 1)),
            decreases m - j,
        {
            let cost: usize = if av[i] == bv[j] { 0 } else { 1 };
            let diag: usize = if j == 0 { i } else { prev[j - 1] };
            let left: usize = if j == 0 { i + 1 } else { cur[j - 1] };
            let up: usize = prev[j];
            proof {
                let aa = av@.take(i + 1);
                let bb = bv@.take(j + 1);
                assert(aa.drop_last() =~= av@.take(i as int));
                assert(bb.drop_last() =~= bv@.take(j as int));
                assert(aa.last() == av@[i as int]);
                assert(bb.last() == bv@[j as int]);
                if j == 0 {
                    assert(diag == lev(av@.take(i as int), bv@.take(0)));
                    assert(left == lev(aa, bv@.take(0)));
                } else {
                    assert(bv@.take(j as int) == bv@.take((j - 1) + 1));
                }
                law_lev_at_most_longer(av@.take(i as int), bv@.take(j as int));
            }
            let near: usize = if up <= left { up } else { left };
            let sub: usize = diag + cost;
            let best: usize = if near < sub { near + 1 } else { sub };
            cur.push(best);
            j = j + 1;
        }
        prev = cur;
        i = i + 1;
    }
    proof {
        assert(av@.take(n as int) =~= av@);
        assert(bv@.take((m - 1) + 1) =~= bv@);
    }
    prev[m - 1]
}

/// The best fuzzy match for a subject among threads (id and content
/// text): among the threads with content within `max` edits of the
/// subject, the first of least distance, with its distance.
pub open spec fn fuzzy_best(subject: Seq<char>, threads: Seq<(u128, Option<Seq<char>>)>, max: nat) -> Option<(u128, nat)>
    decreases threads.len(),
{
    if threads.len() == 0 {
        None
    } else {
        let best = fuzzy_best(subject, threads.drop_last(), max);
        match threads.last().1 {
            Some(text) => {
                let d = lev(subject, text);
                if d <= max && !(best matches Some(b) && b.1 <= d) {
                    Some((threads.last().0, d))
                } else {
                    best
                }
            },
            None => best,
        }
    }
}

/// Threads as plain values.
pub open spec fn threads_view(v: Seq<(UUID, Option<String>)>) -> Seq<(u128, Option<Seq<char>>)> {
    v.map_values(
        |t: (UUID, Option<String>)|
            (
                t.0@,
                match t.1 {
                    Some(s) => Some(s@),
                    None => None,
                },
            ),
    )
}

/// The thread a subject resolves to by name, allowing up to `max_distance`
/// edits: of the threads with content, the first whose content is nearest
/// the subject, if near enough.
pub fn find_fuzzy_match(subject: &str, threads: &Vec<(UUID, Option<String>)>, max_distance: usize) -> (res: Option<UUID>)
    ensures
        match fuzzy_best(subject@, threads_view(threads@), max_distance as nat) {
            Some(b) => res matches Some(id) && id@ == b.0,
            None => res is None,
        },
{
    let ghost tv = threads_view(threads@);
    let mut best: Option<(UUID, usize)> = None;
    let mut i: usize = 0;
    proof {
        assert(tv.take(0) =~= Seq::<(u128, Option<Seq<char>>)>::empty());
    }
    while i < threads.len()
        invariant
            i <= threads@.len(),
            tv == threads_view(threads@),
            match fuzzy_best(subject@, tv.take(i as int), max_distance as nat) {
                Some(b) => best matches Some(x) && x.0@ == b.0 && x.1 == b.1,
                None => best is None,
            },
        decreases threads.len() - i,
    {
        proof {
            assert(tv.take(i + 1).drop_last() =~= tv.take(i as int));
            assert(tv.take(i + 1).last() == tv[i as int]);
        }
        match &threads[i].1 {
            Some(text) => {
                let d = levenshtein_distance(subject, text.as_str());
                let better = match best {
                    Some(b) => d < b.1,
                    None => true,
                };
                if d <= max_distance && better {
                    best = Some((threads[i].0, d));
                }
            },
            None => {},
        }
        i = i + 1;
    }
    proof {
        assert(tv.take(threads@.len() as int) =~= tv);
    }
    match best {
        Some(b) => Some(b.0),
        None => None,
    }
}

/// The resolutions remembered by tenant and normalized subject.
pub struct ResolutionCache {
    entries: Vec<((u128, String), UUID)>,
}

/// Cache entries as plain values.
pub open spec fn entries_view(v: Seq<((u128, String), UUID)>) -> Seq<((u128, Seq<char>), u128)> {
    v.map_values(|e: ((u128, String), UUID)| ((e.0.0, e.0.1@), e.1@))
}

/// The first position of the key `k`, if any.
pub open spec fn key_pos(es: Seq<((u128, Seq<char>), u128)>, k: (u128, Seq<char>)) -> Option<int>
    decreases es.len(),
{
    if es.len() == 0 {
        None
    } else if es[0].0 == k {
        Some(0)
    } else {
        match key_pos(es.drop_first(), k) {
            Some(p) => Some(p + 1),
            None => None,
        }
    }
}

/// The value remembered for `k`, if any.
pub open spec fn cached_at(es: Seq<((u128, Seq<char>), u128)>, k: (u128, Seq<char>)) -> Option<u128> {
    match key_pos(es, k) {
        Some(p) => Some(es[p].1),
        None => None,
    }
}

/// `es` with `k` mapped to `v`: the value replaced where `k` is, else added.
pub open spec fn cache_put(es: Seq<((u128, Seq<char>), u128)>, k: (u128, Seq<char>), v: u128) -> Seq<((u128, Seq<char>), u128)> {
    match key_pos(es, k) {
        Some(p) => es.update(p, (k, v)),
        None => es.push((k, v)),
    }
}

proof fn lemma_key_pos(es: Seq<((u128, Seq<char>), u128)>, k: (u128, Seq<char>), p: int)
    requires
        0 <= p <= es.len(),
        forall|q: int| 0 <= q < p ==> (#[trigger] es[q]).0 != k,
        p < es.len() ==> es[p].0 == k,
    ensures
        key_pos(es, k) == if p < es.len() {
            Some(p)
        } else {
            None::<int>
        },
    decreases p,
{
    if es.len() > 0 && p > 0 {
        let d = es.drop_first();
        assert forall|q: int| 0 <= q < p - 1 implies (#[trigger] d[q]).0 != k by {
            assert(d[q] == es[q + 1]);
        }
        lemma_key_pos(d, k, p - 1);
    }
}

impl ResolutionCache {
    /// The remembered resolutions.
    pub closed spec fn entries(&self) -> Seq<((u128, Seq<char>), u128)> {
        entries_view(self.entries@)
    }

    /// An empty cache.
    pub fn new() -> (c: ResolutionCache)
        ensures
            c.entries().len() == 0,
    {
        ResolutionCache { entries: Vec::new() }
    }

    /// The number of remembered resolutions.
    pub fn len(&self) -> (n: usize)
        ensures
            n == self.entries().len(),
    {
        self.entries.len()
    }

    /// Where the key is, if it is there.
    fn position(&self, tenant: u128, subject: &str) -> (r: Option<usize>)
        ensures
            match r {
                Some(p) => key_pos(self.entries(), (tenant, subject@)) == Some(p as int) && p < self.entries@.len(),
                None => key_pos(self.entries(), (tenant, subject@)) is None,
            },
    {
        let ghost ev = self.entries();
        let mut i: usize = 0;
        while i < self.entries.len()
            invariant
                i <= self.entries@.len(),
                ev == entries_view(self.entries@),
                forall|q: int| 0 <= q < i ==> (#[trigger] ev[q]).0 != (tenant, subject@),
            decreases self.entries.len() - i,
        {
            if self.entries[i].0.0 == tenant && str_eq(self.entries[i].0.1.as_str(), subject) {
                proof {
                    assert(ev[i as int].0 == (tenant, subject@));
                    lemma_key_pos(ev, (tenant, subject@), i as int);
                }
                return Some(i);
            }
            i = i + 1;
        }
        proof {
            lemma_key_pos(ev, (tenant, subject@), i as int);
        }
        None
    }

    /// The thread remembered for a tenant's subject.
    pub fn get_cached(&self, tenant: u128, subject: &str) -> (r: Option<UUID>)
        ensures
            match cached_at(self.entries(), (tenant, subject@)) {
                Some(v) => r matches Some(id) && id@ == v,
                None => r is None,
            },
    {
        match self.position(tenant, subject) {
            Some(p) => Some(self.entries[p].1),
            None => None,
        }
    }

    /// Remembers a resolution, replacing one for the same tenant and
    /// subject; a cache holding more than 10000 resolutions is emptied
    /// first.
    pub fn cache_resolution(&mut self, tenant: u128, subject: &str, id: UUID)
        ensures
            final(self).entries() == if old(self).entries().len() > 10000 {
                seq![((tenant, subject@), id@)]
            } else {
                cache_put(old(self).entries(), (tenant, subject@), id@)
            },
    {
        if self.entries.len() > 10000 {
            self.entries.clear();
            proof {
                assert(entries_view(self.entries@) =~= Seq::<((u128, Seq<char>), u128)>::empty());
            }
        }
        let ghost before = self.entries@;
        match self.position(tenant, subject) {
            Some(p) => {
                self.entries.set(p, ((tenant, subject.to_string()), id));
                proof {
                    assert(entries_view(self.entries@) =~= entries_view(before).update(p as int, ((tenant, subject@), id@)));
                }
            },
            None => {
                self.entries.push(((tenant, subject.to_string()), id));
                proof {
                    assert(entries_view(self.entries@) =~= entries_view(before).push(((tenant, subject@), id@)));
                }
            },
        }
    }

    /// Forgets every resolution.
    pub fn clear_cache(&mut self)
        ensures
            final(self).entries().len() == 0,
    {
        self.entries.clear();
    }
}

/// The cache after a resolution of `k` to `v` is remembered (see `cache_resolution`).
pub open spec fn remembered(es: Seq<((u128, Seq<char>), u128)>, k: (u128, Seq<char>), v: u128) -> Seq<((u128, Seq<char>), u128)> {
    if es.len() > 10000 {
        seq![(k, v)]
    } else {
        cache_put(es, k, v)
    }
}

/// What the resolver asks of its thread store next, or the thread it settled on.
pub enum ResolveAction {
    /// Look up a thread whose name is exactly the normalised subject.
    FindExact,
    /// Load the tenant's threads with their names, for fuzzy matching.
    LoadThreads,
    /// The subject resolves to this thread.
    Resolved(UUID),
}

/// What the thread store answered.
pub enum ResolveEvent {
    /// Nothing has been asked yet.
    Start,
    /// The answer to `FindExact`.
    Exact(Option<UUID>),
    /// The answer to `LoadThreads`: each thread's id and name, if it has one.
    Threads(Vec<(UUID, Option<String>)>),
}

/// A fresh thread id was made, remembered and returned.
pub open spec fn resolved_fresh(action: ResolveAction, before: Seq<((u128, Seq<char>), u128)>, after: Seq<((u128, Seq<char>), u128)>, k: (u128, Seq<char>)) -> bool {
    action matches ResolveAction::Resolved(r) && is_random_uuid(r@) && after == remembered(before, k, r@)
}

impl ResolutionCache {
    /// One decision of the resolution order for the normalised subject
    /// `subject` of `tenant`: a cached thread first; else a thread named
    /// exactly so; else, when fuzzy matching is on, the nearest thread within
    /// `max_distance` edits; else a new thread. Every resolution that is not
    /// taken from the cache is remembered. The caller performs the action
    /// asked for and hands back the store's answer.
    pub fn resolve_step(&mut self, tenant: u128, subject: &str, enable_fuzzy: bool, max_distance: usize, event: ResolveEvent) -> (action: ResolveAction)
        ensures
            match event {
                ResolveEvent::Start => final(self).entries() == old(self).entries() && match cached_at(old(self).entries(), (tenant, subject@)) {
                    Some(v) => action matches ResolveAction::Resolved(r) && r@ == v,
                    None => action is FindExact,
                },
                ResolveEvent::Exact(Some(id)) => action matches ResolveAction::Resolved(r) && r == id
                    && final(self).entries() == remembered(old(self).entries(), (tenant, subject@), id@),
                ResolveEvent::Exact(None) => if enable_fuzzy {
                    action is LoadThreads && final(self).entries() == old(self).entries()
                } else {
                    resolved_fresh(action, old(self).entries(), final(self).entries(), (tenant, subject@))
                },
                ResolveEvent::Threads(rows) => match fuzzy_best(subject@, threads_view(rows@), max_distance as nat) {
                    Some(b) => action matches ResolveAction::Resolved(r) && r@ == b.0
                        && final(self).entries() == remembered(old(self).entries(), (tenant, subject@), b.0),
                    None => resolved_fresh(action, old(self).entries(), final(self).entries(), (tenant, subject@)),
                },
            },
    {
        match event {
            ResolveEvent::Start => match self.get_cached(tenant, subject) {
                Some(id) => ResolveAction::Resolved(id),
                None => ResolveAction::FindExact,
            },
            ResolveEvent::Exact(Some(id)) => {
                self.cache_resolution(tenant, subject, id);
                ResolveAction::Resolved(id)
            },
            ResolveEvent::Exact(None) => {
                if enable_fuzzy {
                    ResolveAction::LoadThreads
                } else {
                    let id = UUID::new();
                    self.cache_resolution(tenant, subject, id);
                    ResolveAction::Resolved(id)
                }
            },
            ResolveEvent::Threads(rows) => {
                let id = match find_fuzzy_match(subject, &rows, max_distance) {
                    Some(id) => id,
                    None => UUID::new(),
                };
                self.cache_resolution(tenant, subject, id);
                ResolveAction::Resolved(id)
            },
        }
    }
}

proof fn lemma_key_pos_spec(es: Seq<((u128, Seq<char>), u128)>, k: (u128, Seq<char>))
    ensures
        match key_pos(es, k) {
            Some(p) => 0 <= p < es.len() && es[p].0 == k && forall|q: int| 0 <= q < p ==> (#[trigger] es[q]).0 != k,
            None => forall|q: int| 0 <= q < es.len() ==> (#[trigger] es[q]).0 != k,
        },
    decreases es.len(),
{
    if es.len() > 0 {
        let d = es.drop_first();
        lemma_key_pos_spec(d, k);
        if es[0].0 != k {
            match key_pos(d, k) {
                Some(p) => {
                    assert(es[p + 1] == d[p]);
                    assert forall|q: int| 0 <= q < p + 1 implies (#[trigger] es[q]).0 != k by {
                        if q > 0 {
                            assert(es[q] == d[q - 1]);
                        }
                    }
                },
                None => {
                    assert forall|q: int| 0 <= q < es.len() implies (#[trigger] es[q]).0 != k by {
                        if q > 0 {
                            assert(es[q] == d[q - 1]);
                        }
                    }
                },
            }
        }
    }
}

/// A cache gives back the resolution last remembered for a key, and what
/// it held for every other key.
pub proof fn law_cache_then_get(es: Seq<((u128, Seq<char>), u128)>, k: (u128, Seq<char>), v: u128, k2: (u128, Seq<char>))
    ensures
        cached_at(cache_put(es, k, v), k2) == if k2 == k {
            Some(v)
        } else {
            cached_at(es, k2)
        },
{
    lemma_key_pos_spec(es, k);
    lemma_key_pos_spec(es, k2);
    let t = cache_put(es, k, v);
    match key_pos(es, k) {
        Some(p) => {
            if k2 == k {
                assert forall|q: int| 0 <= q < p implies (#[trigger] t[q]).0 != k2 by {
                    assert(t[q] == es[q]);
                }
                lemma_key_pos(t, k2, p);
            } else {
                match key_pos(es, k2) {
                    Some(p2) => {
                        assert(p2 != p);
                        assert forall|q: int| 0 <= q < p2 implies (#[trigger] t[q]).0 != k2 by {
                            if q != p {
                                assert(t[q] == es[q]);
                            }
                        }
                        assert(t[p2] == es[p2]);
                        lemma_key_pos(t, k2, p2);
                    },
                    None => {
                        assert forall|q: int| 0 <= q < t.len() implies (#[trigger] t[q]).0 != k2 by {
                            if q != p {
                                assert(t[q] == es[q]);
                            }
                        }
                        lemma_key_pos(t, k2, t.len() as int);
                    },
                }
            }
        },
        None => {
            if k2 == k {
                assert forall|q: int| 0 <= q < es.len() implies (#[trigger] t[q]).0 != k2 by {
                    assert(t[q] == es[q]);
                }
                lemma_key_pos(t, k2, es.len() as int);
            } else {
                match key_pos(es, k2) {
                    Some(p2) => {
                        assert forall|q: int| 0 <= q < p2 implies (#[trigger] t[q]).0 != k2 by {
                            assert(t[q] == es[q]);
                        }
                        assert(t[p2] == es[p2]);
                        lemma_key_pos(t, k2, p2);
                    },
                    None => {
                        assert forall|q: int| 0 <= q < t.len() implies (#[trigger] t[q]).0 != k2 by {
                            if q < es.len() {
                                assert(t[q] == es[q]);
                            }
                        }
                        lemma_key_pos(t, k2, t.len() as int);
                    },
                }
            }
        },
    }
}

/// A resolution that `resolve_step` remembers is what the next `Start` for
/// the same tenant and normalised subject answers from the cache, without
/// asking the store.
pub proof fn law_resolution_remembered(es: Seq<((u128, Seq<char>), u128)>, k: (u128, Seq<char>), v: u128)
    ensures
        cached_at(remembered(es, k, v), k) == Some(v),
{
    if es.len() > 10000 {
        lemma_key_pos_spec(seq![(k, v)], k);
    } else {
        law_cache_then_get(es, k, v, k);
    }
}

} // verus!
