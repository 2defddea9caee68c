//! The order of strings (lexicographic by code point, which is the byte order
//! of their UTF-8 encoding), and sorted lists of distinct strings.

use vstd::prelude::*;
use crate::text::chars_of;

verus! {

/// `a` comes before `b`: a proper prefix, or smaller at the first difference.
pub open spec fn text_lt(a: Seq<char>, b: Seq<char>) -> bool
    decreases a.len(),
{
    if a.len() == 0 {
        b.len() > 0
    } else if b.len() == 0 {
        false
    } else if (a[0] as int) < (b[0] as int) {
        true
    } else if a[0] == b[0] {
        text_lt(a.drop_first(), b.drop_first())
    } else {
        false
    }
}

/// Every string comes before every later one.
pub open spec fn strictly_sorted(s: Seq<Seq<char>>) -> bool {
    forall|i: int, j: int| 0 <= i < j < s.len() ==> text_lt(#[trigger] s[i], #[trigger] s[j])
}

/// No string comes before itself.
pub proof fn lemma_lt_irreflexive(a: Seq<char>)
    ensures
        !text_lt(a, a),
    decreases a.len(),
{
    if a.len() > 0 {
        lemma_lt_irreflexive(a.drop_first());
    }
}

/// The order is transitive.
pub proof fn lemma_lt_transitive(a: Seq<char>, b: Seq<char>, c: Seq<char>)
    requires
        text_lt(a, b),
        text_lt(b, c),
    ensures
        text_lt(a, c),
    decreases a.len(),
{
    if a.len() > 0 && b.len() > 0 && c.len() > 0 {
        if a[0] == b[0] && b[0] == c[0] {
            lemma_lt_transitive(a.drop_first(), b.drop_first(), c.drop_first());
        }
    }
}

/// Of two different strings, one comes before the other.
pub proof fn lemma_lt_total(a: Seq<char>, b: Seq<char>)
    requires
        a != b,
    ensures
        text_lt(a, b) || text_lt(b, a),
    decreases a.len(),
{
    if a.len() > 0 && b.len() > 0 && a[0] == b[0] {
        if a.drop_first() == b.drop_first() {
            assert(a =~= seq![a[0]] + a.drop_first());
            assert(b =~= seq![b[0]] + b.drop_first());
        }
        lemma_lt_total(a.drop_first(), b.drop_first());
    } else if a.len() > 0 && b.len() > 0 {
        assert((a[0] as int) != (b[0] as int));
    } else if a.len() == 0 && b.len() == 0 {
        assert(a =~= b);
    }
}

/// Whether `a` comes before `b`.
pub fn text_less(a: &str, b: &str) -> (res: bool)
    ensures
        res == text_lt(a@, b@),
{
    let x = chars_of(a);
    let y = chars_of(b);
    let mut i: usize = 0;
    proof {
        assert(a@.skip(0) =~= a@);
        assert(b@.skip(0) =~= b@);
    }
    while i < x.len() && i < y.len() && x[i] == y[i]
        invariant
            i <= x@.len(),
            i <= y@.len(),
            x@ == a@,
            y@ == b@,
            text_lt(a@, b@) == text_lt(a@.skip(i as int), b@.skip(i as int)),
        decreases x@.len() - i,
    {
        proof {
            assert(a@.skip(i as int).drop_first() =~= a@.skip(i as int + 1));
            assert(b@.skip(i as int).drop_first() =~= b@.skip(i as int + 1));
        }
        i = i + 1;
    }
    proof {
        assert(a@.skip(i as int).len() == x@.len() - i);
        assert(b@.skip(i as int).len() == y@.len() - i);
        if i < x@.len() && i < y@.len() {
            assert(a@.skip(i as int)[0] == x@[i as int]);
            assert(b@.skip(i as int)[0] == y@[i as int]);
        }
    }
    if i == x.len() {
        i < y.len()
    } else if i == y.len() {
        false
    } else {
        x[i] < y[i]
    }
}

/// Strings as plain texts.
pub open spec fn texts_of(v: Seq<String>) -> Seq<Seq<char>> {
    v.map_values(|s: String| s@)
}

/// Adds `x` to a strictly sorted list of strings, unless it is there.
pub fn insert_sorted(v: &mut Vec<String>, x: String)
    requires
        strictly_sorted(texts_of(old(v)@)),
    ensures
        strictly_sorted(texts_of(final(v)@)),
        texts_of(final(v)@).to_set() == texts_of(old(v)@).to_set().insert(x@),
{
    let ghost old_t = texts_of(v@);
    let mut p: usize = 0;
    while p < v.len() && text_less(v[p].as_str(), x.as_str())
        invariant
            p <= v@.len(),
            old_t == texts_of(v@),
            strictly_sorted(old_t),
            forall|k: int| 0 <= k < p ==> text_lt(#[trigger] old_t[k], x@),
        decreases v@.len() - p,
    {
        p = p + 1;
    }
    if p < v.len() && crate::text::str_eq(v[p].as_str(), x.as_str()) {
        proof {
            assert(old_t[p as int] == x@);
            assert(old_t.to_set().insert(x@) =~= old_t.to_set());
        }
        return;
    }
    let ghost xv = x@;
    v.insert(p, x);
    proof {
        let t = texts_of(v@);
        assert(t =~= old_t.insert(p as int, xv));
        if p < old_t.len() {
            assert(!text_lt(old_t[p as int], xv));
            assert(old_t[p as int] != xv);
            lemma_lt_total(old_t[p as int], xv);
        }
        assert forall|i: int, j: int| 0 <= i < j < t.len() implies text_lt(#[trigger] t[i], #[trigger] t[j]) by {
            if j < p {
                assert(t[i] == old_t[i] && t[j] == old_t[j]);
            } else if j == p {
                assert(t[i] == old_t[i]);
            } else if i == p {
                assert(t[j] == old_t[j - 1]);
                if j - 1 > p {
                    lemma_lt_transitive(xv, old_t[p as int], old_t[j - 1]);
                }
            } else if i < p {
                assert(t[i] == old_t[i] && t[j] == old_t[j - 1]);
            } else {
                assert(t[i] == old_t[i - 1] && t[j] == old_t[j - 1]);
            }
        }
        assert forall|y: Seq<char>| t.to_set().contains(y) <==> old_t.to_set().insert(xv).contains(y) by {
            if t.to_set().contains(y) {
                let k = choose|k: int| 0 <= k < t.len() && t[k] == y;
                if k < p {
                    assert(old_t[k] == y);
                } else if k > p {
                    assert(old_t[k - 1] == y);
                }
            }
            if old_t.to_set().contains(y) {
                let k = choose|k: int| 0 <= k < old_t.len() && old_t[k] == y;
                if k < p {
                    assert(t[k] == y);
                } else {
                    assert(t[k + 1] == y);
                }
            }
            if y == xv {
                assert(t[p as int] == y);
            }
        }
        assert(t.to_set() =~= old_t.to_set().insert(xv));
    }
}


/// `a` comes before `b` by their first texts, and by their second where the
/// first are equal.
pub open spec fn pair_lt(a: (Seq<char>, Seq<char>), b: (Seq<char>, Seq<char>)) -> bool {
    text_lt(a.0, b.0) || (a.0 == b.0 && text_lt(a.1, b.1))
}

/// Inserts `x` after the entries whose key does not come after its own.
pub open spec fn insert_keyed<T>(
    s: Seq<((Seq<char>, Seq<char>), T)>,
    x: ((Seq<char>, Seq<char>), T),
) -> Seq<((Seq<char>, Seq<char>), T)>
    decreases s.len(),
{
    if s.len() == 0 || !pair_lt(x.0, s.last().0) {
        s.push(x)
    } else {
        insert_keyed(s.drop_last(), x).push(s.last())
    }
}

/// The entries sorted by key, entries of equal key in their first order.
pub open spec fn sort_keyed<T>(s: Seq<((Seq<char>, Seq<char>), T)>) -> Seq<((Seq<char>, Seq<char>), T)>
    decreases s.len(),
{
    if s.len() == 0 {
        s
    } else {
        insert_keyed(sort_keyed(s.drop_last()), s.last())
    }
}

/// Keyed entries with their keys as plain texts.
pub open spec fn keyed_view<T>(v: Seq<((String, String), T)>) -> Seq<((Seq<char>, Seq<char>), T)> {
    v.map_values(|e: ((String, String), T)| ((e.0.0@, e.0.1@), e.1))
}

/// Whether key `a` comes before key `b`.
pub fn pair_less(a: &(String, String), b: &(String, String)) -> (res: bool)
    ensures
        res == pair_lt((a.0@, a.1@), (b.0@, b.1@)),
{
    if text_less(a.0.as_str(), b.0.as_str()) {
        true
    } else if crate::text::str_eq(a.0.as_str(), b.0.as_str()) {
        text_less(a.1.as_str(), b.1.as_str())
    } else {
        false
    }
}

fn insert_keyed_into<T>(v: &mut Vec<((String, String), T)>, x: ((String, String), T))
    ensures
        keyed_view(final(v)@) == insert_keyed(keyed_view(old(v)@), ((x.0.0@, x.0.1@), x.1)),
    decreases old(v)@.len(),
{
    let ghost before = keyed_view(v@);
    let ghost xv = ((x.0.0@, x.0.1@), x.1);
    if v.len() == 0 {
        v.push(x);
        proof {
            assert(keyed_view(v@) =~= before.push(xv));
        }
    } else if !pair_less(&x.0, &v[v.len() - 1].0) {
        v.push(x);
        proof {
            assert(keyed_view(v@) =~= before.push(xv));
        }
    } else {
        let y = v.pop().unwrap();
        let ghost yv = ((y.0.0@, y.0.1@), y.1);
        proof {
            assert(keyed_view(v@) =~= before.drop_last());
            assert(before.last() == yv);
        }
        insert_keyed_into(v, x);
        let ghost mid = keyed_view(v@);
        v.push(y);
        proof {
            assert(keyed_view(v@) =~= mid.push(yv));
        }
    }
}

/// Sorts entries by key, keeping entries of equal key in their order (a
/// stable sort).
pub fn sort_by_keys<T>(v: Vec<((String, String), T)>) -> (res: Vec<((String, String), T)>)
    ensures
        keyed_view(res@) == sort_keyed(keyed_view(v@)),
{
    let ghost all = keyed_view(v@);
    let mut rest = v;
    let mut res: Vec<((String, String), T)> = Vec::new();
    let mut i: usize = 0;
    let n = rest.len();
    proof {
        assert(all.take(0) =~= Seq::<((Seq<char>, Seq<char>), T)>::empty());
        assert(keyed_view(rest@) =~= all.skip(0));
    }
    while i < n
        invariant
            i <= n,
            n == all.len(),
            keyed_view(rest@) == all.skip(i as int),
            keyed_view(res@) == sort_keyed(all.take(i as int)),
        decreases n - i,
    {
        let ghost r0 = keyed_view(rest@);
        let ghost old_rest = rest@;
        proof {
            assert(r0.len() == old_rest.len());
        }
        let x = rest.remove(0);
        proof {
            assert(x == old_rest[0]);
            assert(r0[0] == ((x.0.0@, x.0.1@), x.1));
            assert(rest@ =~= old_rest.subrange(1, old_rest.len() as int));
            assert forall|k: int| 0 <= k < rest@.len() implies #[trigger] keyed_view(rest@)[k] == all.skip(i + 1)[k] by {
                assert(rest@[k] == old_rest[k + 1]);
                assert(r0[k + 1] == all.skip(i as int)[k + 1]);
            }
            assert(keyed_view(rest@) =~= all.skip(i + 1));
            assert(all.take(i + 1).drop_last() =~= all.take(i as int));
            assert(all.take(i + 1).last() == all[i as int]);
        }
        insert_keyed_into(&mut res, x);
        i = i + 1;
    }
    proof {
        assert(all.take(n as int) =~= all);
    }
    res
}


/// Applies `f` to the values of keyed entries.
pub open spec fn map_keyed<T, U>(s: Seq<((Seq<char>, Seq<char>), T)>, f: spec_fn(T) -> U) -> Seq<((Seq<char>, Seq<char>), U)> {
    s.map_values(|e: ((Seq<char>, Seq<char>), T)| (e.0, f(e.1)))
}

proof fn lemma_insert_keyed_map<T, U>(s: Seq<((Seq<char>, Seq<char>), T)>, x: ((Seq<char>, Seq<char>), T), f: spec_fn(T) -> U)
    ensures
        insert_keyed(map_keyed(s, f), (x.0, f(x.1))) == map_keyed(insert_keyed(s, x), f),
    decreases s.len(),
{
    if s.len() == 0 || !pair_lt(x.0, s.last().0) {
        assert(map_keyed(s.push(x), f) =~= map_keyed(s, f).push((x.0, f(x.1))));
        if s.len() > 0 {
            assert(map_keyed(s, f).last() == (s.last().0, f(s.last().1)));
        }
    } else {
        lemma_insert_keyed_map(s.drop_last(), x, f);
        assert(map_keyed(s, f).drop_last() =~= map_keyed(s.drop_last(), f));
        assert(map_keyed(s, f).last() == (s.last().0, f(s.last().1)));
        assert(map_keyed(insert_keyed(s.drop_last(), x).push(s.last()), f) =~= map_keyed(insert_keyed(s.drop_last(), x), f).push(
            (s.last().0, f(s.last().1)),
        ));
    }
}

/// Sorting by key does not look at the values.
pub proof fn lemma_sort_keyed_map<T, U>(s: Seq<((Seq<char>, Seq<char>), T)>, f: spec_fn(T) -> U)
    ensures
        sort_keyed(map_keyed(s, f)) == map_keyed(sort_keyed(s), f),
    decreases s.len(),
{
    if s.len() > 0 {
        lemma_sort_keyed_map(s.drop_last(), f);
        assert(map_keyed(s, f).drop_last() =~= map_keyed(s.drop_last(), f));
        assert(map_keyed(s, f).last() == (s.last().0, f(s.last().1)));
        lemma_insert_keyed_map(sort_keyed(s.drop_last()), s.last(), f);
    } else {
        assert(map_keyed(s, f) =~= Seq::<((Seq<char>, Seq<char>), U)>::empty());
    }
}

} // verus!
