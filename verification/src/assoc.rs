//! Association lists keyed by strings.
//!
//! The library keeps small string-keyed tables as vectors of pairs. A lookup
//! finds the first pair with the key; an insert replaces the value of an
//! existing key in place or appends a new pair, so keys stay distinct and the
//! table reads like a map.

use vstd::prelude::*;
use crate::text::str_eq;

verus! {

/// The value of the first pair whose key is `key`.
pub open spec fn assoc<V>(s: Seq<(String, V)>, key: Seq<char>) -> Option<V>
    decreases s.len(),
{
    if s.len() == 0 {
        None
    } else if s[0].0@ == key {
        Some(s[0].1)
    } else {
        assoc(s.drop_first(), key)
    }
}

/// The keys of a table, in order.
pub open spec fn assoc_keys<V>(s: Seq<(String, V)>) -> Seq<Seq<char>> {
    s.map_values(|p: (String, V)| p.0@)
}

/// No key occurs twice.
pub open spec fn keys_distinct<V>(s: Seq<(String, V)>) -> bool {
    forall|i: int, j: int| 0 <= i < j < s.len() ==> (#[trigger] s[i]).0@ != (#[trigger] s[j]).0@
}

/// Whether some string of `v` equals `s`.
pub open spec fn has_string(v: Seq<String>, s: Seq<char>) -> bool {
    exists|i: int| 0 <= i < v.len() && (#[trigger] v[i])@ == s
}

proof fn lemma_assoc_skip<V>(s: Seq<(String, V)>, key: Seq<char>, i: int)
    requires
        0 <= i <= s.len(),
        forall|j: int| 0 <= j < i ==> (#[trigger] s[j]).0@ != key,
    ensures
        assoc(s, key) == assoc(s.skip(i), key),
    decreases i,
{
    if i > 0 {
        assert forall|j: int| 0 <= j < i - 1 implies (#[trigger] s.drop_first()[j]).0@ != key by {
            assert(s.drop_first()[j] == s[j + 1]);
        }
        lemma_assoc_skip(s.drop_first(), key, i - 1);
        assert(s.drop_first().skip(i - 1) == s.skip(i));
    } else {
        assert(s.skip(0) == s);
    }
}

/// `assoc` is `Some` exactly when the key occurs.
pub proof fn lemma_assoc_some<V>(s: Seq<(String, V)>, key: Seq<char>)
    ensures
        (assoc(s, key) is Some) <==> exists|i: int| 0 <= i < s.len() && (#[trigger] s[i]).0@ == key,
        assoc(s, key) is Some ==> exists|i: int| 0 <= i < s.len() && (#[trigger] s[i]).0@ == key
            && assoc(s, key) == Some(s[i].1),
    decreases s.len(),
{
    if s.len() > 0 {
        lemma_assoc_some(s.drop_first(), key);
        if s[0].0@ != key {
            if exists|i: int| 0 <= i < s.len() && (#[trigger] s[i]).0@ == key {
                let i = choose|i: int| 0 <= i < s.len() && (#[trigger] s[i]).0@ == key;
                assert(s.drop_first()[i - 1] == s[i]);
            }
            if assoc(s, key) is Some {
                let i = choose|i: int|
                    0 <= i < s.drop_first().len() && (#[trigger] s.drop_first()[i]).0@ == key
                        && assoc(s.drop_first(), key) == Some(s.drop_first()[i].1);
                assert(s[i + 1] == s.drop_first()[i]);
            }
        }
    }
}

/// In a table with distinct keys, the value stored at the position of `key`.
pub proof fn lemma_assoc_at<V>(s: Seq<(String, V)>, i: int)
    requires
        keys_distinct(s),
        0 <= i < s.len(),
    ensures
        assoc(s, s[i].0@) == Some(s[i].1),
{
    assert forall|j: int| 0 <= j < i implies (#[trigger] s[j]).0@ != s[i].0@ by {}
    lemma_assoc_skip(s, s[i].0@, i);
    assert(s.skip(i)[0] == s[i]);
}

/// The position of the first pair whose key is `key`.
pub fn assoc_index<V>(s: &Vec<(String, V)>, key: &str) -> (res: Option<usize>)
    ensures
        match res {
            Some(i) => i < s.len() && s@[i as int].0@ == key@ && assoc(s@, key@) == Some(s@[i as int].1)
                && forall|j: int| 0 <= j < i ==> (#[trigger] s@[j]).0@ != key@,
            None => assoc(s@, key@) is None && forall|j: int| 0 <= j < s.len() ==> (#[trigger] s@[j]).0@ != key@,
        },
{
    let mut i: usize = 0;
    while i < s.len()
        invariant
            i <= s.len(),
            forall|j: int| 0 <= j < i ==> (#[trigger] s@[j]).0@ != key@,
        decreases s.len() - i,
    {
        if str_eq(s[i].0.as_str(), key) {
            proof {
                lemma_assoc_skip(s@, key@, i as int);
                assert(s@.skip(i as int)[0] == s@[i as int]);
            }
            return Some(i);
        }
        i = i + 1;
    }
    proof {
        lemma_assoc_skip(s@, key@, i as int);
    }
    None
}

/// Whether the table has the key.
pub fn assoc_contains<V>(s: &Vec<(String, V)>, key: &str) -> (res: bool)
    ensures
        res == (assoc(s@, key@) is Some),
{
    match assoc_index(s, key) {
        Some(_) => true,
        None => false,
    }
}

/// Sets the value of `key`: an existing pair keeps its position, a new key is appended.
pub fn assoc_insert<V>(s: &mut Vec<(String, V)>, key: String, value: V)
    requires
        keys_distinct(old(s)@),
    ensures
        keys_distinct(final(s)@),
        assoc(final(s)@, key@) == Some(value),
        forall|k: Seq<char>| k != key@ ==> #[trigger] assoc(final(s)@, k) == assoc(old(s)@, k),
        assoc_keys(old(s)@).to_set().insert(key@) == assoc_keys(final(s)@).to_set(),
{
    let ghost old_s = s@;
    match assoc_index(s, key.as_str()) {
        Some(i) => {
            let ghost k0 = key@;
            s.set(i, (key, value));
            proof {
                assert forall|a: int, b: int| 0 <= a < b < s@.len() implies (#[trigger] s@[a]).0@ != (#[trigger] s@[b]).0@ by {
                    assert(old_s[a].0@ != old_s[b].0@);
                }
                lemma_assoc_at(s@, i as int);
                assert forall|k: Seq<char>| k != k0 implies #[trigger] assoc(s@, k) == assoc(old_s, k) by {
                    lemma_assoc_frame(old_s, s@, i as int, k);
                }
                assert(assoc_keys(old_s) =~= assoc_keys(s@));
                assert(assoc_keys(old_s).to_set().insert(k0) =~= assoc_keys(s@).to_set()) by {
                    assert(assoc_keys(old_s)[i as int] == k0);
                }
            }
        },
        None => {
            let ghost k0 = key@;
            s.push((key, value));
            proof {
                assert forall|a: int, b: int| 0 <= a < b < s@.len() implies (#[trigger] s@[a]).0@ != (#[trigger] s@[b]).0@ by {
                    if b == old_s.len() {
                        assert(s@[a] == old_s[a]);
                    } else {
                        assert(old_s[a].0@ != old_s[b].0@);
                    }
                }
                lemma_assoc_at(s@, old_s.len() as int);
                assert forall|k: Seq<char>| k != k0 implies #[trigger] assoc(s@, k) == assoc(old_s, k) by {
                    lemma_assoc_push(old_s, (s@[old_s.len() as int].0, s@[old_s.len() as int].1), k);
                    assert(old_s.push(s@[old_s.len() as int]) == s@);
                }
                assert(assoc_keys(s@) =~= assoc_keys(old_s).push(k0));
                assert(assoc_keys(old_s).to_set().insert(k0) =~= assoc_keys(s@).to_set()) by {
                    assert forall|x: Seq<char>| assoc_keys(s@).to_set().contains(x) implies assoc_keys(old_s).to_set().insert(k0).contains(x) by {
                        let j = choose|j: int| 0 <= j < assoc_keys(s@).len() && assoc_keys(s@)[j] == x;
                        if j < old_s.len() {
                            assert(assoc_keys(old_s)[j] == x);
                        }
                    }
                    assert forall|x: Seq<char>| assoc_keys(old_s).to_set().insert(k0).contains(x) implies assoc_keys(s@).to_set().contains(x) by {
                        if x == k0 {
                            assert(assoc_keys(s@)[old_s.len() as int] == x);
                        } else {
                            let j = choose|j: int| 0 <= j < assoc_keys(old_s).len() && assoc_keys(old_s)[j] == x;
                            assert(assoc_keys(s@)[j] == x);
                        }
                    }
                }
            }
        },
    }
}

proof fn lemma_assoc_frame<V>(a: Seq<(String, V)>, b: Seq<(String, V)>, i: int, k: Seq<char>)
    requires
        a.len() == b.len(),
        0 <= i < a.len(),
        a[i].0@ == b[i].0@,
        forall|j: int| 0 <= j < a.len() && j != i ==> a[j] == b[j],
        k != a[i].0@,
    ensures
        assoc(a, k) == assoc(b, k),
    decreases a.len(),
{
    if a.len() > 0 {
        if i == 0 {
            assert(a.drop_first() =~= b.drop_first());
        } else {
            assert forall|j: int| 0 <= j < a.drop_first().len() && j != i - 1 implies a.drop_first()[j] == b.drop_first()[j] by {
                assert(a[j + 1] == b[j + 1]);
            }
            lemma_assoc_frame(a.drop_first(), b.drop_first(), i - 1, k);
        }
    }
}

proof fn lemma_assoc_push<V>(s: Seq<(String, V)>, p: (String, V), k: Seq<char>)
    requires
        k != p.0@,
    ensures
        assoc(s.push(p), k) == assoc(s, k),
    decreases s.len(),
{
    if s.len() > 0 {
        assert(s.push(p).drop_first() == s.drop_first().push(p));
        assert(s.push(p)[0] == s[0]);
        lemma_assoc_push(s.drop_first(), p, k);
    } else {
        assert(s.push(p).drop_first() =~= Seq::<(String, V)>::empty());
        assert(s.push(p)[0] == p);
        assert(assoc(s.push(p).drop_first(), k) is None);
    }
}

/// Whether some string of `v` equals `s` (`Vec::contains` on strings).
pub fn strings_contain(v: &Vec<String>, s: &str) -> (res: bool)
    ensures
        res == has_string(v@, s@),
{
    let mut i: usize = 0;
    while i < v.len()
        invariant
            i <= v.len(),
            forall|j: int| 0 <= j < i ==> (#[trigger] v@[j])@ != s@,
        decreases v.len() - i,
    {
        if str_eq(v[i].as_str(), s) {
            return true;
        }
        i = i + 1;
    }
    false
}

} // verus!
