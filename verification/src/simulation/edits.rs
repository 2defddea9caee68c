//! Edit scripts: the Levenshtein distance is the least number of
//! single-character insertions, deletions and substitutions that turn one
//! string into another.

use vstd::prelude::*;
use crate::simulation::resolver::{lev, law_lev_empty, law_lev_identity, law_lev_symmetric, law_lev_triangle};

verus! {

/// One single-character edit: insert a character before position `i`,
/// delete the character at `i`, or replace the character at `i`.
pub enum Edit {
    InsertAt(int, char),
    Delete(int),
    Substitute(int, char),
}

/// Whether the edit's position lies in `s`.
pub open spec fn edit_ok(s: Seq<char>, e: Edit) -> bool {
    match e {
        Edit::InsertAt(i, _) => 0 <= i <= s.len(),
        Edit::Delete(i) => 0 <= i < s.len(),
        Edit::Substitute(i, _) => 0 <= i < s.len(),
    }
}

/// `s` after the edit.
pub open spec fn apply_edit(s: Seq<char>, e: Edit) -> Seq<char> {
    match e {
        Edit::InsertAt(i, c) => s.take(i) + seq![c] + s.skip(i),
        Edit::Delete(i) => s.take(i) + s.skip(i + 1),
        Edit::Substitute(i, c) => s.update(i, c),
    }
}

/// `s` after the edits in order, or `None` when one of them does not fit.
pub open spec fn apply_edits(s: Seq<char>, es: Seq<Edit>) -> Option<Seq<char>>
    decreases es.len(),
{
    if es.len() == 0 {
        Some(s)
    } else if edit_ok(s, es[0]) {
        apply_edits(apply_edit(s, es[0]), es.drop_first())
    } else {
        None
    }
}

proof fn lemma_lev_delete_one(p: Seq<char>, x: char, s: Seq<char>)
    ensures
        lev(p + seq![x] + s, p + s) <= 1,
    decreases s.len(),
{
    let a = p + seq![x] + s;
    let b = p + s;
    if s.len() == 0 {
        assert(a.drop_last() =~= p);
        assert(b =~= p);
        law_lev_identity(p);
    } else {
        lemma_lev_delete_one(p, x, s.drop_last());
        assert(a.drop_last() =~= p + seq![x] + s.drop_last());
        assert(b.drop_last() =~= p + s.drop_last());
        assert(a.last() == s.last());
        assert(b.last() == s.last());
    }
}

proof fn lemma_lev_substitute_one(p: Seq<char>, x: char, y: char, s: Seq<char>)
    ensures
        lev(p + seq![x] + s, p + seq![y] + s) <= 1,
    decreases s.len(),
{
    let a = p + seq![x] + s;
    let b = p + seq![y] + s;
    if s.len() == 0 {
        assert(a.drop_last() =~= p);
        assert(b.drop_last() =~= p);
        law_lev_identity(p);
    } else {
        lemma_lev_substitute_one(p, x, y, s.drop_last());
        assert(a.drop_last() =~= p + seq![x] + s.drop_last());
        assert(b.drop_last() =~= p + seq![y] + s.drop_last());
        assert(a.last() == s.last());
        assert(b.last() == s.last());
    }
}

/// A single edit moves a string at most one away.
proof fn lemma_lev_one_edit(s: Seq<char>, e: Edit)
    requires
        edit_ok(s, e),
    ensures
        lev(s, apply_edit(s, e)) <= 1,
{
    match e {
        Edit::InsertAt(i, c) => {
            lemma_lev_delete_one(s.take(i), c, s.skip(i));
            assert(s.take(i) + s.skip(i) =~= s);
            law_lev_symmetric(s, apply_edit(s, e));
        },
        Edit::Delete(i) => {
            lemma_lev_delete_one(s.take(i), s[i], s.skip(i + 1));
            assert(s.take(i) + seq![s[i]] + s.skip(i + 1) =~= s);
        },
        Edit::Substitute(i, c) => {
            lemma_lev_substitute_one(s.take(i), s[i], c, s.skip(i + 1));
            assert(s.take(i) + seq![s[i]] + s.skip(i + 1) =~= s);
            assert(s.take(i) + seq![c] + s.skip(i + 1) =~= s.update(i, c));
        },
    }
}

/// No sequence of single-character edits turns `a` into `b` in fewer than
/// `lev(a, b)` steps.
pub proof fn law_lev_minimal(a: Seq<char>, b: Seq<char>, es: Seq<Edit>)
    requires
        apply_edits(a, es) == Some(b),
    ensures
        lev(a, b) <= es.len(),
    decreases es.len(),
{
    if es.len() == 0 {
        law_lev_identity(a);
    } else {
        let a1 = apply_edit(a, es[0]);
        law_lev_minimal(a1, b, es.drop_first());
        lemma_lev_one_edit(a, es[0]);
        law_lev_triangle(a, a1, b);
    }
}

proof fn lemma_apply_edits_concat(s: Seq<char>, e1: Seq<Edit>, e2: Seq<Edit>, mid: Seq<char>)
    requires
        apply_edits(s, e1) == Some(mid),
    ensures
        apply_edits(s, e1 + e2) == apply_edits(mid, e2),
    decreases e1.len(),
{
    if e1.len() > 0 {
        lemma_apply_edits_concat(apply_edit(s, e1[0]), e1.drop_first(), e2, mid);
        assert((e1 + e2).drop_first() =~= e1.drop_first() + e2);
        assert((e1 + e2)[0] == e1[0]);
    } else {
        assert(e1 + e2 =~= e2);
    }
}

proof fn lemma_apply_edits_extend(s: Seq<char>, es: Seq<Edit>, t: Seq<char>, x: char)
    requires
        apply_edits(s, es) == Some(t),
    ensures
        apply_edits(s.push(x), es) == Some(t.push(x)),
    decreases es.len(),
{
    if es.len() > 0 {
        let e = es[0];
        let s1 = apply_edit(s, e);
        assert(edit_ok(s.push(x), e));
        assert(apply_edit(s.push(x), e) =~= s1.push(x)) by {
            match e {
                Edit::InsertAt(i, c) => {
                    assert(s.push(x).take(i) =~= s.take(i));
                    assert(s.push(x).skip(i) =~= s.skip(i).push(x));
                },
                Edit::Delete(i) => {
                    assert(s.push(x).take(i) =~= s.take(i));
                    assert(s.push(x).skip(i + 1) =~= s.skip(i + 1).push(x));
                },
                Edit::Substitute(i, c) => {},
            }
        }
        lemma_apply_edits_extend(s1, es.drop_first(), t, x);
    }
}

proof fn lemma_one_edit_seq(e: Edit)
    ensures
        seq![e].len() == 1,
        seq![e][0] == e,
        seq![e].drop_first() == Seq::<Edit>::empty(),
{
    assert(seq![e].drop_first() =~= Seq::<Edit>::empty());
}

proof fn lemma_apply_one(s: Seq<char>, e: Edit)
    requires
        edit_ok(s, e),
    ensures
        apply_edits(s, seq![e]) == Some(apply_edit(s, e)),
{
    lemma_one_edit_seq(e);
    assert(apply_edits(apply_edit(s, e), Seq::<Edit>::empty()) == Some(apply_edit(s, e)));
}

/// The one-edit script that appends `c` to `s`.
proof fn append_script(s: Seq<char>, c: char) -> (es: Seq<Edit>)
    ensures
        es.len() == 1,
        apply_edits(s, es) == Some(s.push(c)),
{
    let e = Edit::InsertAt(s.len() as int, c);
    lemma_apply_one(s, e);
    assert(apply_edit(s, e) =~= s.push(c)) by {
        assert(s.take(s.len() as int) =~= s);
        assert(s.skip(s.len() as int) =~= Seq::<char>::empty());
    }
    lemma_one_edit_seq(e);
    seq![e]
}

/// The one-edit script that replaces the last character of `s` with `c`.
proof fn replace_last_script(s: Seq<char>, c: char) -> (es: Seq<Edit>)
    requires
        s.len() > 0,
    ensures
        es.len() == 1,
        apply_edits(s, es) == Some(s.update(s.len() - 1, c)),
{
    let e = Edit::Substitute(s.len() - 1, c);
    lemma_apply_one(s, e);
    lemma_one_edit_seq(e);
    seq![e]
}

/// Some sequence of `lev(a, b)` single-character edits turns `a` into `b`.
pub proof fn law_lev_attained(a: Seq<char>, b: Seq<char>)
    ensures
        exists|es: Seq<Edit>| es.len() == lev(a, b) && #[trigger] apply_edits(a, es) == Some(b),
    decreases a.len() + b.len(),
{
    if a.len() == 0 && b.len() == 0 {
        let es = Seq::<Edit>::empty();
        assert(a =~= b);
        assert(apply_edits(a, es) == Some(b));
    } else if a.len() > 0 && (b.len() == 0 || lev(a, b) == lev(a.drop_last(), b) + 1) {
        // delete the last character, then edit the rest
        law_lev_attained(a.drop_last(), b);
        let es1 = choose|es: Seq<Edit>| es.len() == lev(a.drop_last(), b) && #[trigger] apply_edits(a.drop_last(), es) == Some(b);
        let d = seq![Edit::Delete(a.len() - 1)];
        assert(apply_edit(a, Edit::Delete(a.len() - 1)) =~= a.drop_last());
        assert(apply_edits(a, d) == Some(a.drop_last())) by {
            assert(d.len() == 1 && d[0] == Edit::Delete(a.len() - 1));
            assert(d.drop_first() =~= Seq::<Edit>::empty());
            assert(apply_edits(a.drop_last(), Seq::<Edit>::empty()) == Some(a.drop_last()));
        }
        lemma_apply_edits_concat(a, d, es1, a.drop_last());
        if b.len() == 0 {
            law_lev_empty(a.drop_last());
        }
        assert(apply_edits(a, d + es1) == Some(b));
        assert((d + es1).len() == lev(a, b));
    } else if b.len() > 0 && (a.len() == 0 || lev(a, b) == lev(a, b.drop_last()) + 1) {
        // edit into all of `b` but its last character, then insert that
        law_lev_attained(a, b.drop_last());
        let es1 = choose|es: Seq<Edit>| es.len() == lev(a, b.drop_last()) && #[trigger] apply_edits(a, es) == Some(b.drop_last());
        let last_insert = append_script(b.drop_last(), b.last());
        assert(b.drop_last().push(b.last()) =~= b);
        assert(last_insert.len() == 1);
        assert(apply_edits(b.drop_last(), last_insert) == Some(b));
        lemma_apply_edits_concat(a, es1, last_insert, b.drop_last());
        if a.len() == 0 {
            law_lev_empty(b.drop_last());
        }
        assert(apply_edits(a, es1 + last_insert) == Some(b));
        assert((es1 + last_insert).len() == lev(a, b));
    } else {
        // edit the prefixes, then put the last character right
        let a1 = a.drop_last();
        let b1 = b.drop_last();
        assert(lev(a, b) == lev(a1, b1) + if a.last() == b.last() { 0nat } else { 1nat });
        law_lev_attained(a1, b1);
        let es1 = choose|es: Seq<Edit>| es.len() == lev(a1, b1) && #[trigger] apply_edits(a1, es) == Some(b1);
        lemma_apply_edits_extend(a1, es1, b1, a.last());
        assert(a1.push(a.last()) =~= a);
        if a.last() == b.last() {
            assert(b1.push(a.last()) =~= b);
        } else {
            let sub = replace_last_script(b1.push(a.last()), b.last());
            assert(b1.push(a.last()).update(b1.len() as int, b.last()) =~= b);
            lemma_apply_edits_concat(a, es1, sub, b1.push(a.last()));
            assert(apply_edits(a, es1 + sub) == Some(b));
            assert((es1 + sub).len() == lev(a, b));
        }
    }
}

} // verus!
