//! The Rust side of a drift check: struct fields, their types and serde attributes.
//!
//! Source text is parsed by `syn`; the library works on the parsed
//! declarations, held in the plain model below, and reads the `serde`
//! attributes from their raw tokens.

use vstd::prelude::*;
use crate::assoc::{assoc, assoc_insert, keys_distinct};
use crate::text::{join, lemma_join_push, owned, str_eq};
use crate::drift::compare::{DriftError, DriftErrorView};
use crate::drift::schema::opt_view;

verus! {

/// What a drift check needs of one Rust struct.
#[derive(Debug)]
pub struct RustTypeInfo {
    /// The struct's name.
    pub name: String,
    /// Serialized field name and information, one pair per field.
    pub fields: Vec<(String, RustFieldInfo)>,
    /// Whether some field is `#[serde(flatten)]`.
    pub has_flattened: bool,
    /// The types of the flattened fields.
    pub flattened_types: Vec<String>,
}

/// What a drift check needs of one struct field.
#[derive(Debug)]
pub struct RustFieldInfo {
    /// The field's type, written out.
    pub type_string: String,
    /// Whether the type is `Option<T>`.
    pub is_optional: bool,
    /// The `#[serde(rename = ..)]` name, if any.
    pub serde_rename: Option<String>,
    /// Whether the field is `#[serde(flatten)]`.
    pub is_flattened: bool,
    /// Whether the field is `#[serde(skip)]`.
    pub is_skipped: bool,
}

/// A parsed Rust type.
#[derive(Debug)]
pub enum TypeModel {
    /// A path such as `std::collections::HashMap<String, u32>`.
    Path(Vec<SegmentModel>),
    /// An array `[T; N]`.
    Array(Box<TypeModel>),
    /// A tuple `(A, B)`.
    Tuple(Vec<TypeModel>),
    /// Any other kind of type.
    Other,
}

/// One segment of a type path.
#[derive(Debug)]
pub struct SegmentModel {
    pub ident: String,
    pub arguments: PathArgsModel,
}

/// The arguments of a path segment.
#[derive(Debug)]
pub enum PathArgsModel {
    Empty,
    /// `<..>`, with its arguments.
    AngleBracketed(Vec<GenericArgModel>),
    /// `(..) -> ..`.
    Parenthesized,
}

/// One generic argument.
#[derive(Debug)]
pub enum GenericArgModel {
    Type(TypeModel),
    /// A lifetime, constant or binding.
    Other,
}

/// One nested item of a `#[serde(..)]` attribute, as the drift check reads it.
#[derive(Debug)]
pub enum SerdeMeta {
    /// `rename = ..`, with the name when the value is a string literal.
    Rename(Option<String>),
    Flatten,
    Skip,
    /// Any other item.
    Other,
}

/// One token of an attribute's arguments, as the Rust tokenizer gives it.
#[derive(Debug)]
pub enum TokenModel {
    /// An identifier or keyword (a raw identifier keeps its `r#`).
    Ident(String),
    /// A punctuation character, and whether it is joined to the next one
    /// (as the first `:` of `::` is).
    Punct(char, bool),
    /// A literal's text, and its value when it is a string literal.
    Literal(String, Option<String>),
    /// A delimited group; its contents are not needed.
    Group,
}

/// What follows an attribute's path.
#[derive(Debug)]
pub enum MetaModel {
    /// Nothing: `#[path]`.
    Path,
    /// A delimited token list: `#[path(..)]`.
    List(Vec<TokenModel>),
    /// A value: `#[path = ..]`.
    NameValue,
}

/// A field attribute: its path (whether it starts with `::`, and the names of
/// its segments) and what follows the path.
#[derive(Debug)]
pub struct AttrModel {
    pub leading_colon: bool,
    pub path: Vec<String>,
    pub meta: MetaModel,
}

/// A parsed struct field.
#[derive(Debug)]
pub struct FieldModel {
    /// The field name; `None` for a tuple field.
    pub ident: Option<String>,
    pub ty: TypeModel,
    pub attrs: Vec<AttrModel>,
}

/// The fields of a parsed struct.
#[derive(Debug)]
pub enum FieldsModel {
    Named(Vec<FieldModel>),
    Unnamed,
    Unit,
}

/// A parsed top-level item of a source file.
#[derive(Debug)]
pub enum ItemModel {
    Struct { ident: String, fields: FieldsModel },
    Other,
}

// ---------------------------------------------------------------------------
// Writing types out
// ---------------------------------------------------------------------------

/// A type written out: path segments joined by `::`, each with its type
/// arguments in angle brackets; `[T; N]` for arrays; tuples in parentheses;
/// `unknown` for anything else.
pub open spec fn type_text(t: TypeModel) -> Seq<char>
    decreases t,
{
    match t {
        TypeModel::Path(segs) => {
            proof {
                assert(decreases_to!(t => t->Path_0));
            }
            join(segment_texts(segs@), "::"@)
        },
        TypeModel::Array(elem) => {
            proof {
                assert(decreases_to!(t => t->Array_0));
            }
            "["@ + type_text(*elem) + "; N]"@
        },
        TypeModel::Tuple(elems) => {
            proof {
                assert(decreases_to!(t => t->Tuple_0));
            }
            "("@ + join(type_texts(elems@), ", "@) + ")"@
        },
        TypeModel::Other => "unknown"@,
    }
}

/// The written-out segments.
pub open spec fn segment_texts(segs: Seq<SegmentModel>) -> Seq<Seq<char>>
    decreases segs,
{
    if segs.len() == 0 {
        Seq::empty()
    } else {
        proof {
            assert(decreases_to!(segs => segs[segs.len() - 1]));
            assert(decreases_to!(segs => segs.subrange(0, segs.len() - 1)));
        }
        segment_texts(segs.drop_last()).push(segment_text(segs.last()))
    }
}

/// A segment written out: its name, then its type arguments in angle brackets
/// when it has angle-bracketed arguments.
pub open spec fn segment_text(seg: SegmentModel) -> Seq<char>
    decreases seg,
{
    match seg.arguments {
        PathArgsModel::AngleBracketed(args) => if args@.len() == 0 {
            seg.ident@
        } else {
            proof {
                assert(decreases_to!(seg => seg.arguments));
                assert(decreases_to!(seg.arguments => seg.arguments->AngleBracketed_0));
            }
            seg.ident@ + "<"@ + join(arg_texts(args@), ", "@) + ">"@
        },
        _ => seg.ident@,
    }
}

/// The written-out type arguments; other generic arguments are left out.
pub open spec fn arg_texts(args: Seq<GenericArgModel>) -> Seq<Seq<char>>
    decreases args,
{
    if args.len() == 0 {
        Seq::empty()
    } else {
        proof {
            assert(decreases_to!(args => args[args.len() - 1]));
            assert(decreases_to!(args => args.subrange(0, args.len() - 1)));
        }
        match args.last() {
            GenericArgModel::Type(t) => {
                proof {
                    assert(decreases_to!(args.last() => args.last()->Type_0));
                }
                arg_texts(args.drop_last()).push(type_text(t))
            },
            GenericArgModel::Other => arg_texts(args.drop_last()),
        }
    }
}

/// The written-out tuple elements.
pub open spec fn type_texts(elems: Seq<TypeModel>) -> Seq<Seq<char>>
    decreases elems,
{
    if elems.len() == 0 {
        Seq::empty()
    } else {
        proof {
            assert(decreases_to!(elems => elems[elems.len() - 1]));
            assert(decreases_to!(elems => elems.subrange(0, elems.len() - 1)));
        }
        type_texts(elems.drop_last()).push(type_text(elems.last()))
    }
}

/// A segment written out.
fn segment_to_string(seg: &SegmentModel) -> (res: String)
    ensures
        res@ == segment_text(*seg),
    decreases seg,
{
    match &seg.arguments {
        PathArgsModel::AngleBracketed(args) => {
            if args.len() == 0 {
                return seg.ident.clone();
            }
            let mut inner = String::new();
            let ghost mut parts: Seq<Seq<char>> = Seq::empty();
            let mut any: bool = false;
            let mut i: usize = 0;
            while i < args.len()
                invariant
                    i <= args.len(),
                    any == (parts.len() > 0),
                    seg.arguments is AngleBracketed,
                    seg.arguments->AngleBracketed_0 == *args,
                    parts == arg_texts(args@.take(i as int)),
                    inner@ == join(parts, ", "@),
                decreases args.len() - i,
            {
                proof {
                    let t = args@.take(i as int + 1);
                    assert(t.drop_last() =~= args@.take(i as int));
                    assert(t.last() == args@[i as int]);
                }
                match &args[i] {
                    GenericArgModel::Type(t) => {
                        proof {
                            assert(decreases_to!(*seg => seg.arguments));
                            assert(decreases_to!(seg.arguments => seg.arguments->AngleBracketed_0));
                            assert(decreases_to!(seg.arguments->AngleBracketed_0 => args@));
                            assert(decreases_to!(args@ => args@[i as int]));
                            assert(decreases_to!(args@[i as int] => args@[i as int]->Type_0));
                        }
                        let text = type_to_string(t);
                        if any {
                            inner.append(", ");
                        }
                        inner.append(text.as_str());
                        any = true;
                        proof {
                            lemma_join_push(parts, ", "@, text@);
                            parts = parts.push(text@);
                        }
                    },
                    GenericArgModel::Other => {},
                }
                i = i + 1;
            }
            proof {
                assert(args@.take(args@.len() as int) =~= args@);
            }
            let mut out = seg.ident.clone();
            out.append("<");
            out.append(inner.as_str());
            out.append(">");
            out
        },
        _ => seg.ident.clone(),
    }
}

/// A type written out (`[T; N]` for arrays, `unknown` for types other than
/// paths, arrays and tuples).
pub fn type_to_string(ty: &TypeModel) -> (res: String)
    ensures
        res@ == type_text(*ty),
    decreases ty,
{
    match ty {
        TypeModel::Path(segs) => {
            let mut out = String::new();
            let ghost mut parts: Seq<Seq<char>> = Seq::empty();
            let mut i: usize = 0;
            while i < segs.len()
                invariant
                    i <= segs.len(),
                    *ty is Path,
                    ty->Path_0 == *segs,
                    parts == segment_texts(segs@.take(i as int)),
                    out@ == join(parts, "::"@),
                decreases segs.len() - i,
            {
                proof {
                    let t = segs@.take(i as int + 1);
                    assert(t.drop_last() =~= segs@.take(i as int));
                    assert(t.last() == segs@[i as int]);
                    assert(decreases_to!(*ty => ty->Path_0));
                    assert(decreases_to!(ty->Path_0 => segs@));
                    assert(decreases_to!(segs@ => segs@[i as int]));
                }
                let text = segment_to_string(&segs[i]);
                if i > 0 {
                    out.append("::");
                }
                out.append(text.as_str());
                proof {
                    lemma_join_push(parts, "::"@, text@);
                    parts = parts.push(text@);
                }
                i = i + 1;
            }
            proof {
                assert(segs@.take(segs@.len() as int) =~= segs@);
            }
            out
        },
        TypeModel::Array(elem) => {
            proof {
                assert(decreases_to!(*ty => ty->Array_0));
            }
            let inner = type_to_string(elem);
            let mut out = owned("[");
            out.append(inner.as_str());
            out.append("; N]");
            out
        },
        TypeModel::Tuple(elems) => {
            let mut inner = String::new();
            let ghost mut parts: Seq<Seq<char>> = Seq::empty();
            let mut i: usize = 0;
            while i < elems.len()
                invariant
                    i <= elems.len(),
                    *ty is Tuple,
                    ty->Tuple_0 == *elems,
                    parts == type_texts(elems@.take(i as int)),
                    inner@ == join(parts, ", "@),
                decreases elems.len() - i,
            {
                proof {
                    let t = elems@.take(i as int + 1);
                    assert(t.drop_last() =~= elems@.take(i as int));
                    assert(t.last() == elems@[i as int]);
                    assert(decreases_to!(*ty => ty->Tuple_0));
                    assert(decreases_to!(ty->Tuple_0 => elems@));
                    assert(decreases_to!(elems@ => elems@[i as int]));
                }
                let text = type_to_string(&elems[i]);
                if i > 0 {
                    inner.append(", ");
                }
                inner.append(text.as_str());
                proof {
                    lemma_join_push(parts, ", "@, text@);
                    parts = parts.push(text@);
                }
                i = i + 1;
            }
            proof {
                assert(elems@.take(elems@.len() as int) =~= elems@);
            }
            let mut out = owned("(");
            out.append(inner.as_str());
            out.append(")");
            out
        },
        TypeModel::Other => owned("unknown"),
    }
}

// ---------------------------------------------------------------------------
// Fields and their serde attributes
// ---------------------------------------------------------------------------

/// Whether a type is `Option<..>`: a path whose last segment is `Option`.
pub open spec fn type_is_option(t: TypeModel) -> bool {
    &&& t is Path
    &&& t->Path_0@.len() > 0
    &&& t->Path_0@.last().ident@ == "Option"@
}

// ---------------------------------------------------------------------------
// Serde attribute arguments
// ---------------------------------------------------------------------------

/// The token at `p` is the punctuation `c`.
pub open spec fn punct_at(t: Seq<TokenModel>, p: int, c: char) -> bool {
    0 <= p < t.len() && match t[p] {
        TokenModel::Punct(ch, _) => ch == c,
        _ => false,
    }
}

/// The tokens at `p` are `::`: a `:` joined to the next token, then a `:`.
pub open spec fn colons_at(t: Seq<TokenModel>, p: int) -> bool {
    &&& 0 <= p
    &&& p + 1 < t.len()
    &&& match t[p] {
        TokenModel::Punct(ch, joint) => ch == ':' && joint,
        _ => false,
    }
    &&& punct_at(t, p + 1, ':')
}

/// The token at `p` is an identifier.
pub open spec fn ident_at(t: Seq<TokenModel>, p: int) -> bool {
    0 <= p < t.len() && t[p] is Ident
}

/// Where the `::ident` segments that start at `p` end; `None` when a `::` is
/// not followed by an identifier.
pub open spec fn path_tail_end(t: Seq<TokenModel>, p: int) -> Option<int>
    decreases t.len() - p,
{
    if colons_at(t, p) {
        if ident_at(t, p + 2) {
            path_tail_end(t, p + 3)
        } else {
            None
        }
    } else {
        Some(p)
    }
}

/// The item that a nested meta path `name` (a single plain identifier when
/// `single`) ending at `e` stands for, and where it ends.
pub open spec fn meta_effect(t: Seq<TokenModel>, single: bool, name: Seq<char>, e: int) -> (SerdeMeta, int) {
    if single && name == "rename"@ {
        if punct_at(t, e, '=') {
            if e + 1 < t.len() {
                match t[e + 1] {
                    TokenModel::Literal(_, Some(v)) => (SerdeMeta::Rename(Some(v)), e + 2),
                    _ => (SerdeMeta::Rename(None), e + 1),
                }
            } else {
                (SerdeMeta::Rename(None), e + 1)
            }
        } else {
            (SerdeMeta::Rename(None), e)
        }
    } else if single && name == "flatten"@ {
        (SerdeMeta::Flatten, e)
    } else if single && name == "skip"@ {
        (SerdeMeta::Skip, e)
    } else {
        (SerdeMeta::Other, e)
    }
}

/// The nested item that starts at `p` and where it ends, or `None` when no
/// path starts there (an optional `::`, an identifier, then `::identifier`s).
pub open spec fn meta_at(t: Seq<TokenModel>, p: int) -> Option<(SerdeMeta, int)> {
    let lead = colons_at(t, p);
    let q = if lead { p + 2 } else { p };
    if !ident_at(t, q) {
        None
    } else {
        match path_tail_end(t, q + 1) {
            None => None,
            Some(e) => Some(meta_effect(t, !lead && e == q + 1, t[q]->Ident_0@, e)),
        }
    }
}

pub proof fn lemma_path_tail_end(t: Seq<TokenModel>, p: int)
    requires
        0 <= p <= t.len(),
    ensures
        path_tail_end(t, p) matches Some(e) ==> p <= e <= t.len(),
    decreases t.len() - p,
{
    if colons_at(t, p) && ident_at(t, p + 2) {
        lemma_path_tail_end(t, p + 3);
    }
}

pub proof fn lemma_meta_at(t: Seq<TokenModel>, p: int)
    requires
        0 <= p <= t.len(),
    ensures
        meta_at(t, p) matches Some((m, n)) ==> p < n <= t.len(),
{
    let q = if colons_at(t, p) { p + 2 } else { p };
    if ident_at(t, q) {
        lemma_path_tail_end(t, q + 1);
    }
}

/// The items of a `#[serde(..)]` argument list from position `p`, read as
/// `syn`'s `parse_nested_meta` reads them: items separated by commas; an item
/// whose path does not parse, or that is followed by something other than a
/// comma, ends the list (the latter after it is taken).
pub open spec fn nested_metas(t: Seq<TokenModel>, p: int) -> Seq<SerdeMeta>
    decreases t.len() - p,
{
    if p < 0 || p > t.len() {
        Seq::empty()
    } else {
        match meta_at(t, p) {
            None => Seq::empty(),
            Some((m, n)) => {
                proof {
                    lemma_meta_at(t, p);
                }
                if n < t.len() && punct_at(t, n, ',') && n + 1 < t.len() {
                    seq![m] + nested_metas(t, n + 1)
                } else {
                    seq![m]
                }
            },
        }
    }
}

/// The items of an attribute if it is `#[serde(..)]`, else none.
pub open spec fn attr_serde_metas(a: AttrModel) -> Seq<SerdeMeta> {
    if !a.leading_colon && a.path@.len() == 1 && a.path@[0]@ == "serde"@ {
        match a.meta {
            MetaModel::List(toks) => nested_metas(toks@, 0),
            _ => Seq::empty(),
        }
    } else {
        Seq::empty()
    }
}

fn punct_is(t: &Vec<TokenModel>, p: usize, c: char) -> (res: bool)
    ensures
        res == punct_at(t@, p as int, c),
{
    if p < t.len() {
        match &t[p] {
            TokenModel::Punct(ch, _) => *ch == c,
            _ => false,
        }
    } else {
        false
    }
}

fn colons_are(t: &Vec<TokenModel>, p: usize) -> (res: bool)
    ensures
        res == colons_at(t@, p as int),
{
    if p < t.len() && t.len() - p > 1 {
        let first = match &t[p] {
            TokenModel::Punct(ch, joint) => *ch == ':' && *joint,
            _ => false,
        };
        first && punct_is(t, p + 1, ':')
    } else {
        false
    }
}

fn ident_is(t: &Vec<TokenModel>, p: usize) -> (res: bool)
    ensures
        res == ident_at(t@, p as int),
{
    p < t.len() && match &t[p] {
        TokenModel::Ident(_) => true,
        _ => false,
    }
}

fn tail_end(t: &Vec<TokenModel>, p: usize) -> (res: Option<usize>)
    requires
        p <= t.len(),
    ensures
        match path_tail_end(t@, p as int) {
            Some(e) => res == Some(e as usize) && p <= e <= t.len(),
            None => res is None,
        },
{
    let mut r = p;
    proof {
        lemma_path_tail_end(t@, p as int);
    }
    while colons_are(t, r)
        invariant
            p <= r <= t.len(),
            path_tail_end(t@, p as int) == path_tail_end(t@, r as int),
        decreases t.len() - r,
    {
        if !ident_is(t, r + 2) {
            return None;
        }
        r = r + 3;
    }
    Some(r)
}

fn meta_here(t: &Vec<TokenModel>, p: usize) -> (res: Option<(SerdeMeta, usize)>)
    requires
        p <= t.len(),
    ensures
        match meta_at(t@, p as int) {
            Some((m, n)) => res matches Some((rm, rn)) && rm == m && rn == n && p < n <= t.len(),
            None => res is None,
        },
{
    proof {
        lemma_meta_at(t@, p as int);
    }
    let lead = colons_are(t, p);
    let q = if lead { p + 2 } else { p };
    if !ident_is(t, q) {
        return None;
    }
    let e = match tail_end(t, q + 1) {
        None => {
            return None;
        },
        Some(e) => e,
    };
    let single = !lead && e == q + 1;
    let name: &str = match &t[q] {
        TokenModel::Ident(n) => n.as_str(),
        _ => "",
    };
    if single && str_eq(name, "rename") {
        if punct_is(t, e, '=') {
            if e + 1 < t.len() {
                match &t[e + 1] {
                    TokenModel::Literal(_, Some(v)) => Some((SerdeMeta::Rename(Some(v.clone())), e + 2)),
                    _ => Some((SerdeMeta::Rename(None), e + 1)),
                }
            } else {
                Some((SerdeMeta::Rename(None), e + 1))
            }
        } else {
            Some((SerdeMeta::Rename(None), e))
        }
    } else if single && str_eq(name, "flatten") {
        Some((SerdeMeta::Flatten, e))
    } else if single && str_eq(name, "skip") {
        Some((SerdeMeta::Skip, e))
    } else {
        Some((SerdeMeta::Other, e))
    }
}

/// The items of a `#[serde(..)]` argument list (see `nested_metas`).
pub fn nested_meta_items(t: &Vec<TokenModel>) -> (res: Vec<SerdeMeta>)
    ensures
        res@ == nested_metas(t@, 0),
{
    let mut out: Vec<SerdeMeta> = Vec::new();
    let mut p: usize = 0;
    loop
        invariant
            p <= t.len(),
            out@ + nested_metas(t@, p as int) == nested_metas(t@, 0),
        decreases t.len() - p,
    {
        match meta_here(t, p) {
            None => {
                proof {
                    assert(out@ + Seq::<SerdeMeta>::empty() =~= out@);
                }
                return out;
            },
            Some((m, n)) => {
                let ghost gm = m;
                let more = n < t.len() && punct_is(t, n, ',') && t.len() - n > 1;
                out.push(m);
                if more {
                    proof {
                        assert(out@ + nested_metas(t@, n as int + 1) =~= out@.drop_last() + (seq![gm] + nested_metas(t@, n as int + 1)));
                    }
                    p = n + 1;
                } else {
                    return out;
                }
            },
        }
    }
}

/// The items of an attribute if it is `#[serde(..)]`, else none.
pub fn attr_metas(a: &AttrModel) -> (res: Vec<SerdeMeta>)
    ensures
        res@ == attr_serde_metas(*a),
{
    if !a.leading_colon && a.path.len() == 1 && str_eq(a.path[0].as_str(), "serde") {
        match &a.meta {
            MetaModel::List(toks) => nested_meta_items(toks),
            _ => Vec::new(),
        }
    } else {
        Vec::new()
    }
}

/// The items of all `serde` attributes, in order.
pub open spec fn serde_metas(attrs: Seq<AttrModel>) -> Seq<SerdeMeta>
    decreases attrs.len(),
{
    if attrs.len() == 0 {
        Seq::empty()
    } else {
        serde_metas(attrs.drop_last()) + attr_serde_metas(attrs.last())
    }
}

/// The name of the last `rename = "..."` item.
pub open spec fn last_rename(ms: Seq<SerdeMeta>) -> Option<Seq<char>>
    decreases ms.len(),
{
    if ms.len() == 0 {
        None
    } else {
        match ms.last() {
            SerdeMeta::Rename(Some(n)) => Some(n@),
            _ => last_rename(ms.drop_last()),
        }
    }
}

/// Whether some item is `flatten`.
pub open spec fn has_flatten(ms: Seq<SerdeMeta>) -> bool {
    exists|i: int| 0 <= i < ms.len() && ms[i] is Flatten
}

/// Whether some item is `skip`.
pub open spec fn has_skip(ms: Seq<SerdeMeta>) -> bool {
    exists|i: int| 0 <= i < ms.len() && ms[i] is Skip
}

/// `info` describes the field `f`.
pub open spec fn field_info_ok(f: FieldModel, info: RustFieldInfo) -> bool {
    let ms = serde_metas(f.attrs@);
    &&& info.type_string@ == type_text(f.ty)
    &&& info.is_optional == type_is_option(f.ty)
    &&& opt_view(info.serde_rename) == last_rename(ms)
    &&& info.is_flattened == has_flatten(ms)
    &&& info.is_skipped == has_skip(ms)
}

/// Whether a type is `Option<..>`.
pub fn is_option_type(ty: &TypeModel) -> (res: bool)
    ensures
        res == type_is_option(*ty),
{
    match ty {
        TypeModel::Path(segs) => {
            if segs.len() == 0 {
                false
            } else {
                str_eq(segs[segs.len() - 1].ident.as_str(), "Option")
            }
        },
        _ => false,
    }
}

/// The rename, flatten and skip settings of a field's `serde` attributes; the
/// last string-valued `rename` wins.
pub fn parse_serde_attrs(attrs: &Vec<AttrModel>) -> (res: (Option<String>, bool, bool))
    ensures
        opt_view(res.0) == last_rename(serde_metas(attrs@)),
        res.1 == has_flatten(serde_metas(attrs@)),
        res.2 == has_skip(serde_metas(attrs@)),
{
    let mut rename: Option<String> = None;
    let mut is_flattened = false;
    let mut is_skipped = false;
    let mut i: usize = 0;
    while i < attrs.len()
        invariant
            i <= attrs.len(),
            opt_view(rename) == last_rename(serde_metas(attrs@.take(i as int))),
            is_flattened == has_flatten(serde_metas(attrs@.take(i as int))),
            is_skipped == has_skip(serde_metas(attrs@.take(i as int))),
        decreases attrs.len() - i,
    {
        let ghost before = serde_metas(attrs@.take(i as int));
        proof {
            let t = attrs@.take(i as int + 1);
            assert(t.drop_last() =~= attrs@.take(i as int));
            assert(t.last() == attrs@[i as int]);
        }
        let metas = attr_metas(&attrs[i]);
        {
            {
                let mut j: usize = 0;
                while j < metas.len()
                    invariant
                        j <= metas.len(),
                        opt_view(rename) == last_rename(before + metas@.take(j as int)),
                        is_flattened == has_flatten(before + metas@.take(j as int)),
                        is_skipped == has_skip(before + metas@.take(j as int)),
                    decreases metas.len() - j,
                {
                    let ghost cur = before + metas@.take(j as int);
                    let ghost next = before + metas@.take(j as int + 1);
                    proof {
                        assert(next.drop_last() =~= cur);
                        assert(next.last() == metas@[j as int]);
                    }
                    match &metas[j] {
                        SerdeMeta::Rename(Some(n)) => {
                            rename = Some(n.clone());
                        },
                        SerdeMeta::Flatten => {
                            is_flattened = true;
                        },
                        SerdeMeta::Skip => {
                            is_skipped = true;
                        },
                        _ => {},
                    }
                    proof {
                        if has_flatten(next) && !has_flatten(cur) {
                            let k = choose|k: int| 0 <= k < next.len() && next[k] is Flatten;
                            if k < cur.len() {
                                assert(cur[k] == next[k]);
                            }
                        }
                        if has_flatten(cur) {
                            let k = choose|k: int| 0 <= k < cur.len() && cur[k] is Flatten;
                            assert(next[k] == cur[k]);
                        }
                        if has_skip(next) && !has_skip(cur) {
                            let k = choose|k: int| 0 <= k < next.len() && next[k] is Skip;
                            if k < cur.len() {
                                assert(cur[k] == next[k]);
                            }
                        }
                        if has_skip(cur) {
                            let k = choose|k: int| 0 <= k < cur.len() && cur[k] is Skip;
                            assert(next[k] == cur[k]);
                        }
                        if metas@[j as int] is Flatten {
                            assert(next[next.len() - 1] is Flatten);
                        }
                        if metas@[j as int] is Skip {
                            assert(next[next.len() - 1] is Skip);
                        }
                    }
                    j = j + 1;
                }
                proof {
                    assert(metas@.take(metas@.len() as int) =~= metas@);
                }
            }
        }
        i = i + 1;
    }
    proof {
        assert(attrs@.take(attrs@.len() as int) =~= attrs@);
    }
    (rename, is_flattened, is_skipped)
}

/// What a drift check needs of one field.
pub fn extract_field_info(field: &FieldModel) -> (res: RustFieldInfo)
    ensures
        field_info_ok(*field, res),
{
    let type_string = type_to_string(&field.ty);
    let is_optional = is_option_type(&field.ty);
    let (serde_rename, is_flattened, is_skipped) = parse_serde_attrs(&field.attrs);
    RustFieldInfo { type_string, is_optional, serde_rename, is_flattened, is_skipped }
}

// ---------------------------------------------------------------------------
// Structs
// ---------------------------------------------------------------------------

/// A named field that serde neither skips nor flattens.
pub open spec fn is_regular(f: FieldModel) -> bool {
    f.ident is Some && !has_skip(serde_metas(f.attrs@)) && !has_flatten(serde_metas(f.attrs@))
}

/// A named field that serde flattens (and does not skip).
pub open spec fn is_flattened_field(f: FieldModel) -> bool {
    f.ident is Some && !has_skip(serde_metas(f.attrs@)) && has_flatten(serde_metas(f.attrs@))
}

/// The name a regular field is serialized under: its rename, else its own name.
pub open spec fn serialized_name(f: FieldModel) -> Seq<char> {
    match last_rename(serde_metas(f.attrs@)) {
        Some(n) => n,
        None => f.ident->0@,
    }
}

/// The last regular field serialized as `k`.
pub open spec fn last_regular(fs: Seq<FieldModel>, k: Seq<char>) -> Option<FieldModel>
    decreases fs.len(),
{
    if fs.len() == 0 {
        None
    } else if is_regular(fs.last()) && serialized_name(fs.last()) == k {
        Some(fs.last())
    } else {
        last_regular(fs.drop_last(), k)
    }
}

/// The written-out types of the flattened fields, in order.
pub open spec fn flattened_texts(fs: Seq<FieldModel>) -> Seq<Seq<char>>
    decreases fs.len(),
{
    if fs.len() == 0 {
        Seq::empty()
    } else if is_flattened_field(fs.last()) {
        flattened_texts(fs.drop_last()).push(type_text(fs.last().ty))
    } else {
        flattened_texts(fs.drop_last())
    }
}

/// The named fields of a struct (none for tuple and unit structs).
pub open spec fn named_fields(fields: FieldsModel) -> Seq<FieldModel> {
    match fields {
        FieldsModel::Named(v) => v@,
        _ => Seq::empty(),
    }
}

/// `info` describes the struct `ident` with `fields`: one entry per serialized
/// name, from the last regular field of that name; the flattened fields' types
/// in order.
pub open spec fn struct_info_ok(ident: Seq<char>, fields: FieldsModel, info: RustTypeInfo) -> bool {
    let fs = named_fields(fields);
    &&& info.name@ == ident
    &&& keys_distinct(info.fields@)
    &&& forall|k: Seq<char>| match #[trigger] last_regular(fs, k) {
        Some(f) => assoc(info.fields@, k) is Some && field_info_ok(f, assoc(info.fields@, k)->0),
        None => assoc(info.fields@, k) is None,
    }
    &&& info.flattened_types@.len() == flattened_texts(fs).len()
    &&& forall|i: int| 0 <= i < flattened_texts(fs).len() ==> #[trigger] info.flattened_types@[i]@ == flattened_texts(fs)[i]
    &&& info.has_flattened == (flattened_texts(fs).len() > 0)
}

/// What a drift check needs of the struct `ident` with `fields`.
pub fn extract_struct_info(ident: &str, fields: &FieldsModel) -> (res: RustTypeInfo)
    ensures
        struct_info_ok(ident@, *fields, res),
{
    let mut out: Vec<(String, RustFieldInfo)> = Vec::new();
    let mut has_flattened = false;
    let mut flattened_types: Vec<String> = Vec::new();
    match fields {
        FieldsModel::Named(named) => {
            let mut i: usize = 0;
            while i < named.len()
                invariant
                    i <= named.len(),
                    named_fields(*fields) == named@,
                    keys_distinct(out@),
                    forall|k: Seq<char>| match #[trigger] last_regular(named@.take(i as int), k) {
                        Some(f) => assoc(out@, k) is Some && field_info_ok(f, assoc(out@, k)->0),
                        None => assoc(out@, k) is None,
                    },
                    flattened_types@.len() == flattened_texts(named@.take(i as int)).len(),
                    forall|j: int| 0 <= j < flattened_texts(named@.take(i as int)).len() ==>
                        #[trigger] flattened_types@[j]@ == flattened_texts(named@.take(i as int))[j],
                    has_flattened == (flattened_texts(named@.take(i as int)).len() > 0),
                decreases named.len() - i,
            {
                let ghost prev = named@.take(i as int);
                let ghost next = named@.take(i as int + 1);
                proof {
                    assert(next.drop_last() =~= prev);
                    assert(next.last() == named@[i as int]);
                }
                let field = &named[i];
                match &field.ident {
                    Some(field_name) => {
                        let info = extract_field_info(field);
                        if info.is_skipped {
                            proof {
                                assert forall|k: Seq<char>| #[trigger] last_regular(next, k) == last_regular(prev, k) by {}
                            }
                        } else if info.is_flattened {
                            has_flattened = true;
                            flattened_types.push(info.type_string);
                            proof {
                                assert forall|k: Seq<char>| #[trigger] last_regular(next, k) == last_regular(prev, k) by {}
                            }
                        } else {
                            let name: String = match &info.serde_rename {
                                Some(r) => r.clone(),
                                None => field_name.clone(),
                            };
                            let ghost key = name@;
                            let ghost old_out = out@;
                            proof {
                                assert(serialized_name(*field) == key);
                            }
                            assoc_insert(&mut out, name, info);
                            proof {
                                assert forall|k: Seq<char>| match #[trigger] last_regular(next, k) {
                                    Some(f) => assoc(out@, k) is Some && field_info_ok(f, assoc(out@, k)->0),
                                    None => assoc(out@, k) is None,
                                } by {
                                    if k != key {
                                        assert(last_regular(next, k) == last_regular(prev, k));
                                        assert(assoc(out@, k) == assoc(old_out, k));
                                    }
                                }
                            }
                        }
                    },
                    None => {
                        proof {
                            assert forall|k: Seq<char>| #[trigger] last_regular(next, k) == last_regular(prev, k) by {}
                        }
                    },
                }
                i = i + 1;
            }
            proof {
                assert(named@.take(named@.len() as int) =~= named@);
            }
        },
        _ => {},
    }
    RustTypeInfo { name: owned(ident), fields: out, has_flattened, flattened_types }
}

/// The fields of the first struct named `name`, if any.
pub open spec fn find_struct(items: Seq<ItemModel>, name: Seq<char>) -> Option<FieldsModel>
    decreases items.len(),
{
    if items.len() == 0 {
        None
    } else {
        match items[0] {
            ItemModel::Struct { ident, fields } => if ident@ == name {
                Some(fields)
            } else {
                find_struct(items.drop_first(), name)
            },
            ItemModel::Other => find_struct(items.drop_first(), name),
        }
    }
}

/// The struct named `ty_name` among a file's parsed items, if any.
pub fn type_from_items(items: &Vec<ItemModel>, ty_name: &str) -> (res: Option<RustTypeInfo>)
    ensures
        match find_struct(items@, ty_name@) {
            Some(fields) => res is Some && struct_info_ok(ty_name@, fields, res->0),
            None => res is None,
        },
{
    let mut i: usize = 0;
    assert(items@.skip(0) =~= items@);
    while i < items.len()
        invariant
            i <= items.len(),
            find_struct(items@, ty_name@) == find_struct(items@.skip(i as int), ty_name@),
        decreases items.len() - i,
    {
        proof {
            assert(items@.skip(i as int)[0] == items@[i as int]);
            assert(items@.skip(i as int).drop_first() =~= items@.skip(i as int + 1));
        }
        match &items[i] {
            ItemModel::Struct { ident, fields } => {
                if str_eq(ident.as_str(), ty_name) {
                    return Some(extract_struct_info(ident.as_str(), fields));
                }
            },
            ItemModel::Other => {},
        }
        i = i + 1;
    }
    None
}

// ---------------------------------------------------------------------------
// Source text
// ---------------------------------------------------------------------------

#[verifier::external_type_specification]
#[verifier::external_body]
pub struct ExSynItem(syn::Item);

#[verifier::external_type_specification]
#[verifier::external_body]
pub struct ExSynField(syn::Field);

#[verifier::external_type_specification]
#[verifier::external_body]
pub struct ExSynType(syn::Type);

#[verifier::external_type_specification]
#[verifier::external_body]
pub struct ExSynPathSegment(syn::PathSegment);

#[verifier::external_type_specification]
#[verifier::external_body]
pub struct ExSynGenericArgument(syn::GenericArgument);

#[verifier::external_type_specification]
#[verifier::external_body]
pub struct ExSynAttribute(syn::Attribute);

#[verifier::external_type_specification]
#[verifier::external_body]
pub struct ExTokenTree(proc_macro2::TokenTree);

/// The top-level items of a Rust source file as `syn::parse_file` parses it,
/// or the text of `syn`'s error.
pub uninterp spec fn rust_items(source: Seq<char>) -> Result<Seq<ItemModel>, Seq<char>>;

/// A parse result taken by its views.
pub open spec fn items_view(r: Result<Vec<ItemModel>, String>) -> Result<Seq<ItemModel>, Seq<char>> {
    match r {
        Ok(v) => Ok(v@),
        Err(e) => Err(e@),
    }
}

/// A `syn` item in the library's model (conversion only).
#[verifier::external_body]
fn item_model(item: &syn::Item) -> ItemModel {
    match item {
        syn::Item::Struct(s) => ItemModel::Struct {
            ident: s.ident.to_string(),
            fields: match &s.fields {
                syn::Fields::Named(named) => FieldsModel::Named(named.named.iter().map(field_model).collect()),
                syn::Fields::Unnamed(_) => FieldsModel::Unnamed,
                syn::Fields::Unit => FieldsModel::Unit,
            },
        },
        _ => ItemModel::Other,
    }
}

/// A `syn` field in the library's model (conversion only).
#[verifier::external_body]
fn field_model(f: &syn::Field) -> FieldModel {
    FieldModel {
        ident: f.ident.as_ref().map(|i| i.to_string()),
        ty: type_model(&f.ty),
        attrs: f.attrs.iter().map(attr_model).collect(),
    }
}

/// A `syn` type in the library's model (conversion only).
#[verifier::external_body]
fn type_model(ty: &syn::Type) -> TypeModel {
    match ty {
        syn::Type::Path(p) => TypeModel::Path(p.path.segments.iter().map(segment_model).collect()),
        syn::Type::Array(a) => TypeModel::Array(Box::new(type_model(&a.elem))),
        syn::Type::Tuple(t) => TypeModel::Tuple(t.elems.iter().map(type_model).collect()),
        _ => TypeModel::Other,
    }
}

/// A `syn` path segment in the library's model (conversion only).
#[verifier::external_body]
fn segment_model(seg: &syn::PathSegment) -> SegmentModel {
    SegmentModel {
        ident: seg.ident.to_string(),
        arguments: match &seg.arguments {
            syn::PathArguments::None => PathArgsModel::Empty,
            syn::PathArguments::AngleBracketed(a) => PathArgsModel::AngleBracketed(a.args.iter().map(generic_arg_model).collect()),
            syn::PathArguments::Parenthesized(_) => PathArgsModel::Parenthesized,
        },
    }
}

/// A `syn` generic argument in the library's model (conversion only).
#[verifier::external_body]
fn generic_arg_model(arg: &syn::GenericArgument) -> GenericArgModel {
    match arg {
        syn::GenericArgument::Type(t) => GenericArgModel::Type(type_model(t)),
        _ => GenericArgModel::Other,
    }
}

/// A `syn` attribute in the library's model, its arguments kept as raw
/// tokens (conversion only).
#[verifier::external_body]
fn attr_model(attr: &syn::Attribute) -> AttrModel {
    AttrModel {
        leading_colon: attr.path().leading_colon.is_some(),
        path: attr.path().segments.iter().map(|s| s.ident.to_string()).collect(),
        meta: match &attr.meta {
            syn::Meta::Path(_) => MetaModel::Path,
            syn::Meta::List(l) => MetaModel::List(l.tokens.clone().into_iter().map(|t| token_model(&t)).collect()),
            syn::Meta::NameValue(_) => MetaModel::NameValue,
        },
    }
}

/// A token in the library's model; a literal carries the value that `syn`
/// reads from it as a string literal, if it is one (conversion only).
#[verifier::external_body]
fn token_model(t: &proc_macro2::TokenTree) -> TokenModel {
    match t {
        proc_macro2::TokenTree::Ident(i) => TokenModel::Ident(i.to_string()),
        proc_macro2::TokenTree::Punct(p) => TokenModel::Punct(p.as_char(), p.spacing() == proc_macro2::Spacing::Joint),
        proc_macro2::TokenTree::Literal(l) => TokenModel::Literal(
            l.to_string(),
            syn::parse2::<syn::LitStr>(proc_macro2::TokenStream::from(t.clone())).ok().map(|s| s.value()),
        ),
        proc_macro2::TokenTree::Group(_) => TokenModel::Group,
    }
}

/// `syn::parse_file(source)`: the file's top-level items, or the error's text.
/// What the items are is named by `rust_items`.
#[verifier::external_body]
pub(crate) fn parse_rust_items(source: &str) -> (r: Result<Vec<ItemModel>, String>)
    ensures
        items_view(r) == rust_items(source@),
{
    syn::parse_file(source).map(|f| f.items.iter().map(item_model).collect()).map_err(|e| e.to_string())
}

/// The message of a source file that does not parse.
pub open spec fn source_error(msg: Seq<char>) -> DriftErrorView {
    DriftErrorView::ParseError("Failed to parse Rust source: "@ + msg)
}

/// The struct named `ty_name` in the Rust source `source`, if it has one;
/// an error when the source does not parse.
pub fn parse_type_from_source(source: &str, ty_name: &str) -> (res: Result<Option<RustTypeInfo>, DriftError>)
    ensures
        match rust_items(source@) {
            Err(msg) => res is Err && res->Err_0@ == source_error(msg),
            Ok(items) => res is Ok && match find_struct(items, ty_name@) {
                Some(fields) => res->Ok_0 is Some && struct_info_ok(ty_name@, fields, res->Ok_0->0),
                None => res->Ok_0 is None,
            },
        },
{
    match parse_rust_items(source) {
        Err(msg) => {
            let mut m = owned("Failed to parse Rust source: ");
            m.append(msg.as_str());
            Err(DriftError::ParseError(m))
        },
        Ok(items) => Ok(type_from_items(&items, ty_name)),
    }
}

/// How the search for a struct through a list of source files ends: the first
/// file that does not parse, or the struct in the first file that has it.
pub open spec fn search_sources(files: Seq<Result<Seq<ItemModel>, Seq<char>>>, name: Seq<char>) -> Result<Option<FieldsModel>, Seq<char>>
    decreases files.len(),
{
    if files.len() == 0 {
        Ok(None)
    } else {
        match files[0] {
            Err(msg) => Err(msg),
            Ok(items) => match find_struct(items, name) {
                Some(f) => Ok(Some(f)),
                None => search_sources(files.drop_first(), name),
            },
        }
    }
}

/// The parse results of source texts.
pub open spec fn parsed_sources(sources: Seq<String>) -> Seq<Result<Seq<ItemModel>, Seq<char>>> {
    sources.map_values(|s: String| rust_items(s@))
}

/// Searching one source file gives what parsing that file gives: its error,
/// or the struct if it has one.
pub proof fn law_search_one_source(source: String, name: Seq<char>)
    ensures
        search_sources(parsed_sources(seq![source]), name) == match rust_items(source@) {
            Err(msg) => Err(msg),
            Ok(items) => Ok(find_struct(items, name)),
        },
{
    let files = parsed_sources(seq![source]);
    assert(files[0] == rust_items(source@));
    assert(files.drop_first() =~= Seq::<Result<Seq<ItemModel>, Seq<char>>>::empty());
    assert(search_sources(files.drop_first(), name) == Ok::<Option<FieldsModel>, Seq<char>>(None));
    match rust_items(source@) {
        Err(msg) => {},
        Ok(items) => {
            match find_struct(items, name) {
                Some(f) => {},
                None => {},
            }
        },
    }
}

/// Searching several source files finds the struct in the first that has
/// it, unless an earlier file does not parse.
pub proof fn law_search_concat(a: Seq<String>, b: Seq<String>, name: Seq<char>)
    ensures
        search_sources(parsed_sources(a + b), name) == match search_sources(parsed_sources(a), name) {
            Ok(None) => search_sources(parsed_sources(b), name),
            r => r,
        },
    decreases a.len(),
{
    if a.len() > 0 {
        law_search_concat(a.drop_first(), b, name);
        assert((a + b).drop_first() =~= a.drop_first() + b);
        assert(parsed_sources(a + b).drop_first() =~= parsed_sources((a + b).drop_first()));
        assert(parsed_sources(a).drop_first() =~= parsed_sources(a.drop_first()));
        assert(parsed_sources(a + b)[0] == parsed_sources(a)[0]);
    } else {
        assert(a + b =~= b);
    }
}

/// Finds the struct `ty_name` in the source files, in order. A file that does
/// not parse stops the search with its error.
pub fn find_type_in_sources(sources: &Vec<String>, ty_name: &str) -> (res: Result<RustTypeInfo, DriftError>)
    ensures
        match search_sources(parsed_sources(sources@), ty_name@) {
            Err(msg) => res is Err && res->Err_0@ == source_error(msg),
            Ok(Some(fields)) => res is Ok && struct_info_ok(ty_name@, fields, res->Ok_0),
            Ok(None) => res is Err && res->Err_0@ == DriftErrorView::TypeNotFound(ty_name@),
        },
{
    let ghost files = parsed_sources(sources@);
    let mut i: usize = 0;
    assert(files.skip(0) =~= files);
    while i < sources.len()
        invariant
            i <= sources.len(),
            files == parsed_sources(sources@),
            search_sources(files, ty_name@) == search_sources(files.skip(i as int), ty_name@),
        decreases sources.len() - i,
    {
        proof {
            assert(files.skip(i as int)[0] == files[i as int]);
            assert(files.skip(i as int).drop_first() =~= files.skip(i as int + 1));
        }
        match parse_type_from_source(sources[i].as_str(), ty_name) {
            Err(e) => {
                return Err(e);
            },
            Ok(Some(info)) => {
                return Ok(info);
            },
            Ok(None) => {},
        }
        i = i + 1;
    }
    proof {
        assert(files.skip(i as int) =~= Seq::<Result<Seq<ItemModel>, Seq<char>>>::empty());
    }
    Err(DriftError::TypeNotFound(owned(ty_name)))
}

} // verus!
