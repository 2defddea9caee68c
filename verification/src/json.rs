//! A JSON document model.
//!
//! Documents are read from disk and parsed by `serde_json` at the edge of the
//! program; the library works on this plain model of the parsed value.

use vstd::prelude::*;
use crate::text::{chars_eq, chars_of};
use vstd::utf8::encode_utf8;
use vstd::string::*;

verus! {

/// A JSON value. Object members keep their order; numbers keep their text.
#[derive(Debug)]
pub enum Json {
    Null,
    Bool(bool),
    Number(String),
    Str(String),
    Array(Vec<Json>),
    Object(Vec<(String, Json)>),
}

/// The first member of `members` named `key`.
pub open spec fn member(members: Seq<(String, Json)>, key: Seq<char>) -> Option<Json>
    decreases members.len(),
{
    if members.len() == 0 {
        None
    } else if members[0].0@ == key {
        Some(members[0].1)
    } else {
        member(members.drop_first(), key)
    }
}

/// `value[key]` for an object (`serde_json::Value::get` with a string key).
pub open spec fn json_get(value: Json, key: Seq<char>) -> Option<Json> {
    match value {
        Json::Object(members) => member(members@, key),
        _ => None,
    }
}

/// The text of a string value.
pub open spec fn json_str(value: Option<Json>) -> Option<Seq<char>> {
    match value {
        Some(Json::Str(s)) => Some(s@),
        _ => None,
    }
}

proof fn lemma_member_skip(members: Seq<(String, Json)>, key: Seq<char>, i: int)
    requires
        0 <= i <= members.len(),
        forall|j: int| 0 <= j < i ==> (#[trigger] members[j]).0@ != key,
    ensures
        member(members, key) == member(members.skip(i), key),
    decreases i,
{
    if i > 0 {
        assert(members.skip(1) == members.drop_first());
        assert forall|j: int| 0 <= j < i - 1 implies (#[trigger] members.drop_first()[j]).0@ != key by {
            assert(members.drop_first()[j] == members[j + 1]);
        }
        lemma_member_skip(members.drop_first(), key, i - 1);
        assert(members.drop_first().skip(i - 1) == members.skip(i));
    } else {
        assert(members.skip(0) == members);
    }
}

/// The value of a JSON document: objects as member lists, numbers as text.
pub enum JsonV {
    Null,
    Bool(bool),
    Number(Seq<char>),
    Str(Seq<char>),
    Array(Seq<JsonV>),
    Object(Seq<(Seq<char>, JsonV)>),
}

/// The value of a document.
pub open spec fn jv(j: Json) -> JsonV
    decreases j,
{
    match j {
        Json::Null => JsonV::Null,
        Json::Bool(b) => JsonV::Bool(b),
        Json::Number(n) => JsonV::Number(n@),
        Json::Str(s) => JsonV::Str(s@),
        Json::Array(items) => JsonV::Array(jv_items(items@)),
        Json::Object(ms) => JsonV::Object(jv_members(ms@)),
    }
}

/// The values of array items.
pub open spec fn jv_items(s: Seq<Json>) -> Seq<JsonV>
    decreases s,
{
    if s.len() == 0 {
        Seq::empty()
    } else {
        jv_items(s.subrange(0, s.len() - 1)).push(jv(s[s.len() - 1]))
    }
}

/// The values of object members.
pub open spec fn jv_members(s: Seq<(String, Json)>) -> Seq<(Seq<char>, JsonV)>
    decreases s,
{
    if s.len() == 0 {
        Seq::empty()
    } else {
        jv_members(s.subrange(0, s.len() - 1)).push((s[s.len() - 1].0@, jv(s[s.len() - 1].1)))
    }
}

impl View for Json {
    type V = JsonV;

    open spec fn view(&self) -> JsonV {
        jv(*self)
    }
}

impl Json {
    /// The member named `key` when this is an object.
    pub fn get(&self, key: &str) -> (res: Option<&Json>)
        ensures
            match res {
                Some(r) => json_get(*self, key@) == Some(*r),
                None => json_get(*self, key@) is None,
            },
    {
        match self {
            Json::Object(members) => {
                let k = chars_of(key);
                let mut i: usize = 0;
                while i < members.len()
                    invariant
                        i <= members.len(),
                        k@ == key@,
                        json_get(*self, key@) == member(members@, key@),
                        forall|j: int| 0 <= j < i ==> (#[trigger] members@[j]).0@ != key@,
                    decreases members.len() - i,
                {
                    let name = chars_of(members[i].0.as_str());
                    if chars_eq(name.as_slice(), k.as_slice()) {
                        proof {
                            lemma_member_skip(members@, key@, i as int);
                            assert(members@.skip(i as int)[0] == members@[i as int]);
                            assert(members@[i as int].0@ == key@);
                            assert(member(members@.skip(i as int), key@) == Some(members@[i as int].1));
                        }
                        return Some(&members[i].1);
                    }
                    i = i + 1;
                }
                proof {
                    lemma_member_skip(members@, key@, i as int);
                }
                None
            },
            _ => None,
        }
    }

    /// The text when this is a string.
    pub fn as_str(&self) -> (res: Option<&str>)
        ensures
            match res {
                Some(s) => json_str(Some(*self)) == Some(s@),
                None => json_str(Some(*self)) is None,
            },
    {
        match self {
            Json::Str(s) => Some(s.as_str()),
            _ => None,
        }
    }

    /// Whether this is an object.
    pub fn is_object(&self) -> (res: bool)
        ensures
            res == (*self is Object),
    {
        match self {
            Json::Object(_) => true,
            _ => false,
        }
    }
}

/// The text of the string member `key`, when it is a string (`v.get(key).and_then(as_str)`).
pub fn get_str(value: &Json, key: &str) -> (res: Option<String>)
    ensures
        match res {
            Some(s) => json_str(json_get(*value, key@)) == Some(s@),
            None => json_str(json_get(*value, key@)) is None,
        },
{
    match value.get(key) {
        Some(Json::Str(s)) => Some(s.clone()),
        _ => None,
    }
}


// ---------------------------------------------------------------------------
// JSON text
// ---------------------------------------------------------------------------

/// The document `serde_json::from_slice` reads from a schema file's bytes,
/// or the text of its error.
pub uninterp spec fn schema_file_value(bytes: Seq<u8>) -> Result<JsonV, Seq<char>>;

/// A parse result taken by its views.
pub open spec fn json_result(r: Result<Json, String>) -> Result<JsonV, Seq<char>> {
    match r {
        Ok(j) => Ok(j@),
        Err(e) => Err(e@),
    }
}

/// A `serde_json` value as the library's document, numbers by their text
/// (conversion only).
#[verifier::external_body]
pub(crate) fn value_json(v: &serde_json::Value) -> Json {
    match v {
        serde_json::Value::Null => Json::Null,
        serde_json::Value::Bool(b) => Json::Bool(*b),
        serde_json::Value::Number(n) => Json::Number(n.to_string()),
        serde_json::Value::String(s) => Json::Str(s.clone()),
        serde_json::Value::Array(a) => Json::Array(a.iter().map(value_json).collect()),
        serde_json::Value::Object(m) => Json::Object(m.iter().map(|(k, x)| (k.clone(), value_json(x))).collect()),
    }
}

/// `serde_json::from_slice::<serde_json::Value>(bytes)`, as a document.
#[verifier::external_body]
pub(crate) fn schema_from_slice(bytes: &[u8]) -> (r: Result<Json, String>)
    ensures
        json_result(r) == schema_file_value(bytes@),
{
    serde_json::from_slice::<serde_json::Value>(bytes).map(|v| value_json(&v)).map_err(|e| e.to_string())
}

/// The documents `serde_json::from_slice::<Vec<serde_json::Value>>` reads
/// from bytes (a JSON array), or the text of its error.
pub uninterp spec fn json_array_value(bytes: Seq<u8>) -> Result<Seq<JsonV>, Seq<char>>;

/// `serde_json::from_slice::<Vec<serde_json::Value>>(bytes)`, as documents.
#[verifier::external_body]
fn array_from_slice(bytes: &[u8]) -> (r: Result<Vec<Json>, String>)
    ensures
        match r {
            Ok(v) => json_array_value(bytes@) == Ok::<Seq<JsonV>, Seq<char>>(jv_items(v@)),
            Err(e) => json_array_value(bytes@) == Err::<Seq<JsonV>, Seq<char>>(e@),
        },
{
    serde_json::from_slice::<Vec<serde_json::Value>>(bytes).map(|v| v.iter().map(value_json).collect()).map_err(|e| e.to_string())
}

/// Parses a JSON text that holds an array into its items.
pub fn parse_array_text(text: &str) -> (r: Result<Vec<Json>, String>)
    ensures
        match r {
            Ok(v) => json_array_value(encode_utf8(text@)) == Ok::<Seq<JsonV>, Seq<char>>(jv_items(v@)),
            Err(e) => json_array_value(encode_utf8(text@)) == Err::<Seq<JsonV>, Seq<char>>(e@),
        },
{
    array_from_slice(text.as_bytes())
}

/// The document a text reads as (its UTF-8 bytes parsed by `serde_json`), or
/// the error's text.
pub open spec fn text_value(t: Seq<char>) -> Result<JsonV, Seq<char>> {
    schema_file_value(encode_utf8(t))
}

/// Parses a JSON text into a document (see `text_value`).
pub fn parse_text(text: &str) -> (r: Result<Json, String>)
    ensures
        json_result(r) == text_value(text@),
{
    schema_from_slice(text.as_bytes())
}

/// The files (path and text) whose text parses, each with its path and
/// document, in order.
pub open spec fn parsed_views(files: Seq<(String, String)>) -> Seq<(Seq<char>, JsonV)>
    decreases files.len(),
{
    if files.len() == 0 {
        Seq::empty()
    } else {
        parsed_views(files.drop_last()) + match text_value(files.last().1@) {
            Ok(v) => seq![(files.last().0@, v)],
            Err(_) => Seq::<(Seq<char>, JsonV)>::empty(),
        }
    }
}

/// The error of the first file whose text does not parse, if any.
pub open spec fn first_parse_error(files: Seq<(String, String)>) -> Option<Seq<char>>
    decreases files.len(),
{
    if files.len() == 0 {
        None
    } else {
        match first_parse_error(files.drop_last()) {
            Some(e) => Some(e),
            None => match text_value(files.last().1@) {
                Err(e) => Some(e),
                Ok(_) => None,
            },
        }
    }
}

/// Paths and documents taken by their views.
pub open spec fn doc_views(fs: Seq<(String, Json)>) -> Seq<(Seq<char>, JsonV)> {
    fs.map_values(|f: (String, Json)| (f.0@, f.1@))
}

/// The texts of the files.
pub open spec fn file_texts(files: Seq<(String, String)>) -> Seq<String> {
    files.map_values(|f: (String, String)| f.1)
}

/// A first parse error in a prefix is the first parse error of the whole.
pub proof fn lemma_first_parse_error_prefix(files: Seq<(String, String)>, k: int)
    requires
        0 <= k <= files.len(),
        first_parse_error(files.take(k)) is Some,
    ensures
        first_parse_error(files) == first_parse_error(files.take(k)),
    decreases files.len() - k,
{
    if k < files.len() {
        assert(files.drop_last().take(k) =~= files.take(k));
        lemma_first_parse_error_prefix(files.drop_last(), k);
    } else {
        assert(files.take(k) =~= files);
    }
}

/// Parses the files' texts in order: the documents of those that parse
/// (`parsed_views`), and the texts of all (`file_texts`). Unless
/// `skip_invalid`, the first text that does not parse ends the reading
/// with its error (`first_parse_error`).
pub fn parse_files(files: &Vec<(String, String)>, skip_invalid: bool) -> (res: Result<(Vec<String>, Vec<(String, Json)>), String>)
    ensures
        match res {
            Err(m) => !skip_invalid && first_parse_error(files@) == Some(m@),
            Ok((texts, docs)) => (skip_invalid || first_parse_error(files@) is None) && texts@ == file_texts(files@)
                && doc_views(docs@) == parsed_views(files@),
        },
        !skip_invalid && first_parse_error(files@) is Some ==> res is Err,
{
    let mut texts: Vec<String> = Vec::new();
    let mut docs: Vec<(String, Json)> = Vec::new();
    let mut i: usize = 0;
    proof {
        assert(files@.take(0) =~= Seq::<(String, String)>::empty());
        assert(doc_views(docs@) =~= Seq::<(Seq<char>, JsonV)>::empty());
        assert(texts@ =~= file_texts(files@.take(0)));
    }
    while i < files.len()
        invariant
            i <= files@.len(),
            texts@ == file_texts(files@.take(i as int)),
            doc_views(docs@) == parsed_views(files@.take(i as int)),
            !skip_invalid ==> first_parse_error(files@.take(i as int)) is None,
        decreases files@.len() - i,
    {
        let ghost t = files@.take(i as int + 1);
        proof {
            assert(t.drop_last() =~= files@.take(i as int));
            assert(t.last() == files@[i as int]);
        }
        let text = files[i].1.clone();
        let parsed = parse_text(text.as_str());
        let ghost before = texts@;
        texts.push(text);
        proof {
            assert(texts@ =~= file_texts(t));
        }
        match parsed {
            Ok(j) => {
                let ghost dv = doc_views(docs@);
                docs.push((files[i].0.clone(), j));
                proof {
                    assert(doc_views(docs@) =~= dv + seq![(files@[i as int].0@, j@)]);
                }
            },
            Err(e) => {
                proof {
                    assert(doc_views(docs@) =~= doc_views(docs@) + Seq::<(Seq<char>, JsonV)>::empty());
                }
                if !skip_invalid {
                    proof {
                        assert(first_parse_error(t) == Some(e@));
                        lemma_first_parse_error_prefix(files@, i as int + 1);
                    }
                    return Err(e);
                }
            },
        }
        i = i + 1;
    }
    proof {
        assert(files@.take(files@.len() as int) =~= files@);
    }
    Ok((texts, docs))
}

} // verus!
