//! The JSON Schema side of a drift check: property types, formats and refs.

use vstd::prelude::*;
use crate::json::{Json, json_get, json_str, get_str};
use crate::text::{owned, str_eq, chars_of, string_from_chars};
use crate::drift::compare::{DriftError, DriftErrorView};

verus! {

/// A JSON Schema type.
#[derive(Debug)]
pub enum JsonType {
    String,
    Integer,
    Number,
    Boolean,
    Array,
    Object,
    Null,
    /// Several types allowed, such as `["string", "null"]`.
    Union(Vec<JsonType>),
    /// A reference to another definition, by name.
    Ref(String),
}

/// What a drift check needs of one schema property.
#[derive(Debug)]
pub struct JsonPropertyInfo {
    /// The declared type.
    pub json_type: JsonType,
    /// The `format` hint, such as `uuid` or `date-time`.
    pub format: Option<String>,
    /// The raw `$ref` target, when the property is a reference.
    pub ref_type: Option<String>,
    /// The property's description.
    pub description: Option<String>,
}

/// What a drift check needs of one schema: its title, properties and required names.
#[derive(Debug)]
pub struct JsonSchemaInfo {
    /// The schema title (the type's name).
    pub name: String,
    /// Property name and information, one pair per property.
    pub properties: Vec<(String, JsonPropertyInfo)>,
    /// Names of the required properties.
    pub required: Vec<String>,
}

/// The view of an optional string.
pub open spec fn opt_view(o: Option<String>) -> Option<Seq<char>> {
    match o {
        Some(s) => Some(s@),
        None => None,
    }
}

/// The schema type named by a `type` keyword; unknown names read as `string`.
pub open spec fn json_type_named(s: Seq<char>) -> JsonType {
    if s == "string"@ {
        JsonType::String
    } else if s == "integer"@ {
        JsonType::Integer
    } else if s == "number"@ {
        JsonType::Number
    } else if s == "boolean"@ {
        JsonType::Boolean
    } else if s == "array"@ {
        JsonType::Array
    } else if s == "object"@ {
        JsonType::Object
    } else if s == "null"@ {
        JsonType::Null
    } else {
        JsonType::String
    }
}

/// The strings of an array, in order, other elements left out.
pub open spec fn string_items(a: Seq<Json>) -> Seq<Seq<char>>
    decreases a.len(),
{
    if a.len() == 0 {
        Seq::empty()
    } else {
        let rest = string_items(a.drop_last());
        match a.last() {
            Json::Str(s) => rest.push(s@),
            _ => rest,
        }
    }
}

/// `res` is the type that a `type` keyword with value `tv` declares: absent or
/// neither a string nor an array means `object`; one named type stands alone;
/// any other number of names makes a union of them.
pub open spec fn type_field_ok(tv: Option<Json>, res: JsonType) -> bool {
    match tv {
        Some(Json::Str(s)) => res == json_type_named(s@),
        Some(Json::Array(a)) => {
            let names = string_items(a@);
            if names.len() == 1 {
                res == json_type_named(names[0])
            } else {
                &&& res is Union
                &&& res->Union_0@.len() == names.len()
                &&& forall|i: int| 0 <= i < names.len() ==> #[trigger] res->Union_0@[i] == json_type_named(names[i])
            }
        },
        _ => res == JsonType::Object,
    }
}

/// The part of `s` after the last `c`; all of `s` when `c` does not occur.
pub open spec fn after_last(s: Seq<char>, c: char) -> Seq<char>
    decreases s.len(),
{
    if s.len() == 0 {
        s
    } else if s.last() == c {
        Seq::empty()
    } else {
        after_last(s.drop_last(), c).push(s.last())
    }
}

/// The value of the first `$ref` member among the items of an array.
pub open spec fn first_ref_item(a: Seq<Json>) -> Option<Json>
    decreases a.len(),
{
    if a.len() == 0 {
        None
    } else {
        match json_get(a[0], "$ref"@) {
            Some(r) => Some(r),
            None => first_ref_item(a.drop_first()),
        }
    }
}

/// The first item `$ref` under the combinator `name`, when its value is an array.
pub open spec fn combinator_ref(value: Json, name: Seq<char>) -> Option<Json> {
    match json_get(value, name) {
        Some(Json::Array(a)) => first_ref_item(a@),
        _ => None,
    }
}

/// The reference a property makes: its own `$ref`, else the first item `$ref`
/// under `allOf`, then `anyOf`, then `oneOf`.
pub open spec fn property_ref(value: Json) -> Option<Json> {
    match json_get(value, "$ref"@) {
        Some(r) => Some(r),
        None => match combinator_ref(value, "allOf"@) {
            Some(r) => Some(r),
            None => match combinator_ref(value, "anyOf"@) {
                Some(r) => Some(r),
                None => combinator_ref(value, "oneOf"@),
            },
        },
    }
}

/// The text of a string value, empty for any other value.
pub open spec fn str_or_empty(v: Json) -> Seq<char> {
    match v {
        Json::Str(s) => s@,
        _ => Seq::empty(),
    }
}

/// `p` is what the object property `value` declares.
pub open spec fn property_info_ok(value: Json, p: JsonPropertyInfo) -> bool {
    &&& opt_view(p.description) == json_str(json_get(value, "description"@))
    &&& match property_ref(value) {
        Some(r) => {
            &&& p.json_type is Ref
            &&& p.json_type->Ref_0@ == after_last(str_or_empty(r), '/')
            &&& p.format is None
            &&& opt_view(p.ref_type) == Some(str_or_empty(r))
        },
        None => {
            &&& type_field_ok(json_get(value, "type"@), p.json_type)
            &&& opt_view(p.format) == json_str(json_get(value, "format"@))
            &&& p.ref_type is None
        },
    }
}

/// The schema type named by a `type` keyword.
pub fn string_to_json_type(s: &str) -> (res: JsonType)
    ensures
        res == json_type_named(s@),
{
    if str_eq(s, "string") {
        JsonType::String
    } else if str_eq(s, "integer") {
        JsonType::Integer
    } else if str_eq(s, "number") {
        JsonType::Number
    } else if str_eq(s, "boolean") {
        JsonType::Boolean
    } else if str_eq(s, "array") {
        JsonType::Array
    } else if str_eq(s, "object") {
        JsonType::Object
    } else if str_eq(s, "null") {
        JsonType::Null
    } else {
        JsonType::String
    }
}

proof fn lemma_after_last(s: Seq<char>, c: char, j: int)
    requires
        0 <= j <= s.len(),
        forall|k: int| j <= k < s.len() ==> s[k] != c,
        j == 0 || s[j - 1] == c,
    ensures
        after_last(s, c) == s.subrange(j, s.len() as int),
    decreases s.len(),
{
    if s.len() == 0 {
        assert(s.subrange(j, 0) =~= s);
    } else if j == s.len() {
        assert(s.subrange(j, s.len() as int) =~= Seq::<char>::empty());
    } else {
        lemma_after_last(s.drop_last(), c, j);
        assert(s.drop_last().subrange(j, s.len() - 1).push(s.last()) =~= s.subrange(j, s.len() as int));
    }
}

/// The name a `$ref` points at: the text after its last `/`
/// (`"#/definitions/MomentType"` gives `"MomentType"`).
pub fn extract_ref_name(ref_str: &str) -> (res: String)
    ensures
        res@ == after_last(ref_str@, '/'),
{
    let v = chars_of(ref_str);
    let mut j: usize = v.len();
    while j > 0 && v[j - 1] != '/'
        invariant
            j <= v.len(),
            forall|k: int| j <= k < v.len() ==> v@[k] != '/',
        decreases j,
    {
        j = j - 1;
    }
    let mut out: Vec<char> = Vec::new();
    let mut i: usize = j;
    while i < v.len()
        invariant
            j <= i <= v.len(),
            out@ == v@.subrange(j as int, i as int),
        decreases v.len() - i,
    {
        out.push(v[i]);
        i = i + 1;
    }
    proof {
        lemma_after_last(v@, '/', j as int);
    }
    string_from_chars(&out)
}

/// The type declared by the `type` keyword of a property (absent: `None`).
pub fn parse_type_field(type_val: Option<&Json>) -> (res: JsonType)
    ensures
        type_field_ok(
            match type_val {
                Some(j) => Some(*j),
                None => None,
            },
            res,
        ),
{
    match type_val {
        None => JsonType::Object,
        Some(Json::Str(s)) => string_to_json_type(s.as_str()),
        Some(Json::Array(arr)) => {
            let mut types: Vec<JsonType> = Vec::new();
            let mut i: usize = 0;
            while i < arr.len()
                invariant
                    i <= arr.len(),
                    types@.len() == string_items(arr@.take(i as int)).len(),
                    forall|k: int| 0 <= k < types@.len() ==> #[trigger] types@[k] == json_type_named(string_items(arr@.take(i as int))[k]),
                decreases arr.len() - i,
            {
                proof {
                    assert(arr@.take(i as int + 1).drop_last() =~= arr@.take(i as int));
                }
                match &arr[i] {
                    Json::Str(s) => {
                        types.push(string_to_json_type(s.as_str()));
                    },
                    _ => {},
                }
                i = i + 1;
            }
            proof {
                assert(arr@.take(arr@.len() as int) =~= arr@);
            }
            if types.len() == 1 {
                types.pop().unwrap()
            } else {
                JsonType::Union(types)
            }
        },
        Some(_) => JsonType::Object,
    }
}

proof fn lemma_first_ref_skip(a: Seq<Json>, i: int)
    requires
        0 <= i <= a.len(),
        forall|j: int| 0 <= j < i ==> json_get(#[trigger] a[j], "$ref"@) is None,
    ensures
        first_ref_item(a) == first_ref_item(a.skip(i)),
    decreases i,
{
    if i > 0 {
        assert forall|j: int| 0 <= j < i - 1 implies json_get(#[trigger] a.drop_first()[j], "$ref"@) is None by {
            assert(a.drop_first()[j] == a[j + 1]);
        }
        lemma_first_ref_skip(a.drop_first(), i - 1);
        assert(a.drop_first().skip(i - 1) == a.skip(i));
    } else {
        assert(a.skip(0) == a);
    }
}

/// The first item `$ref` under the combinator `name` of `value`.
fn find_combinator_ref<'a>(value: &'a Json, name: &str) -> (res: Option<&'a Json>)
    ensures
        match res {
            Some(r) => combinator_ref(*value, name@) == Some(*r),
            None => combinator_ref(*value, name@) is None,
        },
{
    match value.get(name) {
        Some(Json::Array(arr)) => {
            let mut i: usize = 0;
            while i < arr.len()
                invariant
                    i <= arr.len(),
                    combinator_ref(*value, name@) == first_ref_item(arr@),
                    forall|j: int| 0 <= j < i ==> json_get(#[trigger] arr@[j], "$ref"@) is None,
                decreases arr.len() - i,
            {
                match arr[i].get("$ref") {
                    Some(r) => {
                        proof {
                            lemma_first_ref_skip(arr@, i as int);
                            assert(arr@.skip(i as int)[0] == arr@[i as int]);
                        }
                        return Some(r);
                    },
                    None => {},
                }
                i = i + 1;
            }
            proof {
                lemma_first_ref_skip(arr@, i as int);
            }
            None
        },
        _ => None,
    }
}

/// A property that refers to `r`.
fn ref_property(value: &Json, r: &Json) -> (res: JsonPropertyInfo)
    ensures
        res.json_type is Ref,
        res.json_type->Ref_0@ == after_last(str_or_empty(*r), '/'),
        res.format is None,
        opt_view(res.ref_type) == Some(str_or_empty(*r)),
        opt_view(res.description) == json_str(json_get(*value, "description"@)),
{
    let ref_str: String = match r.as_str() {
        Some(s) => owned(s),
        None => String::new(),
    };
    let name = extract_ref_name(ref_str.as_str());
    JsonPropertyInfo {
        json_type: JsonType::Ref(name),
        format: None,
        ref_type: Some(ref_str),
        description: get_str(value, "description"),
    }
}

/// The information a property declares; an error when it is not an object.
pub fn parse_property(value: &Json) -> (res: Result<JsonPropertyInfo, DriftError>)
    ensures
        !(*value is Object) ==> res is Err && res->Err_0@ == DriftErrorView::ParseError("Property is not an object"@),
        *value is Object ==> res is Ok && property_info_ok(*value, res->Ok_0),
{
    if !value.is_object() {
        return Err(DriftError::ParseError(owned("Property is not an object")));
    }
    if let Some(r) = value.get("$ref") {
        return Ok(ref_property(value, r));
    }
    if let Some(r) = find_combinator_ref(value, "allOf") {
        return Ok(ref_property(value, r));
    }
    if let Some(r) = find_combinator_ref(value, "anyOf") {
        return Ok(ref_property(value, r));
    }
    if let Some(r) = find_combinator_ref(value, "oneOf") {
        return Ok(ref_property(value, r));
    }
    let json_type = parse_type_field(value.get("type"));
    Ok(JsonPropertyInfo {
        json_type,
        format: get_str(value, "format"),
        ref_type: None,
        description: get_str(value, "description"),
    })
}

/// Whether every property value is an object.
pub open spec fn all_objects(props: Seq<(String, Json)>) -> bool {
    forall|i: int| 0 <= i < props.len() ==> (#[trigger] props[i]).1 is Object
}

/// The schema information made of a schema's title, `required` list and
/// properties (`properties` given as name and value, with distinct names);
/// without a title the type's own name stands in.
pub fn schema_info_from_parts(
    ty_name: &str,
    title: Option<String>,
    required: Option<Vec<String>>,
    properties: Option<Vec<(String, Json)>>,
) -> (res: Result<JsonSchemaInfo, DriftError>)
    ensures
        ({
            let props = match properties {
                Some(p) => p@,
                None => Seq::empty(),
            };
            &&& res is Ok <==> all_objects(props)
            &&& res is Err ==> res->Err_0@ == DriftErrorView::ParseError("Property is not an object"@)
            &&& res is Ok ==> {
                let info = res->Ok_0;
                &&& info.name@ == match title {
                    Some(t) => t@,
                    None => ty_name@,
                }
                &&& info.required@ == match required {
                    Some(r) => r@,
                    None => Seq::empty(),
                }
                &&& info.properties@.len() == props.len()
                &&& forall|i: int| 0 <= i < props.len() ==> (#[trigger] info.properties@[i]).0@ == props[i].0@
                    && property_info_ok(props[i].1, info.properties@[i].1)
            }
        }),
{
    let name = match title {
        Some(t) => t,
        None => owned(ty_name),
    };
    let req_list = match required {
        Some(r) => r,
        None => Vec::new(),
    };
    let mut out: Vec<(String, JsonPropertyInfo)> = Vec::new();
    let ghost pv = match &properties {
        Some(p) => p@,
        None => Seq::empty(),
    };
    match properties {
        Some(props) => {
            let mut i: usize = 0;
            while i < props.len()
                invariant
                    i <= props.len(),
                    pv == props@,
                    pv == match properties {
                        Some(p) => p@,
                        None => Seq::<(String, Json)>::empty(),
                    },
                    name@ == match title {
                        Some(t) => t@,
                        None => ty_name@,
                    },
                    req_list@ == match required {
                        Some(r) => r@,
                        None => Seq::<String>::empty(),
                    },
                    out@.len() == i,
                    forall|k: int| 0 <= k < i ==> (#[trigger] props@[k]).1 is Object,
                    forall|k: int| 0 <= k < i ==> (#[trigger] out@[k]).0@ == props@[k].0@
                        && property_info_ok(props@[k].1, out@[k].1),
                decreases props.len() - i,
            {
                match parse_property(&props[i].1) {
                    Ok(info) => {
                        let key = props[i].0.clone();
                        out.push((key, info));
                    },
                    Err(e) => {
                        assert(!(pv[i as int].1 is Object));
                        assert(!all_objects(pv));
                        assert(e@ == DriftErrorView::ParseError("Property is not an object"@));
                        return Err(e);
                    },
                }
                i = i + 1;
            }
        },
        None => {},
    }
    Ok(JsonSchemaInfo { name, properties: out, required: req_list })
}

} // verus!
