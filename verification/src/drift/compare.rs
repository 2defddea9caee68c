//! Deciding whether a Rust struct and its JSON Schema agree.

use vstd::prelude::*;
use crate::assoc::{assoc, assoc_index, has_string, strings_contain};
use crate::drift::schema::{JsonType, JsonPropertyInfo, JsonSchemaInfo, opt_view};
use crate::drift::parser::{RustTypeInfo, RustFieldInfo};
use crate::text::{
    chars_of, chars_eq, starts_with_spec, ends_with_spec, contains_seq_spec, lowercase,
    lowercase_chars, owned, usize_to_string, decimal, sub_chars, chars_is, chars_start, chars_end,
    chars_have,
};

verus! {

/// A report of every drift found.
#[derive(Debug)]
pub struct DriftReport {
    pub errors: Vec<DriftError>,
}

/// One way a Rust struct and its schema disagree, or why they could not be compared.
#[derive(Debug)]
pub enum DriftError {
    /// The schema has a field that the struct lacks.
    MissingInRust { ty_name: String, field: String },
    /// The struct has a field that the schema lacks.
    MissingInSchema { ty_name: String, field: String },
    /// A field's types disagree.
    TypeMismatch { ty_name: String, field: String, rust_type: String, schema_type: String },
    /// A field is optional on one side and required on the other.
    OptionalityMismatch { ty_name: String, field: String, rust_optional: bool, schema_required: bool },
    /// The Rust type was not found.
    TypeNotFound(String),
    /// The schema was not found.
    SchemaNotFound(String),
    /// A schema or source could not be parsed.
    ParseError(String),
}

/// A `DriftError` with its strings taken as character sequences.
pub enum DriftErrorView {
    MissingInRust { ty_name: Seq<char>, field: Seq<char> },
    MissingInSchema { ty_name: Seq<char>, field: Seq<char> },
    TypeMismatch { ty_name: Seq<char>, field: Seq<char>, rust_type: Seq<char>, schema_type: Seq<char> },
    OptionalityMismatch { ty_name: Seq<char>, field: Seq<char>, rust_optional: bool, schema_required: bool },
    TypeNotFound(Seq<char>),
    SchemaNotFound(Seq<char>),
    ParseError(Seq<char>),
}

impl View for DriftError {
    type V = DriftErrorView;

    open spec fn view(&self) -> DriftErrorView {
        match self {
            DriftError::MissingInRust { ty_name, field } => DriftErrorView::MissingInRust {
                ty_name: ty_name@,
                field: field@,
            },
            DriftError::MissingInSchema { ty_name, field } => DriftErrorView::MissingInSchema {
                ty_name: ty_name@,
                field: field@,
            },
            DriftError::TypeMismatch { ty_name, field, rust_type, schema_type } => DriftErrorView::TypeMismatch {
                ty_name: ty_name@,
                field: field@,
                rust_type: rust_type@,
                schema_type: schema_type@,
            },
            DriftError::OptionalityMismatch { ty_name, field, rust_optional, schema_required } =>
                DriftErrorView::OptionalityMismatch {
                ty_name: ty_name@,
                field: field@,
                rust_optional: *rust_optional,
                schema_required: *schema_required,
            },
            DriftError::TypeNotFound(n) => DriftErrorView::TypeNotFound(n@),
            DriftError::SchemaNotFound(n) => DriftErrorView::SchemaNotFound(n@),
            DriftError::ParseError(m) => DriftErrorView::ParseError(m@),
        }
    }
}

/// The sentence that describes a drift error.
pub open spec fn drift_error_text(e: DriftErrorView) -> Seq<char> {
    match e {
        DriftErrorView::MissingInRust { ty_name, field } =>
            "Type '"@ + ty_name + "': Field '"@ + field + "' exists in JSON schema but not in Rust struct"@,
        DriftErrorView::MissingInSchema { ty_name, field } =>
            "Type '"@ + ty_name + "': Field '"@ + field + "' exists in Rust struct but not in JSON schema"@,
        DriftErrorView::TypeMismatch { ty_name, field, rust_type, schema_type } =>
            "Type '"@ + ty_name + "': Field '"@ + field + "' has type '"@ + rust_type + "' in Rust but '"@
                + schema_type + "' in schema"@,
        DriftErrorView::OptionalityMismatch { ty_name, field, rust_optional, schema_required } =>
            "Type '"@ + ty_name + "': Field '"@ + field + "' is "@
                + (if rust_optional { "optional (Option<T>)"@ } else { "required"@ }) + " in Rust but "@
                + (if schema_required { "required"@ } else { "optional"@ }) + " in schema"@,
        DriftErrorView::TypeNotFound(name) => "Rust type '"@ + name + "' not found in source files"@,
        DriftErrorView::SchemaNotFound(name) => "JSON schema '"@ + name + ".schema.json' not found"@,
        DriftErrorView::ParseError(msg) => "Parse error: "@ + msg,
    }
}

/// The lines of a drift report: a count, a blank line, then one numbered line per error.
pub open spec fn report_lines(errors: Seq<DriftErrorView>) -> Seq<char>
    decreases errors.len(),
{
    if errors.len() == 0 {
        Seq::empty()
    } else {
        report_lines(errors.drop_last()) + decimal(errors.len()) + ". "@ + drift_error_text(errors.last()) + "\n"@
    }
}

/// The views of a sequence of drift errors.
pub open spec fn error_views(errors: Seq<DriftError>) -> Seq<DriftErrorView> {
    errors.map_values(|e: DriftError| e@)
}

/// The text of a whole report.
pub open spec fn drift_report_text(errors: Seq<DriftErrorView>) -> Seq<char> {
    "Found "@ + decimal(errors.len()) + " drift error(s):\n\n"@ + report_lines(errors)
}

impl DriftError {
    /// The sentence that describes this error.
    pub fn message(&self) -> (res: String)
        ensures
            res@ == drift_error_text(self@),
    {
        let mut s = String::new();
        match self {
            DriftError::MissingInRust { ty_name, field } => {
                s.append("Type '");
                s.append(ty_name.as_str());
                s.append("': Field '");
                s.append(field.as_str());
                s.append("' exists in JSON schema but not in Rust struct");
            },
            DriftError::MissingInSchema { ty_name, field } => {
                s.append("Type '");
                s.append(ty_name.as_str());
                s.append("': Field '");
                s.append(field.as_str());
                s.append("' exists in Rust struct but not in JSON schema");
            },
            DriftError::TypeMismatch { ty_name, field, rust_type, schema_type } => {
                s.append("Type '");
                s.append(ty_name.as_str());
                s.append("': Field '");
                s.append(field.as_str());
                s.append("' has type '");
                s.append(rust_type.as_str());
                s.append("' in Rust but '");
                s.append(schema_type.as_str());
                s.append("' in schema");
            },
            DriftError::OptionalityMismatch { ty_name, field, rust_optional, schema_required } => {
                s.append("Type '");
                s.append(ty_name.as_str());
                s.append("': Field '");
                s.append(field.as_str());
                s.append("' is ");
                s.append(if *rust_optional { "optional (Option<T>)" } else { "required" });
                s.append(" in Rust but ");
                s.append(if *schema_required { "required" } else { "optional" });
                s.append(" in schema");
            },
            DriftError::TypeNotFound(name) => {
                s.append("Rust type '");
                s.append(name.as_str());
                s.append("' not found in source files");
            },
            DriftError::SchemaNotFound(name) => {
                s.append("JSON schema '");
                s.append(name.as_str());
                s.append(".schema.json' not found");
            },
            DriftError::ParseError(msg) => {
                s.append("Parse error: ");
                s.append(msg.as_str());
            },
        }
        s
    }
}

impl DriftReport {
    /// The report as text: the number of errors, then each error on its own numbered line.
    pub fn render(&self) -> (res: String)
        requires
            self.errors.len() < usize::MAX,
        ensures
            res@ == drift_report_text(error_views(self.errors@)),
    {
        let mut s = String::new();
        s.append("Found ");
        let n = usize_to_string(self.errors.len());
        s.append(n.as_str());
        s.append(" drift error(s):\n\n");
        let ghost head = s@;
        let mut i: usize = 0;
        while i < self.errors.len()
            invariant
                i <= self.errors.len(),
                self.errors.len() < usize::MAX,
                head == "Found "@ + decimal(self.errors@.len()) + " drift error(s):\n\n"@,
                s@ == head + report_lines(error_views(self.errors@).take(i as int)),
            decreases self.errors.len() - i,
        {
            let k = usize_to_string(i + 1);
            s.append(k.as_str());
            s.append(". ");
            let m = self.errors[i].message();
            s.append(m.as_str());
            s.append("\n");
            proof {
                let v = error_views(self.errors@);
                assert(v.take(i as int + 1).drop_last() =~= v.take(i as int));
                assert(v.take(i as int + 1).last() == self.errors@[i as int]@);
            }
            i = i + 1;
        }
        proof {
            assert(error_views(self.errors@).take(i as int) =~= error_views(self.errors@));
        }
        s
    }
}

/// Information about a single field drift.
#[derive(Debug)]
pub struct FieldDrift {
    pub field_name: String,
    pub drift_type: FieldDriftType,
}

/// The ways one field can drift.
#[derive(Debug)]
pub enum FieldDriftType {
    MissingInRust,
    MissingInSchema,
    TypeMismatch { rust: String, schema: String },
    OptionalityMismatch { rust_optional: bool, schema_required: bool },
}

// ---------------------------------------------------------------------------
// Type compatibility
// ---------------------------------------------------------------------------

/// `ts` with its `null` types left out, in order.
pub open spec fn non_null(ts: Seq<JsonType>) -> Seq<JsonType>
    decreases ts.len(),
{
    if ts.len() == 0 {
        Seq::empty()
    } else {
        let r = non_null(ts.drop_last());
        if ts.last() is Null {
            r
        } else {
            r.push(ts.last())
        }
    }
}

/// Each type kept by `non_null` is one of the given types.
pub proof fn lemma_non_null_from(ts: Seq<JsonType>)
    ensures
        non_null(ts).len() <= ts.len(),
        forall|i: int| 0 <= i < non_null(ts).len() ==> exists|k: int| 0 <= k < ts.len() && ts[k] == #[trigger] non_null(ts)[i],
    decreases ts.len(),
{
    if ts.len() > 0 {
        lemma_non_null_from(ts.drop_last());
        let r = non_null(ts.drop_last());
        assert forall|i: int| 0 <= i < non_null(ts).len() implies exists|k: int| 0 <= k < ts.len() && ts[k] == #[trigger] non_null(ts)[i] by {
            if i < r.len() {
                let k = choose|k: int| 0 <= k < ts.drop_last().len() && ts.drop_last()[k] == r[i];
                assert(ts[k] == non_null(ts)[i]);
            } else {
                assert(ts[ts.len() - 1] == non_null(ts)[i]);
            }
        }
    }
}

/// A Rust type with an `Option<..>` wrapper taken off.
pub open spec fn strip_option(r: Seq<char>) -> Seq<char> {
    if starts_with_spec(r, "Option<"@) {
        r.subrange(7, r.len() - 1)
    } else {
        r
    }
}

/// Whether the wrapper can be taken off: the byte slice that does it needs a
/// character after `Option<` and a one-byte last character.
pub open spec fn option_strip_ok(r: Seq<char>) -> bool {
    starts_with_spec(r, "Option<"@) ==> r.len() >= 8 && (r.last() as u32) < 0x80
}

/// The inputs on which the compatibility check runs to its end.
pub open spec fn compat_defined(r: Seq<char>, t: JsonType) -> bool
    decreases t,
{
    &&& option_strip_ok(r)
    &&& match t {
        JsonType::Union(types) => {
            let nn = non_null(types@);
            if nn.len() == 1 {
                proof {
                    lemma_non_null_from(types@);
                    let k = choose|k: int| 0 <= k < types@.len() && types@[k] == nn[0];
                    assert(decreases_to!(types@ => types@[k]));
                }
                compat_defined(strip_option(r), nn[0])
            } else {
                true
            }
        },
        _ => true,
    }
}

/// Whether the Rust type `r` may stand for the schema type `t` with format `f`.
/// An `Option<..>` wrapper is looked through. Timestamps and UUIDs must be
/// strings of their format (or of none); strings go by their format; integers
/// take any `i..`/`u..` type, numbers also `f..` and `NormalizedFloat`; objects
/// take maps, JSON values, configurations and metadata; a union with one
/// non-null member is that member, any other union is accepted; a reference
/// matches by case-blind containment of names, or as an id or a timestamp.
pub open spec fn type_compatible(r: Seq<char>, t: JsonType, f: Option<Seq<char>>) -> bool
    decreases t,
{
    let i = strip_option(r);
    if i == "Timestamp"@ || i == "DateTime<Utc>"@ {
        t is String && (f == Some("date-time"@) || f is None)
    } else if i == "UUID"@ || i == "Uuid"@ {
        t is String && (f == Some("uuid"@) || f is None)
    } else {
        match t {
            JsonType::String => if f == Some("uuid"@) {
                contains_seq_spec(i, "Uuid"@) || i == "String"@ || i == "UUID"@
            } else if f == Some("date-time"@) {
                contains_seq_spec(i, "DateTime"@) || contains_seq_spec(i, "NaiveDateTime"@) || i == "Timestamp"@
            } else {
                i == "String"@ || i == "str"@ || i == "Timestamp"@ || i == "UUID"@
            },
            JsonType::Integer => starts_with_spec(i, "i"@) || starts_with_spec(i, "u"@) || i == "isize"@
                || i == "usize"@,
            JsonType::Number => starts_with_spec(i, "f"@) || i == "f32"@ || i == "f64"@ || starts_with_spec(i, "i"@)
                || starts_with_spec(i, "u"@) || i == "NormalizedFloat"@,
            JsonType::Boolean => i == "bool"@,
            JsonType::Array => starts_with_spec(i, "Vec<"@) || starts_with_spec(i, "["@),
            JsonType::Object => starts_with_spec(i, "HashMap"@) || starts_with_spec(i, "BTreeMap"@)
                || starts_with_spec(i, "serde_json::Value"@) || i == "Value"@ || contains_seq_spec(i, "Config"@)
                || i == "Metadata"@,
            JsonType::Null => i == "()"@ || starts_with_spec(r, "Option<"@),
            JsonType::Union(types) => {
                let nn = non_null(types@);
                if nn.len() == 1 {
                    proof {
                        lemma_non_null_from(types@);
                        let k = choose|k: int| 0 <= k < types@.len() && types@[k] == nn[0];
                        assert(decreases_to!(types@ => types@[k]));
                    }
                    type_compatible(i, nn[0], f)
                } else {
                    true
                }
            },
            JsonType::Ref(name) => {
                let lr = lowercase(i);
                let lf = lowercase(name@);
                ||| contains_seq_spec(lr, lf)
                ||| contains_seq_spec(lf, lr)
                ||| (lf == "uuid"@ || lf == "id"@) && (lr == "uuid"@ || ends_with_spec(lr, "id"@) || lr == "u_u_i_d"@)
                ||| (contains_seq_spec(lf, "timestamp"@) || contains_seq_spec(lf, "datetime"@)) && (
                contains_seq_spec(lr, "timestamp"@) || contains_seq_spec(lr, "datetime"@))
            },
        }
    }
}

/// Whether an optional format is `lit`.
fn format_is(format: &Option<String>, lit: &str) -> (res: bool)
    ensures
        res == (opt_view(*format) == Some(lit@)),
{
    match format {
        Some(f) => {
            let v = chars_of(f.as_str());
            chars_is(&v, lit)
        },
        None => false,
    }
}

/// The positions of the non-null types, in order.
fn non_null_positions(types: &Vec<JsonType>) -> (res: Vec<usize>)
    ensures
        res@.len() == non_null(types@).len(),
        forall|m: int| 0 <= m < res@.len() ==> (#[trigger] res@[m]) < types@.len() && types@[res@[m] as int] == non_null(types@)[m],
{
    let mut out: Vec<usize> = Vec::new();
    let mut i: usize = 0;
    while i < types.len()
        invariant
            i <= types.len(),
            out@.len() == non_null(types@.take(i as int)).len(),
            forall|m: int| 0 <= m < out@.len() ==> (#[trigger] out@[m]) < i && types@[out@[m] as int] == non_null(types@.take(i as int))[m],
        decreases types.len() - i,
    {
        proof {
            assert(types@.take(i as int + 1).drop_last() =~= types@.take(i as int));
        }
        match &types[i] {
            JsonType::Null => {},
            _ => {
                out.push(i);
            },
        }
        i = i + 1;
    }
    proof {
        assert(types@.take(types@.len() as int) =~= types@);
    }
    out
}

/// A `bool` field, optional or not, matches a schema `boolean`, whatever the
/// format; a `String` field never does.
pub proof fn law_bool_matches_boolean(f: Option<Seq<char>>)
    ensures
        type_compatible("bool"@, JsonType::Boolean, f),
        type_compatible("Option<bool>"@, JsonType::Boolean, f),
        !type_compatible("String"@, JsonType::Boolean, f),
{
    reveal_strlit("bool");
    reveal_strlit("Option<bool>");
    reveal_strlit("Option<");
    reveal_strlit("String");
    reveal_strlit("Timestamp");
    reveal_strlit("DateTime<Utc>");
    reveal_strlit("UUID");
    reveal_strlit("Uuid");
    let b = "bool"@;
    let ob = "Option<bool>"@;
    assert(!starts_with_spec(b, "Option<"@));
    assert(starts_with_spec(ob, "Option<"@)) by {
        assert(ob.take(7) =~= "Option<"@);
    }
    assert(strip_option(ob) =~= b);
    assert(b != "UUID"@ && b != "Uuid"@) by {
        assert(b[0] != "UUID"@[0]);
        assert(b[0] != "Uuid"@[0]);
    }
    assert(!starts_with_spec("String"@, "Option<"@)) by {
        assert("String"@[0] != "Option<"@[0]);
    }
    assert("String"@ != b);
}

/// Whether the Rust type `rust_type` may stand for `json_type` with `format`.
pub fn is_type_compatible(rust_type: &str, json_type: &JsonType, format: &Option<String>) -> (res: bool)
    requires
        compat_defined(rust_type@, *json_type),
    ensures
        res == type_compatible(rust_type@, *json_type, opt_view(*format)),
    decreases json_type,
{
    let r = chars_of(rust_type);
    let inner: Vec<char> = if chars_start(&r, "Option<") {
        proof {
            reveal_strlit("Option<");
        }
        sub_chars(&r, 7, r.len() - 1)
    } else {
        sub_chars(&r, 0, r.len())
    };
    proof {
        assert(r@.subrange(0, r@.len() as int) =~= r@);
    }
    assert(inner@ == strip_option(rust_type@));
    if chars_is(&inner, "Timestamp") || chars_is(&inner, "DateTime<Utc>") {
        let is_string = match json_type {
            JsonType::String => true,
            _ => false,
        };
        return is_string && (format_is(format, "date-time") || format.is_none());
    }
    if chars_is(&inner, "UUID") || chars_is(&inner, "Uuid") {
        let is_string = match json_type {
            JsonType::String => true,
            _ => false,
        };
        return is_string && (format_is(format, "uuid") || format.is_none());
    }
    match json_type {
        JsonType::String => {
            if format_is(format, "uuid") {
                chars_have(&inner, "Uuid") || chars_is(&inner, "String") || chars_is(&inner, "UUID")
            } else if format_is(format, "date-time") {
                chars_have(&inner, "DateTime") || chars_have(&inner, "NaiveDateTime") || chars_is(&inner, "Timestamp")
            } else {
                chars_is(&inner, "String") || chars_is(&inner, "str") || chars_is(&inner, "Timestamp")
                    || chars_is(&inner, "UUID")
            }
        },
        JsonType::Integer => chars_start(&inner, "i") || chars_start(&inner, "u") || chars_is(&inner, "isize")
            || chars_is(&inner, "usize"),
        JsonType::Number => chars_start(&inner, "f") || chars_is(&inner, "f32") || chars_is(&inner, "f64")
            || chars_start(&inner, "i") || chars_start(&inner, "u") || chars_is(&inner, "NormalizedFloat"),
        JsonType::Boolean => chars_is(&inner, "bool"),
        JsonType::Array => chars_start(&inner, "Vec<") || chars_start(&inner, "["),
        JsonType::Object => chars_start(&inner, "HashMap") || chars_start(&inner, "BTreeMap") || chars_start(
            &inner,
            "serde_json::Value",
        ) || chars_is(&inner, "Value") || chars_have(&inner, "Config") || chars_is(&inner, "Metadata"),
        JsonType::Null => chars_is(&inner, "()") || chars_start(&r, "Option<"),
        JsonType::Union(types) => {
            let pos = non_null_positions(types);
            if pos.len() == 1 {
                let k = pos[0];
                let s = crate::text::string_from_chars(&inner);
                proof {
                    assert(decreases_to!(types@ => types@[k as int]));
                }
                is_type_compatible(s.as_str(), &types[k], format)
            } else {
                true
            }
        },
        JsonType::Ref(name) => {
            let lr = lowercase_chars(&inner);
            let nv = chars_of(name.as_str());
            let lf = lowercase_chars(&nv);
            if crate::text::contains_seq(&lr, &lf) || crate::text::contains_seq(&lf, &lr) {
                return true;
            }
            ((chars_is(&lf, "uuid") || chars_is(&lf, "id")) && (chars_is(&lr, "uuid") || chars_end(&lr, "id")
                || chars_is(&lr, "u_u_i_d"))) || ((chars_have(&lf, "timestamp") || chars_have(&lf, "datetime")) && (
            chars_have(&lr, "timestamp") || chars_have(&lr, "datetime")))
        },
    }
}

// ---------------------------------------------------------------------------
// Display of schema types
// ---------------------------------------------------------------------------

/// How a schema type is shown: its keyword, the members of a union joined by
/// `" | "`, or `$ref:` and the name of a reference.
pub open spec fn json_type_text(t: JsonType) -> Seq<char>
    decreases t,
{
    match t {
        JsonType::String => "string"@,
        JsonType::Integer => "integer"@,
        JsonType::Number => "number"@,
        JsonType::Boolean => "boolean"@,
        JsonType::Array => "array"@,
        JsonType::Object => "object"@,
        JsonType::Null => "null"@,
        JsonType::Union(types) => {
            proof {
                assert(decreases_to!(types => types@));
            }
            types_text(types@)
        },
        JsonType::Ref(name) => "$ref:"@ + name@,
    }
}

/// The types of a union shown one after the other, separated by `" | "`.
pub open spec fn types_text(ts: Seq<JsonType>) -> Seq<char>
    decreases ts,
{
    if ts.len() == 0 {
        Seq::empty()
    } else if ts.len() == 1 {
        json_type_text(ts[0])
    } else {
        proof {
            assert(decreases_to!(ts => ts[ts.len() - 1]));
            assert(decreases_to!(ts => ts.subrange(0, ts.len() - 1)));
        }
        types_text(ts.drop_last()) + " | "@ + json_type_text(ts.last())
    }
}

/// A schema type shown with its format, if any, in parentheses.
pub open spec fn format_json_type_text(t: JsonType, f: Option<Seq<char>>) -> Seq<char> {
    match f {
        Some(x) => json_type_text(t) + "("@ + x + ")"@,
        None => json_type_text(t),
    }
}

/// A schema type shown with its format, if any, in parentheses.
pub fn format_json_type(json_type: &JsonType, format: &Option<String>) -> (res: String)
    ensures
        res@ == format_json_type_text(*json_type, opt_view(*format)),
    decreases json_type,
{
    let mut base: String = match json_type {
        JsonType::String => owned("string"),
        JsonType::Integer => owned("integer"),
        JsonType::Number => owned("number"),
        JsonType::Boolean => owned("boolean"),
        JsonType::Array => owned("array"),
        JsonType::Object => owned("object"),
        JsonType::Null => owned("null"),
        JsonType::Union(types) => {
            let mut out = String::new();
            let mut i: usize = 0;
            while i < types.len()
                invariant
                    i <= types.len(),
                    *json_type is Union,
                    json_type->Union_0 == *types,
                    out@ == types_text(types@.take(i as int)),
                decreases types.len() - i,
            {
                proof {
                    assert(decreases_to!(*json_type => json_type->Union_0));
                    assert(decreases_to!(*types => types@));
                    assert(decreases_to!(types@ => types@[i as int]));
                }
                let part = format_json_type(&types[i], &None);
                if i > 0 {
                    out.append(" | ");
                }
                out.append(part.as_str());
                proof {
                    let t = types@.take(i as int + 1);
                    assert(t.drop_last() =~= types@.take(i as int));
                    assert(t.last() == types@[i as int]);
                    if i == 0 {
                        assert(types@.take(0) =~= Seq::<JsonType>::empty());
                        assert(out@ =~= types_text(t));
                    }
                }
                i = i + 1;
            }
            proof {
                assert(types@.take(types@.len() as int) =~= types@);
            }
            out
        },
        JsonType::Ref(name) => {
            let mut out = owned("$ref:");
            out.append(name.as_str());
            out
        },
    };
    match format {
        Some(f) => {
            base.append("(");
            base.append(f.as_str());
            base.append(")");
            base
        },
        None => base,
    }
}

// ---------------------------------------------------------------------------
// Comparing a struct with its schema
// ---------------------------------------------------------------------------

/// The first field (in order) that the schema does not have.
pub open spec fn first_missing(fields: Seq<(String, RustFieldInfo)>, props: Seq<(String, JsonPropertyInfo)>) -> Option<Seq<char>>
    decreases fields.len(),
{
    if fields.len() == 0 {
        None
    } else if assoc(props, fields[0].0@) is None {
        Some(fields[0].0@)
    } else {
        first_missing(fields.drop_first(), props)
    }
}

/// The first field (in order) whose optionality or type disagrees with the schema:
/// an optional field that the schema requires, or a type that does not fit.
pub open spec fn first_mismatch(tn: Seq<char>, fields: Seq<(String, RustFieldInfo)>, schema: JsonSchemaInfo) -> Option<DriftErrorView>
    decreases fields.len(),
{
    if fields.len() == 0 {
        None
    } else {
        let name = fields[0].0@;
        let info = fields[0].1;
        match assoc(schema.properties@, name) {
            None => first_mismatch(tn, fields.drop_first(), schema),
            Some(p) => if info.is_optional && has_string(schema.required@, name) {
                Some(DriftErrorView::OptionalityMismatch { ty_name: tn, field: name, rust_optional: true, schema_required: true })
            } else if !type_compatible(info.type_string@, p.json_type, opt_view(p.format)) {
                Some(DriftErrorView::TypeMismatch {
                    ty_name: tn,
                    field: name,
                    rust_type: info.type_string@,
                    schema_type: format_json_type_text(p.json_type, opt_view(p.format)),
                })
            } else {
                first_mismatch(tn, fields.drop_first(), schema)
            },
        }
    }
}

/// The fields whose types the comparison checks can be checked to the end.
pub open spec fn mismatch_defined(fields: Seq<(String, RustFieldInfo)>, schema: JsonSchemaInfo) -> bool
    decreases fields.len(),
{
    if fields.len() == 0 {
        true
    } else {
        let name = fields[0].0@;
        let info = fields[0].1;
        match assoc(schema.properties@, name) {
            None => mismatch_defined(fields.drop_first(), schema),
            Some(p) => if info.is_optional && has_string(schema.required@, name) {
                true
            } else {
                &&& compat_defined(info.type_string@, p.json_type)
                &&& type_compatible(info.type_string@, p.json_type, opt_view(p.format)) ==> mismatch_defined(fields.drop_first(), schema)
            },
        }
    }
}

/// The drift between a struct and its schema, if any: a field the schema lacks;
/// otherwise, unless the struct flattens other types into itself, the first
/// optionality or type mismatch.
pub open spec fn drift_between(tn: Seq<char>, rust: RustTypeInfo, schema: JsonSchemaInfo) -> Option<DriftErrorView> {
    match first_missing(rust.fields@, schema.properties@) {
        Some(f) => Some(DriftErrorView::MissingInSchema { ty_name: tn, field: f }),
        None => if rust.has_flattened {
            None
        } else {
            first_mismatch(tn, rust.fields@, schema)
        },
    }
}

/// The inputs on which the comparison runs to its end.
pub open spec fn compare_defined(rust: RustTypeInfo, schema: JsonSchemaInfo) -> bool {
    first_missing(rust.fields@, schema.properties@) is None && !rust.has_flattened ==> mismatch_defined(
        rust.fields@,
        schema,
    )
}

/// Fails on the first field of the struct that the schema lacks.
pub fn check_non_flattened_fields(ty_name: &str, rust_info: &RustTypeInfo, schema_info: &JsonSchemaInfo) -> (res: Result<(), DriftError>)
    ensures
        match first_missing(rust_info.fields@, schema_info.properties@) {
            Some(f) => res is Err && res->Err_0@ == DriftErrorView::MissingInSchema { ty_name: ty_name@, field: f },
            None => res is Ok,
        },
{
    let fields = &rust_info.fields;
    let mut i: usize = 0;
    assert(fields@.skip(0) =~= fields@);
    while i < fields.len()
        invariant
            i <= fields.len(),
            fields@ == rust_info.fields@,
            first_missing(fields@, schema_info.properties@) == first_missing(fields@.skip(i as int), schema_info.properties@),
        decreases fields.len() - i,
    {
        proof {
            assert(fields@.skip(i as int)[0] == fields@[i as int]);
            assert(fields@.skip(i as int).drop_first() =~= fields@.skip(i as int + 1));
        }
        if !crate::assoc::assoc_contains(&schema_info.properties, fields[i].0.as_str()) {
            return Err(DriftError::MissingInSchema { ty_name: owned(ty_name), field: fields[i].0.clone() });
        }
        i = i + 1;
    }
    Ok(())
}

/// Compares a struct with its schema; the error is the drift found, if any.
pub fn compare_types(ty_name: &str, rust_info: &RustTypeInfo, schema_info: &JsonSchemaInfo) -> (res: Result<(), DriftError>)
    requires
        compare_defined(*rust_info, *schema_info),
    ensures
        match drift_between(ty_name@, *rust_info, *schema_info) {
            Some(e) => res is Err && res->Err_0@ == e,
            None => res is Ok,
        },
{
    match check_non_flattened_fields(ty_name, rust_info, schema_info) {
        Err(e) => return Err(e),
        Ok(()) => {},
    }
    if rust_info.has_flattened {
        return Ok(());
    }
    let fields = &rust_info.fields;
    let mut i: usize = 0;
    assert(fields@.skip(0) =~= fields@);
    while i < fields.len()
        invariant
            i <= fields.len(),
            fields@ == rust_info.fields@,
            first_missing(rust_info.fields@, schema_info.properties@) is None,
            !rust_info.has_flattened,
            first_mismatch(ty_name@, fields@, *schema_info) == first_mismatch(ty_name@, fields@.skip(i as int), *schema_info),
            mismatch_defined(fields@.skip(i as int), *schema_info),
        decreases fields.len() - i,
    {
        proof {
            assert(fields@.skip(i as int)[0] == fields@[i as int]);
            assert(fields@.skip(i as int).drop_first() =~= fields@.skip(i as int + 1));
        }
        let name = fields[i].0.as_str();
        let info = &fields[i].1;
        match assoc_index(&schema_info.properties, name) {
            None => {},
            Some(k) => {
                let prop = &schema_info.properties[k].1;
                let schema_required = strings_contain(&schema_info.required, name);
                if info.is_optional && schema_required {
                    return Err(
                        DriftError::OptionalityMismatch {
                            ty_name: owned(ty_name),
                            field: fields[i].0.clone(),
                            rust_optional: true,
                            schema_required: true,
                        },
                    );
                }
                if !is_type_compatible(info.type_string.as_str(), &prop.json_type, &prop.format) {
                    return Err(
                        DriftError::TypeMismatch {
                            ty_name: owned(ty_name),
                            field: fields[i].0.clone(),
                            rust_type: info.type_string.clone(),
                            schema_type: format_json_type(&prop.json_type, &prop.format),
                        },
                    );
                }
            },
        }
        i = i + 1;
    }
    proof {
        assert(fields@.skip(i as int) =~= Seq::<(String, RustFieldInfo)>::empty());
    }
    Ok(())
}


/// Whether the compatibility check of `rust_type` against `json_type` runs
/// to its end (see `compat_defined`).
pub fn compat_is_defined(rust_type: &str, json_type: &JsonType) -> (res: bool)
    ensures
        res == compat_defined(rust_type@, *json_type),
    decreases json_type,
{
    let r = chars_of(rust_type);
    proof {
        reveal_strlit("Option<");
    }
    let starts = chars_start(&r, "Option<");
    if starts && !(r.len() >= 8 && (r[r.len() - 1] as u32) < 0x80) {
        return false;
    }
    match json_type {
        JsonType::Union(types) => {
            let pos = non_null_positions(types);
            if pos.len() == 1 {
                let k = pos[0];
                let inner: Vec<char> = if starts { sub_chars(&r, 7, r.len() - 1) } else { sub_chars(&r, 0, r.len()) };
                proof {
                    assert(r@.subrange(0, r@.len() as int) =~= r@);
                    assert(decreases_to!(types@ => types@[k as int]));
                }
                assert(inner@ == strip_option(rust_type@));
                let s = crate::text::string_from_chars(&inner);
                compat_is_defined(s.as_str(), &types[k])
            } else {
                true
            }
        },
        _ => true,
    }
}

/// Whether comparing `rust_info` with `schema_info` runs to its end (see
/// `compare_defined`): `compare_types` may be called exactly when it holds.
pub fn compare_is_defined(rust_info: &RustTypeInfo, schema_info: &JsonSchemaInfo) -> (res: bool)
    ensures
        res == compare_defined(*rust_info, *schema_info),
{
    match check_non_flattened_fields("", rust_info, schema_info) {
        Err(_) => return true,
        Ok(()) => {},
    }
    if rust_info.has_flattened {
        return true;
    }
    let fields = &rust_info.fields;
    let mut i: usize = 0;
    assert(fields@.skip(0) =~= fields@);
    while i < fields.len()
        invariant
            i <= fields.len(),
            fields@ == rust_info.fields@,
            first_missing(rust_info.fields@, schema_info.properties@) is None,
            !rust_info.has_flattened,
            mismatch_defined(fields@, *schema_info) == mismatch_defined(fields@.skip(i as int), *schema_info),
        decreases fields.len() - i,
    {
        proof {
            assert(fields@.skip(i as int)[0] == fields@[i as int]);
            assert(fields@.skip(i as int).drop_first() =~= fields@.skip(i as int + 1));
        }
        let name = fields[i].0.as_str();
        let info = &fields[i].1;
        match assoc_index(&schema_info.properties, name) {
            None => {},
            Some(k) => {
                let prop = &schema_info.properties[k].1;
                if info.is_optional && strings_contain(&schema_info.required, name) {
                    return true;
                }
                if !compat_is_defined(info.type_string.as_str(), &prop.json_type) {
                    return false;
                }
                if !is_type_compatible(info.type_string.as_str(), &prop.json_type, &prop.format) {
                    return true;
                }
            },
        }
        i = i + 1;
    }
    proof {
        assert(fields@.skip(i as int) =~= Seq::<(String, RustFieldInfo)>::empty());
    }
    true
}

} // verus!
