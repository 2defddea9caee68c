//! The schema registry's dependency graph: schemas keyed by `$id`, the typed
//! references between them, the code generated from them, and the queries an
//! agent makes of it.

use vstd::prelude::*;
use crate::json::{Json, json_get, json_str, member};
use crate::schemas::refs::{dir_parts, keep_parts, resolve_parts, walk_path};
use crate::text::{chars_of, chars_start, concat2, join, owned, split_chars, split_on, starts_with_spec, views_of};

verus! {

/// A node of the registry graph: a schema, or a type generated from one.
#[derive(Debug, Clone, PartialEq, Eq)]
pub enum NodeId {
    /// A schema, by `$id`.
    Schema(String),
    /// A generated type, by language and type name.
    Artifact { lang: String, ty_name: String },
}

impl NodeId {
    /// The node of the schema `id`.
    pub fn schema(id: String) -> (n: NodeId)
        ensures
            n matches NodeId::Schema(s) && s@ == id@,
    {
        NodeId::Schema(id)
    }

    /// The node of the type `ty_name` generated in `lang`.
    pub fn artifact(lang: String, ty_name: String) -> (n: NodeId)
        ensures
            n matches NodeId::Artifact { lang: l, ty_name: t } && l@ == lang@ && t@ == ty_name@,
    {
        NodeId::Artifact { lang, ty_name }
    }

    /// The schema id, for a schema node.
    pub fn as_schema(&self) -> (r: Option<&str>)
        ensures
            match *self {
                NodeId::Schema(s) => r matches Some(x) && x@ == s@,
                _ => r is None,
            },
    {
        match self {
            NodeId::Schema(id) => Some(id.as_str()),
            _ => None,
        }
    }

    /// The language and type name, for an artifact node.
    pub fn as_artifact(&self) -> (r: Option<(&str, &str)>)
        ensures
            match *self {
                NodeId::Artifact { lang, ty_name } => r matches Some(x) && x.0@ == lang@ && x.1@ == ty_name@,
                _ => r is None,
            },
    {
        match self {
            NodeId::Artifact { lang, ty_name } => Some((lang.as_str(), ty_name.as_str())),
            _ => None,
        }
    }

    /// `schema:<id>` or `artifact:<lang>:<type>`.
    pub fn to_string(&self) -> (s: String)
        ensures
            s@ == match *self {
                NodeId::Schema(id) => "schema:"@ + id@,
                NodeId::Artifact { lang, ty_name } => "artifact:"@ + lang@ + ":"@ + ty_name@,
            },
    {
        match self {
            NodeId::Schema(id) => concat2("schema:", id.as_str()),
            NodeId::Artifact { lang, ty_name } => {
                let mut s = concat2("artifact:", lang.as_str());
                s.append(":");
                s.append(ty_name.as_str());
                s
            },
        }
    }
}

/// The kinds of edge between registry nodes.
#[derive(Debug, Clone, Copy, PartialEq, Eq, Hash, Structural)]
pub enum EdgeKind {
    /// A plain `$ref`.
    Ref,
    /// An `allOf` part.
    AllOf,
    /// A `oneOf` variant.
    OneOf,
    /// An `anyOf` option.
    AnyOf,
    /// The element type of an array.
    Items,
    /// The value type of a map.
    AdditionalProperties,
    /// The type of a property.
    Property,
    /// A schema generates an artifact.
    GeneratesTo,
    /// An artifact depends on a schema.
    DependsOn,
}

/// Where a type was generated from a schema.
#[derive(Debug, Clone)]
pub struct GeneratedArtifact {
    /// `lang:ty_name`, or empty when not yet assigned.
    pub id: String,
    /// `rust`, `typescript` or `python`.
    pub lang: String,
    /// The file, relative to the workspace root.
    pub file: String,
    /// The line where the definition starts, from 1.
    pub line: u32,
    pub ty_name: String,
    /// `struct`, `enum`, `newtype` or `type_alias`.
    pub type_kind: String,
}

/// The identifier of the artifact `ty_name` in `lang`.
pub open spec fn artifact_key(lang: Seq<char>, ty_name: Seq<char>) -> Seq<char> {
    lang + ":"@ + ty_name
}

impl GeneratedArtifact {
    /// The identifier of the artifact `ty_name` in `lang`: `lang:ty_name`.
    pub fn make_id(lang: &str, ty_name: &str) -> (id: String)
        ensures
            id@ == artifact_key(lang@, ty_name@),
    {
        let mut s = concat2(lang, ":");
        s.append(ty_name);
        s
    }

    /// A copy of the artifact.
    pub fn copy(&self) -> (r: GeneratedArtifact)
        ensures
            r == *self,
    {
        GeneratedArtifact {
            id: self.id.clone(),
            lang: self.lang.clone(),
            file: self.file.clone(),
            line: self.line,
            ty_name: self.ty_name.clone(),
            type_kind: self.type_kind.clone(),
        }
    }

    /// The artifact's identifier: the one assigned, or else made from its
    /// language and type name.
    pub fn artifact_id(&self) -> (id: String)
        ensures
            id@ == (if self.id@.len() == 0 { artifact_key(self.lang@, self.ty_name@) } else { self.id@ }),
    {
        if self.id.as_str().is_empty() {
            GeneratedArtifact::make_id(self.lang.as_str(), self.ty_name.as_str())
        } else {
            self.id.clone()
        }
    }
}

/// Code generation settings read from a schema's `x-familiar-*` extensions.
#[derive(Debug, Clone)]
pub struct CodegenMeta {
    pub enum_repr: Option<String>,
    pub discriminator: Option<String>,
    pub content: Option<String>,
    pub casing: Option<String>,
    pub flatten: Option<bool>,
    pub skip_none: Option<bool>,
    pub newtype: Option<bool>,
    /// The artifacts generated from the schema.
    pub artifacts: Vec<GeneratedArtifact>,
}

impl Default for CodegenMeta {
    /// No settings and no artifacts.
    fn default() -> (m: CodegenMeta)
        ensures
            m.enum_repr is None,
            m.discriminator is None,
            m.content is None,
            m.casing is None,
            m.flatten is None,
            m.skip_none is None,
            m.newtype is None,
            m.artifacts@.len() == 0,
    {
        CodegenMeta {
            enum_repr: None,
            discriminator: None,
            content: None,
            casing: None,
            flatten: None,
            skip_none: None,
            newtype: None,
            artifacts: Vec::new(),
        }
    }
}

/// A property of a schema and its type.
#[derive(Debug, Clone)]
pub struct FieldRef {
    pub name: String,
    /// The schema of the property's type, when it is a `$ref`.
    pub ty_ref: Option<String>,
    /// The JSON type of the property, when it is not a `$ref`.
    pub inline_kind: Option<String>,
    pub required: Option<bool>,
}

/// A schema in the registry.
#[derive(Debug, Clone)]
pub struct SchemaNode {
    /// The `$id`.
    pub id: String,
    /// The file, relative to the schema root.
    pub path: String,
    pub title: Option<String>,
    /// `x-familiar-kind`.
    pub kind: Option<String>,
    /// `x-familiar-service`.
    pub service: Option<String>,
    pub fields: Vec<FieldRef>,
    pub codegen: Option<CodegenMeta>,
    /// The node's index in the graph.
    pub node_idx: Option<usize>,
}

/// A node reached by a closure query.
#[derive(Debug, Clone)]
pub struct ClosureNode {
    pub id: String,
    /// The number of edges followed to reach it.
    pub depth: usize,
    /// Whether the node is part of a reference cycle.
    pub scc_boundary: bool,
}

/// A schema matched by a search.
#[derive(Debug, Clone)]
pub struct SearchResult {
    pub id: String,
    pub title: Option<String>,
    pub kind: Option<String>,
    pub path: String,
    /// The match score; higher is better.
    pub score: i64,
}

/// A finding of the union lint.
#[derive(Debug, Clone)]
pub struct LintWarning {
    pub code: String,
    pub message: String,
    /// `warning` or `info`.
    pub severity: String,
}

// ---------------------------------------------------------------------------
// Reading a schema
// ---------------------------------------------------------------------------

/// The text of an optional string.
pub open spec fn opt_view(o: Option<String>) -> Option<Seq<char>> {
    match o {
        Some(s) => Some(s@),
        None => None,
    }
}

/// The value of a boolean.
pub open spec fn json_bool(v: Option<Json>) -> Option<bool> {
    match v {
        Some(Json::Bool(b)) => Some(b),
        _ => None,
    }
}

/// Whether a schema sets any code generation extension.
pub open spec fn has_codegen(j: Json) -> bool {
    ||| json_str(json_get(j, "x-familiar-enum-repr"@)) is Some
    ||| json_str(json_get(j, "x-familiar-discriminator"@)) is Some
    ||| json_str(json_get(j, "x-familiar-content"@)) is Some
    ||| json_str(json_get(j, "x-familiar-casing"@)) is Some
    ||| json_bool(json_get(j, "x-familiar-flatten"@)) is Some
    ||| json_bool(json_get(j, "x-familiar-skip-none"@)) is Some
    ||| json_bool(json_get(j, "x-familiar-newtype"@)) is Some
}

/// The code generation settings of a schema, read from its extensions.
pub open spec fn codegen_matches(m: CodegenMeta, j: Json) -> bool {
    &&& opt_view(m.enum_repr) == json_str(json_get(j, "x-familiar-enum-repr"@))
    &&& opt_view(m.discriminator) == json_str(json_get(j, "x-familiar-discriminator"@))
    &&& opt_view(m.content) == json_str(json_get(j, "x-familiar-content"@))
    &&& opt_view(m.casing) == json_str(json_get(j, "x-familiar-casing"@))
    &&& m.flatten == json_bool(json_get(j, "x-familiar-flatten"@))
    &&& m.skip_none == json_bool(json_get(j, "x-familiar-skip-none"@))
    &&& m.newtype == json_bool(json_get(j, "x-familiar-newtype"@))
    &&& m.artifacts@.len() == 0
}

fn get_bool(j: &Json, key: &str) -> (r: Option<bool>)
    ensures
        r == json_bool(json_get(*j, key@)),
{
    match j.get(key) {
        Some(Json::Bool(b)) => Some(*b),
        _ => None,
    }
}

/// The code generation settings of a schema; `None` when it sets none.
pub fn extract_codegen(json: &Json) -> (res: Option<CodegenMeta>)
    ensures
        match res {
            Some(m) => has_codegen(*json) && codegen_matches(m, *json),
            None => !has_codegen(*json),
        },
{
    let mut meta = CodegenMeta::default();
    meta.enum_repr = crate::json::get_str(json, "x-familiar-enum-repr");
    meta.discriminator = crate::json::get_str(json, "x-familiar-discriminator");
    meta.content = crate::json::get_str(json, "x-familiar-content");
    meta.casing = crate::json::get_str(json, "x-familiar-casing");
    meta.flatten = get_bool(json, "x-familiar-flatten");
    meta.skip_none = get_bool(json, "x-familiar-skip-none");
    meta.newtype = get_bool(json, "x-familiar-newtype");
    let has_any = meta.enum_repr.is_some() || meta.discriminator.is_some() || meta.content.is_some()
        || meta.casing.is_some() || meta.flatten.is_some() || meta.skip_none.is_some() || meta.newtype.is_some();
    if has_any {
        Some(meta)
    } else {
        None
    }
}

/// Where a `$ref` written in the schema at `current` points: a reference
/// within the file or an absolute URL as written; an absolute path with `..`
/// resolved; any other path resolved from `current`'s directory.
pub open spec fn registry_ref(current: Seq<char>, r: Seq<char>) -> Seq<char> {
    if starts_with_spec(r, "#"@) || starts_with_spec(r, "http://"@) || starts_with_spec(r, "https://"@) {
        r
    } else if starts_with_spec(r, "/"@) {
        join(resolve_parts(Seq::empty(), split_on(r, '/')), "/"@)
    } else {
        join(resolve_parts(Seq::empty(), dir_parts(current) + split_on(r, '/')), "/"@)
    }
}

/// Where a `$ref` written in the schema at `current_path` points.
pub fn normalize_ref(ref_str: &str, current_path: &str) -> (res: String)
    ensures
        res@ == registry_ref(current_path@, ref_str@),
{
    let r = chars_of(ref_str);
    if chars_start(&r, "#") || chars_start(&r, "http://") || chars_start(&r, "https://") {
        return owned(ref_str);
    }
    let ref_parts = split_chars(&r, '/');
    if chars_start(&r, "/") {
        let none: Vec<Vec<char>> = Vec::new();
        proof {
            assert(views_of(none@) + views_of(ref_parts@) =~= views_of(ref_parts@));
        }
        return walk_path(&none, &ref_parts);
    }
    let cur = chars_of(current_path);
    let cur_parts = split_chars(&cur, '/');
    let mut dir = keep_parts(&cur_parts);
    if dir.len() > 0 {
        dir.pop();
    }
    proof {
        assert(views_of(dir@) == dir_parts(current_path@));
    }
    walk_path(&dir, &ref_parts)
}

/// Whether `name` is one of the strings of `required`.
pub open spec fn names_required(required: Option<Json>, name: Seq<char>) -> bool {
    match required {
        Some(Json::Array(a)) => exists|i: int| 0 <= i < a@.len() && (#[trigger] a@[i]) is Str && a@[i]->Str_0@ == name,
        _ => false,
    }
}

/// A field as plain values: name, type reference, inline kind, requiredness.
pub open spec fn field_view(f: FieldRef) -> (Seq<char>, Option<Seq<char>>, Option<Seq<char>>, Option<bool>) {
    (f.name@, opt_view(f.ty_ref), opt_view(f.inline_kind), f.required)
}

/// The field a property makes, in the schema `j` at `current`.
pub open spec fn property_field(j: Json, p: (String, Json), current: Seq<char>) -> (Seq<char>, Option<Seq<char>>, Option<Seq<char>>, Option<bool>) {
    let r = json_str(json_get(p.1, "$ref"@));
    (
        p.0@,
        match r {
            Some(s) => Some(registry_ref(current, s)),
            None => None,
        },
        if r is None { json_str(json_get(p.1, "type"@)) } else { None },
        Some(names_required(json_get(j, "required"@), p.0@)),
    )
}

/// The fields of the schema `j` at `current`, one for each of its properties, in order.
pub open spec fn schema_fields(j: Json, current: Seq<char>) -> Seq<(Seq<char>, Option<Seq<char>>, Option<Seq<char>>, Option<bool>)> {
    match json_get(j, "properties"@) {
        Some(Json::Object(ps)) => ps@.map_values(|p: (String, Json)| property_field(j, p, current)),
        _ => Seq::empty(),
    }
}

fn is_required(required: Option<&Json>, name: &str) -> (res: bool)
    ensures
        res == names_required(
            match required {
                Some(r) => Some(*r),
                None => None,
            },
            name@,
        ),
{
    match required {
        Some(Json::Array(a)) => {
            let mut i: usize = 0;
            while i < a.len()
                invariant
                    i <= a.len(),
                    required matches Some(r) && *r == Json::Array(*a),
                    forall|k: int| 0 <= k < i ==> !((#[trigger] a@[k]) is Str && a@[k]->Str_0@ == name@),
                decreases a.len() - i,
            {
                if let Json::Str(s) = &a[i] {
                    if crate::text::str_eq(s.as_str(), name) {
                        proof {
                            assert(a@[i as int] is Str && a@[i as int]->Str_0@ == name@);
                        }
                        return true;
                    }
                }
                i = i + 1;
            }
            false
        },
        _ => false,
    }
}

/// The fields of a schema, one for each property in order: its name, the
/// resolved `$ref` of its type or else its `type`, and whether `required`
/// lists it.
pub fn extract_fields(json: &Json, current_path: &str) -> (res: Vec<FieldRef>)
    ensures
        res@.map_values(|f: FieldRef| field_view(f)) == schema_fields(*json, current_path@),
{
    let mut fields: Vec<FieldRef> = Vec::new();
    let required = json.get("required");
    if let Some(Json::Object(ps)) = json.get("properties") {
        let mut i: usize = 0;
        while i < ps.len()
            invariant
                i <= ps.len(),
                json_get(*json, "properties"@) == Some(Json::Object(*ps)),
                match required {
                    Some(r) => json_get(*json, "required"@) == Some(*r),
                    None => json_get(*json, "required"@) is None,
                },
                fields@.len() == i,
                forall|k: int| 0 <= k < i ==> field_view(#[trigger] fields@[k]) == property_field(*json, ps@[k], current_path@),
            decreases ps.len() - i,
        {
            let prop = &ps[i].1;
            let ty_ref = match prop.get("$ref") {
                Some(Json::Str(s)) => Some(normalize_ref(s.as_str(), current_path)),
                _ => None,
            };
            let inline_kind = if ty_ref.is_none() {
                crate::json::get_str(prop, "type")
            } else {
                None
            };
            let req = is_required(required, ps[i].0.as_str());
            fields.push(FieldRef { name: ps[i].0.clone(), ty_ref, inline_kind, required: Some(req) });
            i = i + 1;
        }
        proof {
            assert(fields@.map_values(|f: FieldRef| field_view(f)) =~= schema_fields(*json, current_path@));
        }
    } else {
        proof {
            assert(fields@.map_values(|f: FieldRef| field_view(f)) =~= schema_fields(*json, current_path@));
        }
    }
    fields
}

} // verus!
