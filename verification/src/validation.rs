//! Contract enforcement: schemas compiled by `jsonschema` under message types
//! named after their schema files, payloads parsed by `simd-json` and checked
//! against the contract of their message type.

use vstd::prelude::*;
use crate::drift::schema::{after_last, extract_ref_name};
use crate::text::{chars_of, concat2, owned, str_eq, sub_chars, string_from_chars};
use crate::json::{Json, JsonV, schema_file_value, schema_from_slice, value_json};
use vstd::multiset::Multiset;
use crate::mcp::shapes::serde_value;

verus! {

/// `s` with every trailing `suffix` removed.
pub open spec fn trim_suffixes(s: Seq<char>, suffix: Seq<char>) -> Seq<char>
    decreases s.len(),
{
    if suffix.len() > 0 && s.len() >= suffix.len() && s.subrange(s.len() - suffix.len(), s.len() as int) == suffix {
        trim_suffixes(s.subrange(0, s.len() - suffix.len()), suffix)
    } else {
        s
    }
}

/// `s` with every trailing `suffix` removed (`str::trim_end_matches`).
pub fn trim_end_matches(s: &str, suffix: &str) -> (res: String)
    ensures
        res@ == trim_suffixes(s@, suffix@),
{
    let v = chars_of(s);
    let p = chars_of(suffix);
    let mut end: usize = v.len();
    proof {
        assert(v@.subrange(0, end as int) =~= v@);
    }
    while p.len() > 0 && end >= p.len() && crate::text::chars_eq(sub_chars(&v, end - p.len(), end).as_slice(), p.as_slice())
        invariant
            end <= v@.len(),
            v@ == s@,
            p@ == suffix@,
            trim_suffixes(s@, suffix@) == trim_suffixes(v@.subrange(0, end as int), suffix@),
        decreases end,
    {
        proof {
            let w = v@.subrange(0, end as int);
            assert(w.subrange(w.len() - p@.len(), w.len() as int) =~= v@.subrange(end - p@.len(), end as int));
            assert(w.subrange(0, w.len() - p@.len()) =~= v@.subrange(0, end - p@.len()));
        }
        end = end - p.len();
    }
    proof {
        let w = v@.subrange(0, end as int);
        if p@.len() > 0 && w.len() >= p@.len() {
            assert(w.subrange(w.len() - p@.len(), w.len() as int) =~= v@.subrange(end - p@.len(), end as int));
        }
    }
    string_from_chars(&sub_chars(&v, 0, end))
}

/// The message type of a schema file: its file name without `.json` and
/// `.schema`, after the dotted directory prefix when there is one.
pub open spec fn message_type_of(path: Seq<char>, prefix: Seq<char>) -> Seq<char> {
    let name = trim_suffixes(trim_suffixes(after_last(path, '/'), ".json"@), ".schema"@);
    if prefix.len() == 0 {
        name
    } else {
        prefix + "."@ + name
    }
}

/// The message type of the schema file at `path` under the dotted directory
/// prefix `prefix`.
pub fn derive_message_type(path: &str, prefix: &str) -> (res: String)
    ensures
        res@ == message_type_of(path@, prefix@),
{
    let file = extract_ref_name(path);
    let a = trim_end_matches(file.as_str(), ".json");
    let name = trim_end_matches(a.as_str(), ".schema");
    if prefix.is_empty() {
        name
    } else {
        let mut s = concat2(prefix, ".");
        s.append(name.as_str());
        s
    }
}

/// The dotted prefix of a subdirectory.
pub fn subdir_prefix(prefix: &str, dir_name: &str) -> (res: String)
    ensures
        res@ == (if prefix@.len() == 0 { dir_name@ } else { prefix@ + "."@ + dir_name@ }),
{
    if prefix.is_empty() {
        owned(dir_name)
    } else {
        let mut s = concat2(prefix, ".");
        s.append(dir_name);
        s
    }
}

/// Why a payload broke its contract.
#[derive(Debug)]
pub enum ContractError {
    /// No schema is known for the message type.
    UnknownType(String),
    /// The payload does not satisfy the schema.
    ValidationFailed { message_type: String, errors: Vec<String> },
    /// The payload is not JSON, or not of the expected shape.
    ParseError(String),
}

/// The `Debug` rendering of a list of strings.
pub uninterp spec fn debug_strings(v: Seq<Seq<char>>) -> Seq<char>;

/// `format!("{:?}", v)` for a list of strings.
#[verifier::external_body]
fn debug_list(v: &Vec<String>) -> (s: String)
    ensures
        s@ == debug_strings(v@.map_values(|x: String| x@)),
{
    format!("{:?}", v)
}

impl ContractError {
    /// The error's message.
    pub fn message(&self) -> (s: String)
        ensures
            s@ == match *self {
                ContractError::UnknownType(t) => "Unknown message type: "@ + t@,
                ContractError::ValidationFailed { message_type, errors } => "Contract violation for "@ + message_type@
                    + ": "@ + debug_strings(errors@.map_values(|x: String| x@)),
                ContractError::ParseError(e) => "Parse error: "@ + e@,
            },
    {
        match self {
            ContractError::UnknownType(t) => concat2("Unknown message type: ", t.as_str()),
            ContractError::ValidationFailed { message_type, errors } => {
                let mut s = concat2("Contract violation for ", message_type.as_str());
                s.append(": ");
                s.append(debug_list(errors).as_str());
                s
            },
            ContractError::ParseError(e) => concat2("Parse error: ", e.as_str()),
        }
    }
}




// ---------------------------------------------------------------------------
// Compiled contracts
// ---------------------------------------------------------------------------

/// The document `simd_json::from_slice` reads from a payload's bytes, or
/// `None` when it reports an error.
pub uninterp spec fn payload_value(bytes: Seq<u8>) -> Option<JsonV>;

/// Whether `jsonschema::Validator::new` compiles a schema.
pub uninterp spec fn schema_compiles(schema: JsonV) -> bool;

/// The texts of the errors that the validator compiled from `schema` reports
/// for `payload` (`iter_errors`), as a multiset: their order is not settled.
pub uninterp spec fn schema_errors(schema: JsonV, payload: JsonV) -> Multiset<Seq<char>>;

/// The character sequences of a list of strings.
pub open spec fn texts_of(v: Seq<String>) -> Seq<Seq<char>> {
    v.map_values(|s: String| s@)
}

/// A compiled `jsonschema::Validator`. Verus does not accept a declaration of
/// that type (its backend parameter is bounded by a trait of `jsonschema`),
/// so the validator is held here, out of Verus's sight.
#[verifier::external_body]
pub struct SchemaValidator {
    inner: jsonschema::Validator,
}

/// A schema and the validator compiled from it.
pub struct CompiledContract {
    schema: Json,
    validator: SchemaValidator,
}

impl CompiledContract {
    /// The schema the validator was compiled from.
    pub closed spec fn schema_view(&self) -> JsonV {
        self.schema@
    }

    /// The schema the validator was compiled from.
    pub fn schema(&self) -> (s: &Json)
        ensures
            s@ == self.schema_view(),
    {
        &self.schema
    }
}

/// `simd_json::from_slice::<serde_json::Value>` on a copy of the payload
/// (the parser works in its buffer), as a document. The error's text is not
/// stated: the parser picks its code by the processor's features.
#[verifier::external_body]
fn parse_payload(bytes: &[u8]) -> (r: Result<Json, String>)
    ensures
        match payload_value(bytes@) {
            Some(v) => r matches Ok(j) && j@ == v,
            None => r is Err,
        },
{
    let mut buffer = bytes.to_vec();
    simd_json::from_slice::<serde_json::Value>(&mut buffer).map(|v| value_json(&v)).map_err(|e| e.to_string())
}

/// `jsonschema::Validator::new` on the schema, kept with the schema. Which
/// error text a failing schema gives is not stated.
#[verifier::external_body]
fn compile_contract(schema: Json) -> (r: Result<CompiledContract, String>)
    ensures
        r is Ok <==> schema_compiles(schema@),
        r matches Ok(c) ==> c.schema_view() == schema@,
{
    match jsonschema::Validator::new(&serde_value(&schema)) {
        Ok(v) => Ok(CompiledContract { schema, validator: SchemaValidator { inner: v } }),
        Err(e) => Err(e.to_string()),
    }
}

/// The texts of `validator.iter_errors(payload)`.
#[verifier::external_body]
fn contract_errors(c: &CompiledContract, payload: &Json) -> (e: Vec<String>)
    ensures
        texts_of(e@).to_multiset() == schema_errors(c.schema_view(), payload@),
{
    c.validator.inner.iter_errors(&serde_value(payload)).map(|e| e.to_string()).collect()
}

/// The message types and schemas of a list of contracts.
pub open spec fn contracts_view(cs: Seq<(String, CompiledContract)>) -> Seq<(Seq<char>, JsonV)> {
    cs.map_values(|c: (String, CompiledContract)| (c.0@, c.1.schema_view()))
}

/// The last position of message type `k`, if any (the contract in force).
pub open spec fn last_pos(cs: Seq<(Seq<char>, JsonV)>, k: Seq<char>) -> Option<int>
    decreases cs.len(),
{
    if cs.len() == 0 {
        None
    } else if cs.last().0 == k {
        Some(cs.len() - 1)
    } else {
        last_pos(cs.drop_last(), k)
    }
}

proof fn lemma_last_pos(cs: Seq<(Seq<char>, JsonV)>, k: Seq<char>)
    ensures
        match last_pos(cs, k) {
            Some(i) => 0 <= i < cs.len() && cs[i].0 == k && forall|j: int| i < j < cs.len() ==> (#[trigger] cs[j]).0 != k,
            None => forall|j: int| 0 <= j < cs.len() ==> (#[trigger] cs[j]).0 != k,
        },
    decreases cs.len(),
{
    if cs.len() > 0 {
        lemma_last_pos(cs.drop_last(), k);
        assert forall|j: int| 0 <= j < cs.len() - 1 implies #[trigger] cs[j] == cs.drop_last()[j] by {}
    }
}

/// The contracts after one for `k` with schema `v` is added: it replaces the
/// last one of that type, or is appended.
pub open spec fn put_contract(cs: Seq<(Seq<char>, JsonV)>, k: Seq<char>, v: JsonV) -> Seq<(Seq<char>, JsonV)> {
    match last_pos(cs, k) {
        Some(i) => cs.update(i, (k, v)),
        None => cs.push((k, v)),
    }
}

/// The position of the contract in force for `message_type`.
fn find_contract(contracts: &Vec<(String, CompiledContract)>, message_type: &str) -> (res: Option<usize>)
    ensures
        match last_pos(contracts_view(contracts@), message_type@) {
            Some(i) => res matches Some(j) && j == i,
            None => res is None,
        },
        res matches Some(i) ==> i < contracts@.len(),
{
    let ghost cv = contracts_view(contracts@);
    let mut i: usize = contracts.len();
    proof {
        lemma_last_pos(cv, message_type@);
    }
    while i > 0
        invariant
            i <= contracts@.len(),
            cv == contracts_view(contracts@),
            forall|j: int| i <= j < cv.len() ==> (#[trigger] cv[j]).0 != message_type@,
            match last_pos(cv, message_type@) {
                Some(p) => 0 <= p < cv.len() && cv[p].0 == message_type@ && forall|j: int| p < j < cv.len() ==> (#[trigger] cv[j]).0 != message_type@,
                None => forall|j: int| 0 <= j < cv.len() ==> (#[trigger] cv[j]).0 != message_type@,
            },
        decreases i,
    {
        i = i - 1;
        assert(cv[i as int].0 == contracts@[i as int].0@);
        if str_eq(contracts[i].0.as_str(), message_type) {
            return Some(i);
        }
    }
    None
}

/// The error line for a schema file that is not JSON.
pub open spec fn invalid_json_line(path: Seq<char>, e: Seq<char>) -> Seq<char> {
    "Invalid JSON in "@ + path + ": "@ + e
}

/// The error line for a schema that does not compile.
pub open spec fn compile_failed_line(mt: Seq<char>, e: Seq<char>) -> Seq<char> {
    "Failed to compile "@ + mt + ": "@ + e
}

/// Compiles the schema file at `path` (bytes `contents`) under the message
/// type that `path` and the dotted directory prefix `prefix` give: the
/// contract replaces the one in force for that type, or is added. A file
/// that is not JSON, or a schema that does not compile, adds a line to
/// `errors` instead. Gives whether a schema was compiled.
pub fn add_schema_file(
    contracts: &mut Vec<(String, CompiledContract)>,
    path: &str,
    prefix: &str,
    contents: &[u8],
    errors: &mut Vec<String>,
) -> (compiled: bool)
    ensures
        ({
            let mt = message_type_of(path@, prefix@);
            match schema_file_value(contents@) {
                Err(e) => !compiled && contracts_view(final(contracts)@) == contracts_view(old(contracts)@)
                    && texts_of(final(errors)@) == texts_of(old(errors)@).push(invalid_json_line(path@, e)),
                Ok(schema) => if schema_compiles(schema) {
                    compiled && contracts_view(final(contracts)@) == put_contract(contracts_view(old(contracts)@), mt, schema)
                        && final(errors)@ == old(errors)@
                } else {
                    !compiled && contracts_view(final(contracts)@) == contracts_view(old(contracts)@)
                        && exists|e: Seq<char>| texts_of(final(errors)@) == #[trigger] texts_of(old(errors)@).push(compile_failed_line(mt, e))
                },
            }
        }),
{
    let schema = match schema_from_slice(contents) {
        Ok(s) => s,
        Err(e) => {
            let mut line = concat2("Invalid JSON in ", path);
            line.append(": ");
            line.append(e.as_str());
            let ghost before = errors@;
            errors.push(line);
            proof {
                assert(texts_of(errors@) =~= texts_of(before).push(invalid_json_line(path@, e@)));
            }
            return false;
        },
    };
    let ghost sv = schema@;
    assert(schema_file_value(contents@) == Ok::<JsonV, Seq<char>>(sv));
    let mt = derive_message_type(path, prefix);
    match compile_contract(schema) {
        Ok(c) => {
            let ghost before = contracts_view(contracts@);
            let ghost entry = (mt@, c.schema_view());
            assert(entry == (message_type_of(path@, prefix@), sv));
            match find_contract(contracts, mt.as_str()) {
                Some(i) => {
                    contracts.set(i, (mt, c));
                    proof {
                        assert(contracts_view(contracts@) =~= before.update(i as int, entry));
                        assert(put_contract(before, entry.0, sv) == before.update(i as int, entry));
                    }
                },
                None => {
                    contracts.push((mt, c));
                    proof {
                        assert(contracts_view(contracts@) =~= before.push(entry));
                        assert(put_contract(before, entry.0, sv) == before.push(entry));
                    }
                },
            }
            true
        },
        Err(e) => {
            let mut line = concat2("Failed to compile ", mt.as_str());
            line.append(": ");
            line.append(e.as_str());
            let ghost before = errors@;
            errors.push(line);
            proof {
                assert(texts_of(errors@) =~= texts_of(before).push(compile_failed_line(message_type_of(path@, prefix@), e@)));
            }
            false
        },
    }
}

/// The outcome of checking a payload of `message_type`, in order: unknown
/// when no contract is in force for the type; a parse error when the
/// payload is not JSON; a violation with exactly the validator's errors
/// when it reports any; else the parsed payload.
pub open spec fn payload_checked(
    cs: Seq<(Seq<char>, JsonV)>,
    mt: Seq<char>,
    bytes: Seq<u8>,
    r: Result<JsonV, ContractErrorView>,
) -> bool {
    match last_pos(cs, mt) {
        None => r == Err::<JsonV, ContractErrorView>(ContractErrorView::UnknownType(mt)),
        Some(i) => match payload_value(bytes) {
            None => r matches Err(ContractErrorView::ParseError(_)),
            Some(v) => if schema_errors(cs[i].1, v).len() > 0 {
                r matches Err(ContractErrorView::ValidationFailed { message_type: t, errors: es }) && t == mt
                    && es.to_multiset() == schema_errors(cs[i].1, v)
            } else {
                r == Ok::<JsonV, ContractErrorView>(v)
            },
        },
    }
}

/// The outcome of validating a payload of `mt`: that of `payload_checked`,
/// without the parsed payload.
pub open spec fn payload_validated(
    cs: Seq<(Seq<char>, JsonV)>,
    mt: Seq<char>,
    bytes: Seq<u8>,
    r: Result<(), ContractErrorView>,
) -> bool {
    match last_pos(cs, mt) {
        None => r == Err::<(), ContractErrorView>(ContractErrorView::UnknownType(mt)),
        Some(i) => match payload_value(bytes) {
            None => r matches Err(ContractErrorView::ParseError(_)),
            Some(v) => if schema_errors(cs[i].1, v).len() > 0 {
                r matches Err(ContractErrorView::ValidationFailed { message_type: t, errors: es }) && t == mt
                    && es.to_multiset() == schema_errors(cs[i].1, v)
            } else {
                r is Ok
            },
        },
    }
}

/// A validation outcome taken by its views.
pub open spec fn validated_view(r: Result<(), ContractError>) -> Result<(), ContractErrorView> {
    match r {
        Ok(()) => Ok(()),
        Err(e) => Err(e@),
    }
}

/// A contract error as plain values.
pub enum ContractErrorView {
    UnknownType(Seq<char>),
    ValidationFailed { message_type: Seq<char>, errors: Seq<Seq<char>> },
    ParseError(Seq<char>),
}

impl View for ContractError {
    type V = ContractErrorView;

    open spec fn view(&self) -> ContractErrorView {
        match self {
            ContractError::UnknownType(t) => ContractErrorView::UnknownType(t@),
            ContractError::ValidationFailed { message_type, errors } => ContractErrorView::ValidationFailed {
                message_type: message_type@,
                errors: texts_of(errors@),
            },
            ContractError::ParseError(e) => ContractErrorView::ParseError(e@),
        }
    }
}

/// A checked payload taken by its views.
pub open spec fn checked_view(r: Result<Json, ContractError>) -> Result<JsonV, ContractErrorView> {
    match r {
        Ok(j) => Ok(j@),
        Err(e) => Err(e@),
    }
}

/// Parses a payload and checks it against the contract in force for
/// `message_type` (see `payload_checked`), giving back the parsed payload.
pub fn checked_payload(contracts: &Vec<(String, CompiledContract)>, message_type: &str, payload: &[u8]) -> (r: Result<Json, ContractError>)
    ensures
        payload_checked(contracts_view(contracts@), message_type@, payload@, checked_view(r)),
{
    let i = match find_contract(contracts, message_type) {
        None => {
            return Err(ContractError::UnknownType(owned(message_type)));
        },
        Some(i) => i,
    };
    let value = match parse_payload(payload) {
        Err(e) => {
            return Err(ContractError::ParseError(e));
        },
        Ok(v) => v,
    };
    assert(contracts_view(contracts@)[i as int].1 == contracts@[i as int].1.schema_view());
    let errors = contract_errors(&contracts[i].1, &value);
    assert(texts_of(errors@).len() == errors@.len());
    proof {
        vstd::seq_lib::to_multiset_len(texts_of(errors@));
    }
    if errors.len() > 0 {
        return Err(ContractError::ValidationFailed { message_type: owned(message_type), errors });
    }
    Ok(value)
}

/// Checks a payload against the contract in force for `message_type`: the
/// outcome of `checked_payload`, without the parsed payload.
pub fn validate_payload(contracts: &Vec<(String, CompiledContract)>, message_type: &str, payload: &[u8]) -> (r: Result<(), ContractError>)
    ensures
        payload_validated(contracts_view(contracts@), message_type@, payload@, validated_view(r)),
{
    match checked_payload(contracts, message_type, payload) {
        Ok(_) => Ok(()),
        Err(e) => Err(e),
    }
}

/// Parses a payload without checking it.
pub fn parse_payload_value(payload: &[u8]) -> (r: Result<Json, ContractError>)
    ensures
        match payload_value(payload@) {
            Some(v) => r matches Ok(j) && j@ == v,
            None => r matches Err(e) && e@ is ParseError,
        },
{
    match parse_payload(payload) {
        Ok(v) => Ok(v),
        Err(e) => Err(ContractError::ParseError(e)),
    }
}

/// Compiled contracts by message type, and how many schemas were compiled.
pub struct ContractEnforcer {
    contracts: Vec<(String, CompiledContract)>,
    schema_count: usize,
}

impl ContractEnforcer {
    /// The message types and schemas of the contracts in force, in the order
    /// the types were first compiled.
    pub closed spec fn contracts(&self) -> Seq<(Seq<char>, JsonV)> {
        contracts_view(self.contracts@)
    }

    /// How many schemas were compiled (a type compiled twice counts twice).
    pub closed spec fn count(&self) -> nat {
        self.schema_count as nat
    }

    /// An enforcer with no contracts.
    pub fn empty() -> (res: ContractEnforcer)
        ensures
            res.contracts() == Seq::<(Seq<char>, JsonV)>::empty(),
            res.count() == 0,
    {
        let res = ContractEnforcer { contracts: Vec::new(), schema_count: 0 };
        proof {
            assert(contracts_view(res.contracts@) =~= Seq::<(Seq<char>, JsonV)>::empty());
        }
        res
    }

    /// Compiles one schema file (see `add_schema_file`), counting it when it compiles.
    pub fn compile_schema_file(&mut self, path: &str, prefix: &str, contents: &[u8], errors: &mut Vec<String>)
        requires
            old(self).count() < usize::MAX,
        ensures
            ({
                let mt = message_type_of(path@, prefix@);
                match schema_file_value(contents@) {
                    Err(e) => final(self).contracts() == old(self).contracts() && final(self).count() == old(self).count()
                        && texts_of(final(errors)@) == texts_of(old(errors)@).push(invalid_json_line(path@, e)),
                    Ok(schema) => if schema_compiles(schema) {
                        final(self).contracts() == put_contract(old(self).contracts(), mt, schema)
                            && final(self).count() == old(self).count() + 1 && final(errors)@ == old(errors)@
                    } else {
                        final(self).contracts() == old(self).contracts() && final(self).count() == old(self).count()
                            && exists|e: Seq<char>| texts_of(final(errors)@) == #[trigger] texts_of(old(errors)@).push(compile_failed_line(mt, e))
                    },
                }
            }),
    {
        if add_schema_file(&mut self.contracts, path, prefix, contents, errors) {
            self.schema_count = self.schema_count + 1;
        }
    }

    /// Validates a payload against the contract of `message_type` (see `validate_payload`).
    pub fn validate(&self, message_type: &str, payload: &[u8]) -> (r: Result<(), ContractError>)
        ensures
            payload_validated(self.contracts(), message_type@, payload@, validated_view(r)),
    {
        validate_payload(&self.contracts, message_type, payload)
    }

    /// Parses a payload and checks it against the contract of
    /// `message_type`, giving back the parsed payload (see `payload_checked`).
    pub fn checked(&self, message_type: &str, payload: &[u8]) -> (r: Result<Json, ContractError>)
        ensures
            payload_checked(self.contracts(), message_type@, payload@, checked_view(r)),
    {
        checked_payload(&self.contracts, message_type, payload)
    }

    /// The number of schemas compiled.
    pub fn schema_count(&self) -> (n: usize)
        ensures
            n == self.count(),
    {
        self.schema_count
    }

    /// Whether a contract is in force for `message_type`.
    pub fn has_schema(&self, message_type: &str) -> (res: bool)
        ensures
            res == (last_pos(self.contracts(), message_type@) is Some),
    {
        find_contract(&self.contracts, message_type).is_some()
    }

    /// The message types that have a contract, in the order they were first compiled.
    pub fn message_types(&self) -> (res: Vec<&String>)
        ensures
            res@.len() == self.contracts().len(),
            forall|i: int| 0 <= i < res@.len() ==> (#[trigger] res@[i])@ == self.contracts()[i].0,
    {
        let mut out: Vec<&String> = Vec::new();
        let mut i: usize = 0;
        while i < self.contracts.len()
            invariant
                i <= self.contracts@.len(),
                out@.len() == i,
                forall|j: int| 0 <= j < i ==> (#[trigger] out@[j])@ == self.contracts@[j].0@,
            decreases self.contracts.len() - i,
        {
            out.push(&self.contracts[i].0);
            i = i + 1;
        }
        out
    }
}

} // verus!
