//! Report generation: issue groups, dashboard cards and text tables.

use vstd::prelude::*;
use crate::analysis::{AnalysisReport, Issue, IssueKind, OrphanRecommendation, Severity, Stats};
use crate::text::{chars_of, chars_is, decimal, owned, u64_to_string, usize_to_string, contains_seq, contains_seq_spec, prefix_bytes, char_utf8_width, lemma_prefix_bytes_step, lemma_prefix_bytes_mono};
use tabled::builder::Builder;
use tabled::settings::Style;

verus! {

/// A dashboard card.
#[derive(Debug, Clone)]
pub struct StatCard {
    pub value: String,
    pub label: &'static str,
    pub class: &'static str,
}

/// An issue as displayed.
#[derive(Debug, Clone)]
pub struct DisplayIssue {
    pub file: String,
    pub line: usize,
    pub message: String,
    pub fix: Option<String>,
}

/// The issues of one category.
#[derive(Debug, Clone)]
pub struct IssueGroup {
    pub icon: &'static str,
    pub title: &'static str,
    pub category: &'static str,
    pub description: Option<&'static str>,
    pub issues: Vec<DisplayIssue>,
}

/// `d` displays `i`.
pub open spec fn displays(i: Issue, d: DisplayIssue) -> bool {
    &&& d.file@ == i.file@
    &&& d.line == i.line
    &&& d.message@ == i.message@
    &&& match (d.fix, i.fix) {
        (Some(a), Some(b)) => a@ == b@,
        (None, None) => true,
        _ => false,
    }
}

/// An issue as displayed.
pub fn to_display_issue(issue: &Issue) -> (res: DisplayIssue)
    ensures
        displays(*issue, res),
{
    DisplayIssue {
        file: issue.file.clone(),
        line: issue.line,
        message: issue.message.clone(),
        fix: match &issue.fix {
            Some(f) => Some(f.clone()),
            None => None,
        },
    }
}

// ---------------------------------------------------------------------------
// Issue groups
// ---------------------------------------------------------------------------

/// The communication kinds.
pub open spec fn is_comm(k: IssueKind) -> bool {
    k is DirectHttpInWorker || k is HttpClientInWorkerStruct || k is InterServiceBypassKafka
}

/// Whether kind `k` belongs to group `g` of the error (`set` 0), warning (1)
/// or info (2) groups.
pub open spec fn in_group(set: int, g: int, k: IssueKind) -> bool {
    if set == 0 {
        if g == 0 {
            is_comm(k)
        } else if g == 1 {
            k is DirectSqlxUsage || k is DirectPoolAccess || k is EntityInService
        } else if g == 2 {
            k is MissingProtobufSchema || k is MissingKafkaKey || k is CodegenPathViolation
        } else if g == 3 {
            k is MissingGeneration
        } else if g == 4 {
            k is BrokenImport
        } else if g == 5 {
            k is MissingSchema
        } else {
            !(k is MissingGeneration || k is BrokenImport || k is MissingSchema || k is MissingProtobufSchema
                || k is MissingKafkaKey || k is CodegenPathViolation || is_comm(k) || k is DirectSqlxUsage
                || k is DirectPoolAccess || k is EntityInService)
        }
    } else if set == 1 {
        if g == 0 {
            k is MissingJsonSchema
        } else if g == 1 {
            k matches IssueKind::IsolatedSchema { used_in_code: true }
        } else if g == 2 {
            k matches IssueKind::OrphanSchema { recommendation: OrphanRecommendation::Delete }
        } else if g == 3 {
            is_comm(k)
        } else if g == 4 {
            k is LegacyRowMapping || k is BypassingStore
        } else if g == 5 {
            k is ManualKafkaImplementation || k is JsonSerializationInsteadOfProtobuf
        } else if g == 6 {
            k is RawPrimitive
        } else if g == 7 {
            k is DuplicateType
        } else if g == 8 {
            k is MissingOpenApiDerive
        } else {
            !(k is RawPrimitive || k is DuplicateType || k is MissingOpenApiDerive || k is ManualKafkaImplementation
                || k is JsonSerializationInsteadOfProtobuf || is_comm(k) || k is LegacyRowMapping || k is BypassingStore
                || k is OrphanSchema)
        }
    } else {
        if g == 0 {
            k matches IssueKind::IsolatedSchema { used_in_code: false }
        } else if g == 1 {
            k matches IssueKind::OrphanSchema { recommendation: OrphanRecommendation::ConnectGraph }
        } else if g == 2 {
            k matches IssueKind::OrphanSchema { recommendation: OrphanRecommendation::MarkDeprecated }
        } else if g == 3 {
            k matches IssueKind::OrphanSchema { recommendation: OrphanRecommendation::ExpectedRoot }
        } else if g == 4 {
            k is SuggestSystem
        } else if g == 5 {
            k is SuggestLaw
        } else if g == 6 {
            k is SuggestEntity
        } else if g == 7 {
            k is SuggestSchema
        } else if g == 8 {
            k is UnusedSchema
        } else if g == 9 {
            k is SuggestCentralize
        } else if g == 10 {
            k matches IssueKind::LocalTypeNotInSchema { schema_exists: true, .. }
        } else if g == 11 {
            k matches IssueKind::LocalTypeNotInSchema { schema_exists: false, .. }
        } else if g == 12 {
            k matches IssueKind::LocalTypeNotInSchema { language, .. } && language@ == "python"@
        } else {
            !(k is SuggestSystem || k is SuggestLaw || k is SuggestEntity || k is SuggestSchema || k is UnusedSchema
                || k is SuggestCentralize || k is LocalTypeNotInSchema || k is OrphanSchema)
        }
    }
}

/// The number of groups in each set.
pub open spec fn group_count(set: int) -> int {
    if set == 0 {
        7
    } else if set == 1 {
        10
    } else {
        14
    }
}

/// Whether kind `k` belongs to group `g` of set `set`.
fn kind_in_group(set: u8, g: usize, k: &IssueKind) -> (res: bool)
    requires
        set <= 2,
    ensures
        res == in_group(set as int, g as int, *k),
{
    let comm = match k {
        IssueKind::DirectHttpInWorker | IssueKind::HttpClientInWorkerStruct | IssueKind::InterServiceBypassKafka => true,
        _ => false,
    };
    if set == 0 {
        if g == 0 {
            comm
        } else if g == 1 {
            match k {
                IssueKind::DirectSqlxUsage | IssueKind::DirectPoolAccess | IssueKind::EntityInService => true,
                _ => false,
            }
        } else if g == 2 {
            match k {
                IssueKind::MissingProtobufSchema | IssueKind::MissingKafkaKey | IssueKind::CodegenPathViolation => true,
                _ => false,
            }
        } else if g == 3 {
            match k {
                IssueKind::MissingGeneration => true,
                _ => false,
            }
        } else if g == 4 {
            match k {
                IssueKind::BrokenImport => true,
                _ => false,
            }
        } else if g == 5 {
            match k {
                IssueKind::MissingSchema => true,
                _ => false,
            }
        } else {
            match k {
                IssueKind::MissingGeneration | IssueKind::BrokenImport | IssueKind::MissingSchema
                | IssueKind::MissingProtobufSchema | IssueKind::MissingKafkaKey | IssueKind::CodegenPathViolation
                | IssueKind::DirectHttpInWorker | IssueKind::HttpClientInWorkerStruct | IssueKind::InterServiceBypassKafka
                | IssueKind::DirectSqlxUsage | IssueKind::DirectPoolAccess | IssueKind::EntityInService => false,
                _ => true,
            }
        }
    } else if set == 1 {
        if g == 0 {
            match k {
                IssueKind::MissingJsonSchema => true,
                _ => false,
            }
        } else if g == 1 {
            match k {
                IssueKind::IsolatedSchema { used_in_code: true } => true,
                _ => false,
            }
        } else if g == 2 {
            match k {
                IssueKind::OrphanSchema { recommendation: OrphanRecommendation::Delete } => true,
                _ => false,
            }
        } else if g == 3 {
            comm
        } else if g == 4 {
            match k {
                IssueKind::LegacyRowMapping | IssueKind::BypassingStore => true,
                _ => false,
            }
        } else if g == 5 {
            match k {
                IssueKind::ManualKafkaImplementation | IssueKind::JsonSerializationInsteadOfProtobuf => true,
                _ => false,
            }
        } else if g == 6 {
            match k {
                IssueKind::RawPrimitive => true,
                _ => false,
            }
        } else if g == 7 {
            match k {
                IssueKind::DuplicateType => true,
                _ => false,
            }
        } else if g == 8 {
            match k {
                IssueKind::MissingOpenApiDerive => true,
                _ => false,
            }
        } else {
            match k {
                IssueKind::RawPrimitive | IssueKind::DuplicateType | IssueKind::MissingOpenApiDerive
                | IssueKind::ManualKafkaImplementation | IssueKind::JsonSerializationInsteadOfProtobuf
                | IssueKind::DirectHttpInWorker | IssueKind::HttpClientInWorkerStruct | IssueKind::InterServiceBypassKafka
                | IssueKind::LegacyRowMapping | IssueKind::BypassingStore | IssueKind::OrphanSchema { .. } => false,
                _ => true,
            }
        }
    } else {
        if g == 0 {
            match k {
                IssueKind::IsolatedSchema { used_in_code: false } => true,
                _ => false,
            }
        } else if g == 1 {
            match k {
                IssueKind::OrphanSchema { recommendation: OrphanRecommendation::ConnectGraph } => true,
                _ => false,
            }
        } else if g == 2 {
            match k {
                IssueKind::OrphanSchema { recommendation: OrphanRecommendation::MarkDeprecated } => true,
                _ => false,
            }
        } else if g == 3 {
            match k {
                IssueKind::OrphanSchema { recommendation: OrphanRecommendation::ExpectedRoot } => true,
                _ => false,
            }
        } else if g == 4 {
            match k {
                IssueKind::SuggestSystem => true,
                _ => false,
            }
        } else if g == 5 {
            match k {
                IssueKind::SuggestLaw => true,
                _ => false,
            }
        } else if g == 6 {
            match k {
                IssueKind::SuggestEntity => true,
                _ => false,
            }
        } else if g == 7 {
            match k {
                IssueKind::SuggestSchema => true,
                _ => false,
            }
        } else if g == 8 {
            match k {
                IssueKind::UnusedSchema => true,
                _ => false,
            }
        } else if g == 9 {
            match k {
                IssueKind::SuggestCentralize => true,
                _ => false,
            }
        } else if g == 10 {
            match k {
                IssueKind::LocalTypeNotInSchema { schema_exists: true, .. } => true,
                _ => false,
            }
        } else if g == 11 {
            match k {
                IssueKind::LocalTypeNotInSchema { schema_exists: false, .. } => true,
                _ => false,
            }
        } else if g == 12 {
            match k {
                IssueKind::LocalTypeNotInSchema { language, .. } => crate::text::str_eq(language.as_str(), "python"),
                _ => false,
            }
        } else {
            match k {
                IssueKind::SuggestSystem | IssueKind::SuggestLaw | IssueKind::SuggestEntity | IssueKind::SuggestSchema
                | IssueKind::UnusedSchema | IssueKind::SuggestCentralize | IssueKind::LocalTypeNotInSchema { .. }
                | IssueKind::OrphanSchema { .. } => false,
                _ => true,
            }
        }
    }
}

/// The issues referred to.
pub open spec fn derefs(s: Seq<&Issue>) -> Seq<Issue> {
    s.map_values(|r: &Issue| *r)
}

/// The issues of group `g` of set `set`, in order.
pub open spec fn group_issues(issues: Seq<Issue>, set: int, g: int) -> Seq<Issue>
    decreases issues.len(),
{
    if issues.len() == 0 {
        Seq::empty()
    } else if in_group(set, g, issues.last().kind) {
        group_issues(issues.drop_last(), set, g).push(issues.last())
    } else {
        group_issues(issues.drop_last(), set, g)
    }
}

/// `ds` displays `is`, one for one.
pub open spec fn displays_all(is: Seq<Issue>, ds: Seq<DisplayIssue>) -> bool {
    &&& ds.len() == is.len()
    &&& forall|i: int| 0 <= i < ds.len() ==> displays(is[i], #[trigger] ds[i])
}

/// The displayed issues of group `g` of set `set`.
fn collect_group(issues: &[&Issue], set: u8, g: usize) -> (res: Vec<DisplayIssue>)
    requires
        set <= 2,
    ensures
        displays_all(group_issues(derefs(issues@), set as int, g as int), res@),
{
    let mut out: Vec<DisplayIssue> = Vec::new();
    let mut i: usize = 0;
    while i < issues.len()
        invariant
            set <= 2,
            i <= issues.len(),
            displays_all(group_issues(derefs(issues@.take(i as int)), set as int, g as int), out@),
        decreases issues.len() - i,
    {
        proof {
            let t = derefs(issues@.take(i as int + 1));
            assert(t.drop_last() =~= derefs(issues@.take(i as int)));
            assert(t.last() == *issues@[i as int]);
        }
        let issue: &Issue = issues[i];
        if kind_in_group(set, g, &issue.kind) {
            out.push(to_display_issue(issue));
        }
        i = i + 1;
    }
    proof {
        assert(issues@.take(issues@.len() as int) =~= issues@);
    }
    out
}

/// The icon, title, category and description of group `g` of set `set`.
pub open spec fn group_meta(set: int, g: int) -> (Seq<char>, Seq<char>, Seq<char>, Option<Seq<char>>) {
    if set == 0 {
        if g == 0 {
            ("🔌"@, "Communication Violations"@, "communication"@, Some("Workers must use Kafka for internal communication - HTTP is not allowed."@))
        } else if g == 1 {
            ("🗃️"@, "Database/SeaORM Violations"@, "database"@, Some("Services must use TigerDataStore from familiar-core, not direct sqlx."@))
        } else if g == 2 {
            ("📨"@, "Kafka/Protobuf Errors"@, "kafka"@, None)
        } else if g == 3 {
            ("🔄"@, "Generation Sync"@, "generation"@, None)
        } else if g == 4 {
            ("🔗"@, "Broken Imports"@, "import"@, None)
        } else if g == 5 {
            ("📋"@, "Missing Schema"@, "schema"@, None)
        } else {
            ("❓"@, "Other"@, "other"@, None)
        }
    } else if set == 1 {
        if g == 0 {
            ("📝"@, "Missing JSON Schemas"@, "missing-schema"@, Some("Rust types without corresponding JSON schema - need to be exported"@))
        } else if g == 1 {
            ("🔌"@, "Isolated Types/Primitives"@, "isolated-schema"@, Some("Schema types not referenced by any other schema - need $ref connections"@))
        } else if g == 2 {
            ("🔗"@, "Orphan Schemas (Delete)"@, "orphan-delete"@, Some("Schemas not used in code or graph - safe to delete"@))
        } else if g == 3 {
            ("🔌"@, "Communication Warnings"@, "communication"@, None)
        } else if g == 4 {
            ("🗃️"@, "Database Warnings"@, "database"@, None)
        } else if g == 5 {
            ("📨"@, "Kafka Warnings"@, "kafka"@, None)
        } else if g == 6 {
            ("🔢"@, "Raw Primitives"@, "primitive"@, None)
        } else if g == 7 {
            ("📄"@, "Duplicate Types"@, "schema"@, None)
        } else if g == 8 {
            ("📖"@, "OpenAPI Gaps"@, "schema"@, None)
        } else {
            ("❓"@, "Other"@, "other"@, None)
        }
    } else {
        if g == 0 {
            ("📭"@, "Isolated Schemas (Unused)"@, "isolated-unused"@, Some("Schema types not referenced by schemas or code - may be candidates for deletion"@))
        } else if g == 1 {
            ("🔗"@, "Orphan Schemas (Connect Graph)"@, "orphan-connect"@, Some("Schemas used in code but not connected in the schema graph - run --fix to add x-familiar-* extensions"@))
        } else if g == 2 {
            ("📦"@, "Orphan Schemas (Deprecated)"@, "orphan-deprecated"@, Some("Legacy schemas from deprecated systems (e.g., Windmill) - run --fix to mark as deprecated"@))
        } else if g == 3 {
            ("✅"@, "Orphan Schemas (Expected Roots)"@, "orphan-root"@, Some("Infrastructure schemas that are expected to be roots (ecs/, queues/, nodes/, systems/)"@))
        } else if g == 4 {
            ("⚙️"@, "ECS Systems"@, "system"@, None)
        } else if g == 5 {
            ("⚖️"@, "Laws"@, "law"@, None)
        } else if g == 6 {
            ("🗄️"@, "Entity Candidates"@, "entity"@, None)
        } else if g == 7 {
            ("💡"@, "Schema Suggestions"@, "schema"@, None)
        } else if g == 8 {
            ("📭"@, "Unused Schemas"@, "schema"@, None)
        } else if g == 9 {
            ("📦"@, "Centralize Types"@, "centralize"@, None)
        } else if g == 10 {
            ("📋"@, "Local Types (Schema Exists)"@, "schema-exists"@, Some("These types exist in familiar-schemas - use the schema instead of local definition"@))
        } else if g == 11 {
            ("📝"@, "Local Types (Add to Schema)"@, "schema-needed"@, Some("These types should be added to familiar-schemas for cross-language consistency"@))
        } else if g == 12 {
            ("🐍"@, "Python Codegen (Legacy)"@, "python"@, None)
        } else {
            ("❓"@, "Other"@, "other"@, None)
        }
    }
}

/// The icon, title, category and description of group `g` of set `set`.
fn group_meta_of(set: u8, g: usize) -> (res: (&'static str, &'static str, &'static str, Option<&'static str>))
    ensures
        (res.0@, res.1@, res.2@, match res.3 { Some(d) => Some(d@), None => None }) == group_meta(set as int, g as int),
{
    if set == 0 {
        if g == 0 {
            ("🔌", "Communication Violations", "communication", Some("Workers must use Kafka for internal communication - HTTP is not allowed."))
        } else if g == 1 {
            ("🗃️", "Database/SeaORM Violations", "database", Some("Services must use TigerDataStore from familiar-core, not direct sqlx."))
        } else if g == 2 {
            ("📨", "Kafka/Protobuf Errors", "kafka", None)
        } else if g == 3 {
            ("🔄", "Generation Sync", "generation", None)
        } else if g == 4 {
            ("🔗", "Broken Imports", "import", None)
        } else if g == 5 {
            ("📋", "Missing Schema", "schema", None)
        } else {
            ("❓", "Other", "other", None)
        }
    } else if set == 1 {
        if g == 0 {
            ("📝", "Missing JSON Schemas", "missing-schema", Some("Rust types without corresponding JSON schema - need to be exported"))
        } else if g == 1 {
            ("🔌", "Isolated Types/Primitives", "isolated-schema", Some("Schema types not referenced by any other schema - need $ref connections"))
        } else if g == 2 {
            ("🔗", "Orphan Schemas (Delete)", "orphan-delete", Some("Schemas not used in code or graph - safe to delete"))
        } else if g == 3 {
            ("🔌", "Communication Warnings", "communication", None)
        } else if g == 4 {
            ("🗃️", "Database Warnings", "database", None)
        } else if g == 5 {
            ("📨", "Kafka Warnings", "kafka", None)
        } else if g == 6 {
            ("🔢", "Raw Primitives", "primitive", None)
        } else if g == 7 {
            ("📄", "Duplicate Types", "schema", None)
        } else if g == 8 {
            ("📖", "OpenAPI Gaps", "schema", None)
        } else {
            ("❓", "Other", "other", None)
        }
    } else {
        if g == 0 {
            ("📭", "Isolated Schemas (Unused)", "isolated-unused", Some("Schema types not referenced by schemas or code - may be candidates for deletion"))
        } else if g == 1 {
            ("🔗", "Orphan Schemas (Connect Graph)", "orphan-connect", Some("Schemas used in code but not connected in the schema graph - run --fix to add x-familiar-* extensions"))
        } else if g == 2 {
            ("📦", "Orphan Schemas (Deprecated)", "orphan-deprecated", Some("Legacy schemas from deprecated systems (e.g., Windmill) - run --fix to mark as deprecated"))
        } else if g == 3 {
            ("✅", "Orphan Schemas (Expected Roots)", "orphan-root", Some("Infrastructure schemas that are expected to be roots (ecs/, queues/, nodes/, systems/)"))
        } else if g == 4 {
            ("⚙️", "ECS Systems", "system", None)
        } else if g == 5 {
            ("⚖️", "Laws", "law", None)
        } else if g == 6 {
            ("🗄️", "Entity Candidates", "entity", None)
        } else if g == 7 {
            ("💡", "Schema Suggestions", "schema", None)
        } else if g == 8 {
            ("📭", "Unused Schemas", "schema", None)
        } else if g == 9 {
            ("📦", "Centralize Types", "centralize", None)
        } else if g == 10 {
            ("📋", "Local Types (Schema Exists)", "schema-exists", Some("These types exist in familiar-schemas - use the schema instead of local definition"))
        } else if g == 11 {
            ("📝", "Local Types (Add to Schema)", "schema-needed", Some("These types should be added to familiar-schemas for cross-language consistency"))
        } else if g == 12 {
            ("🐍", "Python Codegen (Legacy)", "python", None)
        } else {
            ("❓", "Other", "other", None)
        }
    }
}

/// `gs` are the groups of set `set` for `issues`: each with its metadata and
/// its issues, displayed, in order.
pub open spec fn groups_ok(issues: Seq<Issue>, set: int, gs: Seq<IssueGroup>) -> bool {
    &&& gs.len() == group_count(set)
    &&& forall|g: int| 0 <= g < gs.len() ==> {
        let m = group_meta(set, g);
        &&& (#[trigger] gs[g]).icon@ == m.0
        &&& gs[g].title@ == m.1
        &&& gs[g].category@ == m.2
        &&& match gs[g].description {
            Some(d) => m.3 == Some(d@),
            None => m.3 is None,
        }
        &&& displays_all(group_issues(issues, set, g), gs[g].issues@)
    }
}

/// The groups of set `set`.
fn build_groups(issues: &[&Issue], set: u8) -> (res: Vec<IssueGroup>)
    requires
        set <= 2,
    ensures
        groups_ok(derefs(issues@), set as int, res@),
{
    let count: usize = if set == 0 {
        7
    } else if set == 1 {
        10
    } else {
        14
    };
    let mut out: Vec<IssueGroup> = Vec::new();
    let mut g: usize = 0;
    while g < count
        invariant
            set <= 2,
            count == group_count(set as int),
            g <= count,
            out@.len() == g,
            forall|q: int| 0 <= q < g ==> {
                let m = group_meta(set as int, q);
                &&& (#[trigger] out@[q]).icon@ == m.0
                &&& out@[q].title@ == m.1
                &&& out@[q].category@ == m.2
                &&& match out@[q].description {
                    Some(d) => m.3 == Some(d@),
                    None => m.3 is None,
                }
                &&& displays_all(group_issues(derefs(issues@), set as int, q), out@[q].issues@)
            },
        decreases count - g,
    {
        let (icon, title, category, description) = group_meta_of(set, g);
        let members = collect_group(issues, set, g);
        out.push(IssueGroup { icon, title, category, description, issues: members });
        g = g + 1;
    }
    out
}

/// The groups of error issues: communication, database, Kafka, generation,
/// imports, missing schemas and the rest.
pub fn build_error_groups(errors: &[&Issue]) -> (res: Vec<IssueGroup>)
    ensures
        groups_ok(derefs(errors@), 0, res@),
{
    build_groups(errors, 0)
}

/// The groups of warnings.
pub fn build_warning_groups(warnings: &[&Issue]) -> (res: Vec<IssueGroup>)
    ensures
        groups_ok(derefs(warnings@), 1, res@),
{
    build_groups(warnings, 1)
}

/// The groups of informational issues.
pub fn build_info_groups(infos: &[&Issue]) -> (res: Vec<IssueGroup>)
    ensures
        groups_ok(derefs(infos@), 2, res@),
{
    build_groups(infos, 2)
}

// ---------------------------------------------------------------------------
// Dashboard cards
// ---------------------------------------------------------------------------

/// A card as value, label and class.
pub open spec fn card_view(c: StatCard) -> (Seq<char>, Seq<char>, Seq<char>) {
    (c.value@, c.label@, c.class@)
}

/// A card shown only when its number is not zero.
pub open spec fn card_if(n: usize, label: Seq<char>, class: Seq<char>) -> Seq<(Seq<char>, Seq<char>, Seq<char>)> {
    if n > 0 {
        seq![(decimal(n as nat), label, class)]
    } else {
        Seq::empty()
    }
}

/// The dashboard cards: errors, warnings and infos always; the secondary
/// counters when not zero; the duration last.
pub open spec fn stats_cards(st: Stats, errors: usize, warnings: usize, infos: usize) -> Seq<(Seq<char>, Seq<char>, Seq<char>)> {
    seq![
        (decimal(errors as nat), "Errors"@, if errors == 0 { " success"@ } else { " error"@ }),
        (decimal(warnings as nat), "Warnings"@, if warnings == 0 { " success"@ } else { " warning"@ }),
        (decimal(infos as nat), "Info"@, ""@),
    ] + card_if(st.communication_violations, "Comm Violations"@, " error"@)
        + card_if(st.database_issues, "Database Issues"@, " warning"@)
        + card_if(st.kafka_issues, "Kafka Issues"@, " warning"@)
        + card_if(st.entity_candidates, "Entities"@, ""@)
        + card_if(st.orphan_schemas, "Orphan Schemas"@, " warning"@)
        + card_if(st.orphans_connect_graph, "Need Graph Link"@, ""@)
        + card_if(st.orphans_delete, "Safe to Delete"@, " warning"@)
        + card_if(st.missing_json_schemas, "Missing Schemas"@, " warning"@)
        + card_if(st.isolated_schemas, "Isolated Types"@, " warning"@)
        + seq![(decimal(st.duration_ms as nat) + "ms"@, "Duration"@, ""@)]
}

/// The views of a list of cards.
pub open spec fn cards_view(cs: Seq<StatCard>) -> Seq<(Seq<char>, Seq<char>, Seq<char>)> {
    cs.map_values(|c: StatCard| card_view(c))
}

/// Appends a card when its number is not zero.
fn push_card_if(cards: &mut Vec<StatCard>, n: usize, label: &'static str, class: &'static str)
    ensures
        cards_view(final(cards)@) == cards_view(old(cards)@) + card_if(n, label@, class@),
{
    let ghost before = cards_view(cards@);
    if n > 0 {
        cards.push(StatCard { value: usize_to_string(n), label, class });
        proof {
            assert(cards_view(cards@) =~= before + card_if(n, label@, class@));
        }
    } else {
        proof {
            assert(cards_view(cards@) =~= before + card_if(n, label@, class@));
        }
    }
}

/// The dashboard cards for the statistics and the issue counts.
pub fn build_stats_cards(stats: &Stats, errors: usize, warnings: usize, infos: usize) -> (res: Vec<StatCard>)
    ensures
        cards_view(res@) == stats_cards(*stats, errors, warnings, infos),
{
    let mut cards: Vec<StatCard> = Vec::new();
    cards.push(StatCard {
        value: usize_to_string(errors),
        label: "Errors",
        class: if errors == 0 { " success" } else { " error" },
    });
    cards.push(StatCard {
        value: usize_to_string(warnings),
        label: "Warnings",
        class: if warnings == 0 { " success" } else { " warning" },
    });
    cards.push(StatCard { value: usize_to_string(infos), label: "Info", class: "" });
    proof {
        assert(cards_view(cards@) =~= seq![
            (decimal(errors as nat), "Errors"@, if errors == 0 { " success"@ } else { " error"@ }),
            (decimal(warnings as nat), "Warnings"@, if warnings == 0 { " success"@ } else { " warning"@ }),
            (decimal(infos as nat), "Info"@, ""@),
        ]);
    }
    push_card_if(&mut cards, stats.communication_violations, "Comm Violations", " error");
    push_card_if(&mut cards, stats.database_issues, "Database Issues", " warning");
    push_card_if(&mut cards, stats.kafka_issues, "Kafka Issues", " warning");
    push_card_if(&mut cards, stats.entity_candidates, "Entities", "");
    push_card_if(&mut cards, stats.orphan_schemas, "Orphan Schemas", " warning");
    push_card_if(&mut cards, stats.orphans_connect_graph, "Need Graph Link", "");
    push_card_if(&mut cards, stats.orphans_delete, "Safe to Delete", " warning");
    push_card_if(&mut cards, stats.missing_json_schemas, "Missing Schemas", " warning");
    push_card_if(&mut cards, stats.isolated_schemas, "Isolated Types", " warning");
    let ghost before = cards_view(cards@);
    let mut d = u64_to_string(stats.duration_ms);
    d.append("ms");
    cards.push(StatCard { value: d, label: "Duration", class: "" });
    proof {
        assert(cards_view(cards@) =~= before + seq![(decimal(stats.duration_ms as nat) + "ms"@, "Duration"@, ""@)]);
    }
    cards
}

// ---------------------------------------------------------------------------
// Tabs
// ---------------------------------------------------------------------------

/// The issues of one part of the codebase, by severity and group.
#[derive(Debug, Clone)]
pub struct TabData {
    pub name: &'static str,
    pub icon: &'static str,
    pub description: &'static str,
    pub error_count: usize,
    pub warning_count: usize,
    pub info_count: usize,
    pub errors: Vec<DisplayIssue>,
    pub warnings: Vec<DisplayIssue>,
    pub infos: Vec<DisplayIssue>,
    pub error_groups: Vec<IssueGroup>,
    pub warning_groups: Vec<IssueGroup>,
    pub info_groups: Vec<IssueGroup>,
}

/// The issues of severity `sev`, in order.
pub open spec fn of_severity(issues: Seq<Issue>, sev: Severity) -> Seq<Issue>
    decreases issues.len(),
{
    if issues.len() == 0 {
        Seq::empty()
    } else if issues.last().severity == sev {
        of_severity(issues.drop_last(), sev).push(issues.last())
    } else {
        of_severity(issues.drop_last(), sev)
    }
}

/// `t` is the tab for `issues`.
pub open spec fn tab_ok(t: TabData, name: Seq<char>, icon: Seq<char>, description: Seq<char>, issues: Seq<Issue>) -> bool {
    let es = of_severity(issues, Severity::Error);
    let ws = of_severity(issues, Severity::Warning);
    let is = of_severity(issues, Severity::Info);
    &&& t.name@ == name && t.icon@ == icon && t.description@ == description
    &&& t.error_count == es.len() && t.warning_count == ws.len() && t.info_count == is.len()
    &&& displays_all(es, t.errors@) && displays_all(ws, t.warnings@) && displays_all(is, t.infos@)
    &&& groups_ok(es, 0, t.error_groups@) && groups_ok(ws, 1, t.warning_groups@) && groups_ok(is, 2, t.info_groups@)
}

/// The issues of severity `sev`.
fn select_severity<'a>(issues: &[&'a Issue], sev: Severity) -> (res: Vec<&'a Issue>)
    ensures
        derefs(res@) == of_severity(derefs(issues@), sev),
{
    let mut out: Vec<&Issue> = Vec::new();
    let mut i: usize = 0;
    while i < issues.len()
        invariant
            i <= issues.len(),
            derefs(out@) == of_severity(derefs(issues@.take(i as int)), sev),
        decreases issues.len() - i,
    {
        proof {
            let t = derefs(issues@.take(i as int + 1));
            assert(t.drop_last() =~= derefs(issues@.take(i as int)));
            assert(t.last() == *issues@[i as int]);
        }
        let ghost before = derefs(out@);
        if issues[i].severity == sev {
            out.push(issues[i]);
            proof {
                assert(derefs(out@) =~= before.push(*issues@[i as int]));
            }
        }
        i = i + 1;
    }
    proof {
        assert(issues@.take(issues@.len() as int) =~= issues@);
    }
    out
}

/// The displayed issues.
fn display_all(issues: &Vec<&Issue>) -> (res: Vec<DisplayIssue>)
    ensures
        displays_all(derefs(issues@), res@),
{
    let mut out: Vec<DisplayIssue> = Vec::new();
    let mut i: usize = 0;
    while i < issues.len()
        invariant
            i <= issues.len(),
            out@.len() == i,
            forall|k: int| 0 <= k < i ==> displays(*issues@[k], #[trigger] out@[k]),
        decreases issues.len() - i,
    {
        out.push(to_display_issue(issues[i]));
        i = i + 1;
    }
    out
}

/// The tab for a part of the codebase.
pub fn build_tab_data(name: &'static str, icon: &'static str, description: &'static str, issues: &[&Issue]) -> (res: TabData)
    ensures
        tab_ok(res, name@, icon@, description@, derefs(issues@)),
{
    let errors = select_severity(issues, Severity::Error);
    let warnings = select_severity(issues, Severity::Warning);
    let infos = select_severity(issues, Severity::Info);
    TabData {
        name,
        icon,
        description,
        error_count: errors.len(),
        warning_count: warnings.len(),
        info_count: infos.len(),
        errors: display_all(&errors),
        warnings: display_all(&warnings),
        infos: display_all(&infos),
        error_groups: build_error_groups(errors.as_slice()),
        warning_groups: build_warning_groups(warnings.as_slice()),
        info_groups: build_info_groups(infos.as_slice()),
    }
}

// ---------------------------------------------------------------------------
// Text helpers
// ---------------------------------------------------------------------------

/// `s` with every occurrence of the non-empty `p`, scanned left to right
/// without overlaps, replaced by `r` (std's `str::replace`).
pub open spec fn replaced(s: Seq<char>, p: Seq<char>, r: Seq<char>) -> Seq<char>
    decreases s.len(),
{
    if s.len() == 0 {
        Seq::empty()
    } else if p.len() > 0 && crate::text::starts_with_spec(s, p) {
        r + replaced(s.skip(p.len() as int), p, r)
    } else {
        seq![s[0]] + replaced(s.skip(1), p, r)
    }
}

/// Replaces every occurrence of the non-empty `p` by `r`.
pub fn replace_all(s: &str, p: &str, r: &str) -> (res: String)
    requires
        p@.len() > 0,
    ensures
        res@ == replaced(s@, p@, r@),
{
    let v = chars_of(s);
    let pv = chars_of(p);
    let mut out = String::new();
    let mut i: usize = 0;
    assert(v@.skip(0) =~= v@);
    while i < v.len()
        invariant
            v@ == s@,
            pv@ == p@,
            p@.len() > 0,
            i <= v.len(),
            out@ + replaced(v@.skip(i as int), p@, r@) == replaced(s@, p@, r@),
        decreases v.len() - i,
    {
        let rest = crate::text::sub_chars(&v, i, v.len());
        proof {
            assert(rest@ =~= v@.skip(i as int));
        }
        if crate::text::starts_with(&rest, &pv) {
            out.append(r);
            proof {
                assert(v@.skip(i as int).skip(p@.len() as int) =~= v@.skip(i + p@.len()));
                assert(out@ + replaced(v@.skip(i + p@.len()), p@, r@) == replaced(s@, p@, r@));
            }
            i = i + pv.len();
        } else {
            crate::text::push_char(&mut out, v[i]);
            proof {
                assert(v@.skip(i as int).skip(1) =~= v@.skip(i + 1));
                assert(v@.skip(i as int)[0] == v@[i as int]);
                assert(out@ + replaced(v@.skip(i + 1), p@, r@) =~= replaced(s@, p@, r@));
            }
            i = i + 1;
        }
    }
    proof {
        assert(v@.skip(i as int) =~= Seq::<char>::empty());
        assert(out@ + Seq::<char>::empty() =~= out@);
    }
    out
}

/// The JSON text escaped for a JavaScript template literal: backslashes,
/// backticks and `${` get a backslash in front.
pub open spec fn escape_for_template(s: Seq<char>) -> Seq<char> {
    replaced(replaced(replaced(s, "\\"@, "\\\\"@), "`"@, "\\`"@), "${"@, "\\${"@)
}

/// Whether a file belongs to the core libraries (the source of truth).
pub open spec fn core_file(path: Seq<char>) -> bool {
    contains_seq_spec(path, "/familiar-core/"@) || contains_seq_spec(path, "/familiar-contracts/"@)
        || contains_seq_spec(path, "/familiar-primitives/"@)
}

/// Whether a file belongs to the core libraries.
pub fn is_core_file(path: &str) -> (res: bool)
    ensures
        res == core_file(path@),
{
    let v = chars_of(path);
    crate::text::chars_have(&v, "/familiar-core/") || crate::text::chars_have(&v, "/familiar-contracts/")
        || crate::text::chars_have(&v, "/familiar-primitives/")
}

// ---------------------------------------------------------------------------
// Timestamps
// ---------------------------------------------------------------------------

/// Whether `y` is a leap year.
pub open spec fn is_leap(y: int) -> bool {
    (y % 4 == 0 && y % 100 != 0) || y % 400 == 0
}

/// The number of days of year `y`.
pub open spec fn year_days(y: int) -> int {
    if is_leap(y) {
        366
    } else {
        365
    }
}

/// The year and day of that year reached `d` days after the start of year `y`.
pub open spec fn year_and_day(y: int, d: int) -> (int, int)
    decreases d,
{
    if d < year_days(y) {
        (y, d)
    } else {
        year_and_day(y + 1, d - year_days(y))
    }
}

/// The number of days of month `m` (1 to 12).
pub open spec fn month_days(leap: bool, m: int) -> int {
    if m == 2 {
        if leap {
            29
        } else {
            28
        }
    } else if m == 4 || m == 6 || m == 9 || m == 11 {
        30
    } else {
        31
    }
}

/// The month and day of that month reached `d` days after the start of month `m`.
pub open spec fn month_and_day(leap: bool, m: int, d: int) -> (int, int)
    decreases 13 - m,
{
    if m > 12 || d < month_days(leap, m) {
        (m, d)
    } else {
        month_and_day(leap, m + 1, d - month_days(leap, m))
    }
}

/// `n` in decimal, with zeros in front up to `w` digits.
pub open spec fn padded(n: nat, w: nat) -> Seq<char> {
    let d = decimal(n);
    if d.len() < w {
        Seq::new((w - d.len()) as nat, |i: int| '0') + d
    } else {
        d
    }
}

/// The UTC date and time `secs` seconds after the Unix epoch, as
/// `YYYY-MM-DD HH:MM:SS UTC`.
pub open spec fn utc_text(secs: nat) -> Seq<char> {
    let days = secs / 86400;
    let rem = secs % 86400;
    let (year, yday) = year_and_day(1970, days as int);
    let (month, mday) = month_and_day(is_leap(year), 1, yday);
    padded(year as nat, 4) + "-"@ + padded(month as nat, 2) + "-"@ + padded((mday + 1) as nat, 2) + " "@
        + padded(rem / 3600, 2) + ":"@ + padded((rem % 3600) / 60, 2) + ":"@ + padded(rem % 60, 2) + " UTC"@
}

/// `n` in decimal, with zeros in front up to `width` digits.
fn pad_num(n: u64, width: usize) -> (res: String)
    ensures
        res@ == padded(n as nat, width as nat),
{
    let d = u64_to_string(n);
    let dl = chars_of(d.as_str()).len();
    if dl < width {
        let mut out = String::new();
        let mut k: usize = 0;
        while k < width - dl
            invariant
                k <= width - dl,
                out@ == Seq::new(k as nat, |i: int| '0'),
            decreases width - dl - k,
        {
            crate::text::push_char(&mut out, '0');
            proof {
                assert(out@ =~= Seq::new((k + 1) as nat, |i: int| '0'));
            }
            k = k + 1;
        }
        out.append(d.as_str());
        out
    } else {
        d
    }
}

/// The UTC date and time `secs` seconds after the Unix epoch, as
/// `YYYY-MM-DD HH:MM:SS UTC`.
pub fn format_utc_timestamp(secs: u64) -> (res: String)
    ensures
        res@ == utc_text(secs as nat),
{
    let days = secs / 86400;
    let rem = secs % 86400;
    let hours = rem / 3600;
    let mins = (rem % 3600) / 60;
    let secs_of_day = rem % 60;
    let mut year: u64 = 1970;
    let mut remaining: u64 = days;
    loop
        invariant
            year_and_day(1970, days as int) == year_and_day(year as int, remaining as int),
            year >= 1970,
            year - 1970 <= days - remaining,
            remaining <= days,
            days == secs / 86400,
        ensures
            year_and_day(1970, days as int) == year_and_day(year as int, remaining as int),
            remaining < year_days(year as int),
            year >= 1970,
            year - 1970 <= days - remaining,
        decreases remaining,
    {
        let leap = (year % 4 == 0 && year % 100 != 0) || year % 400 == 0;
        let days_in_year: u64 = if leap { 366 } else { 365 };
        if remaining < days_in_year {
            break;
        }
        remaining = remaining - days_in_year;
        year = year + 1;
    }
    let leap = (year % 4 == 0 && year % 100 != 0) || year % 400 == 0;
    proof {
        assert(leap == is_leap(year as int));
        assert(year_and_day(year as int, remaining as int) == (year as int, remaining as int));
    }
    let ghost yday = remaining as int;
    let mut month: u64 = 1;
    loop
        invariant
            1 <= month <= 13,
            remaining <= 366,
            month_and_day(leap, 1, yday) == month_and_day(leap, month as int, remaining as int),
        ensures
            month_and_day(leap, 1, yday) == month_and_day(leap, month as int, remaining as int),
            month > 12 || remaining < month_days(leap, month as int),
        decreases 13 - month,
    {
        if month > 12 {
            break;
        }
        let dim: u64 = if month == 2 {
            if leap { 29 } else { 28 }
        } else if month == 4 || month == 6 || month == 9 || month == 11 {
            30
        } else {
            31
        };
        if remaining < dim {
            break;
        }
        remaining = remaining - dim;
        month = month + 1;
    }
    proof {
        assert(month_and_day(leap, month as int, remaining as int) == (month as int, remaining as int));
    }
    let mut out = pad_num(year, 4);
    out.append("-");
    let m = pad_num(month, 2);
    out.append(m.as_str());
    out.append("-");
    let d = pad_num(remaining + 1, 2);
    out.append(d.as_str());
    out.append(" ");
    let h = pad_num(hours, 2);
    out.append(h.as_str());
    out.append(":");
    let mi = pad_num(mins, 2);
    out.append(mi.as_str());
    out.append(":");
    let se = pad_num(secs_of_day, 2);
    out.append(se.as_str());
    out.append(" UTC");
    out
}

/// The seconds since the Unix epoch on the system clock (std's
/// `SystemTime::now` and `duration_since`; 0 before the epoch). Nothing is
/// stated of the value.
#[verifier::external_body]
fn unix_now_secs() -> (secs: u64) {
    std::time::SystemTime::now().duration_since(std::time::UNIX_EPOCH).unwrap_or_default().as_secs()
}

/// The current UTC date and time as `YYYY-MM-DD HH:MM:SS UTC`.
pub fn chrono_lite_now() -> (res: String)
    ensures
        exists|secs: u64| res@ == #[trigger] utc_text(secs as nat),
{
    let secs = unix_now_secs();
    format_utc_timestamp(secs)
}

// ---------------------------------------------------------------------------
// The HTML report's data
// ---------------------------------------------------------------------------

/// What the HTML report shows: a timestamp, the dashboard cards, a tab for
/// the core libraries and one for the services, and the escaped JSON report.
#[derive(Debug, Clone)]
pub struct HtmlReport {
    pub timestamp: String,
    pub stats_cards: Vec<StatCard>,
    pub core_tab: TabData,
    pub services_tab: TabData,
    pub escaped_json: String,
}

/// The issues in core files (`core`) or in the other files, in order.
pub open spec fn part(issues: Seq<Issue>, core: bool) -> Seq<Issue>
    decreases issues.len(),
{
    if issues.len() == 0 {
        Seq::empty()
    } else if core_file(issues.last().file@) == core {
        part(issues.drop_last(), core).push(issues.last())
    } else {
        part(issues.drop_last(), core)
    }
}

proof fn lemma_part_counts(issues: Seq<Issue>, sev: Severity)
    ensures
        of_severity(part(issues, true), sev).len() + of_severity(part(issues, false), sev).len() == of_severity(issues, sev).len(),
        of_severity(issues, sev).len() <= issues.len(),
    decreases issues.len(),
{
    if issues.len() > 0 {
        let d = issues.drop_last();
        let l = issues.last();
        lemma_part_counts(d, sev);
        let pt = part(d, true);
        let pf = part(d, false);
        assert(pt.push(l).drop_last() =~= pt);
        assert(pf.push(l).drop_last() =~= pf);
        assert(pt.push(l).last() == l);
        assert(pf.push(l).last() == l);
    }
}

impl HtmlReport {
    /// The report's data for an analysis and its JSON text.
    pub fn from_analysis(report: &AnalysisReport, json_content: &str) -> (res: HtmlReport)
        ensures
            tab_ok(
                res.core_tab,
                "Core"@,
                "📦"@,
                "familiar-core, familiar-contracts, familiar-primitives - Source of truth"@,
                part(report.issues@, true),
            ),
            tab_ok(
                res.services_tab,
                "Services"@,
                "🚀"@,
                "familiar-api, familiar-worker, windmill - Consumers of core"@,
                part(report.issues@, false),
            ),
            res.escaped_json@ == escape_for_template(json_content@),
            cards_view(res.stats_cards@) == stats_cards(
                report.stats,
                of_severity(report.issues@, Severity::Error).len() as usize,
                of_severity(report.issues@, Severity::Warning).len() as usize,
                of_severity(report.issues@, Severity::Info).len() as usize,
            ),
            exists|secs: u64| res.timestamp@ == #[trigger] utc_text(secs as nat),
    {
        let mut core: Vec<&Issue> = Vec::new();
        let mut services: Vec<&Issue> = Vec::new();
        let mut i: usize = 0;
        while i < report.issues.len()
            invariant
                i <= report.issues.len(),
                derefs(core@) == part(report.issues@.take(i as int), true),
                derefs(services@) == part(report.issues@.take(i as int), false),
            decreases report.issues.len() - i,
        {
            proof {
                let t = report.issues@.take(i as int + 1);
                assert(t.drop_last() =~= report.issues@.take(i as int));
                assert(t.last() == report.issues@[i as int]);
            }
            let issue = &report.issues[i];
            let ghost bc = derefs(core@);
            let ghost bs = derefs(services@);
            if is_core_file(issue.file.as_str()) {
                core.push(issue);
                proof {
                    assert(derefs(core@) =~= bc.push(*issue));
                }
            } else {
                services.push(issue);
                proof {
                    assert(derefs(services@) =~= bs.push(*issue));
                }
            }
            i = i + 1;
        }
        proof {
            assert(report.issues@.take(report.issues@.len() as int) =~= report.issues@);
        }
        let core_tab = build_tab_data(
            "Core",
            "📦",
            "familiar-core, familiar-contracts, familiar-primitives - Source of truth",
            core.as_slice(),
        );
        let services_tab = build_tab_data(
            "Services",
            "🚀",
            "familiar-api, familiar-worker, windmill - Consumers of core",
            services.as_slice(),
        );
        proof {
            reveal_strlit("\\");
            reveal_strlit("`");
            reveal_strlit("${");
        }
        let e1 = replace_all(json_content, "\\", "\\\\");
        let e2 = replace_all(e1.as_str(), "`", "\\`");
        let escaped_json = replace_all(e2.as_str(), "${", "\\${");
        proof {
            lemma_part_counts(report.issues@, Severity::Error);
            lemma_part_counts(report.issues@, Severity::Warning);
            lemma_part_counts(report.issues@, Severity::Info);
        }
        let total_errors = core_tab.error_count + services_tab.error_count;
        let total_warnings = core_tab.warning_count + services_tab.warning_count;
        let total_infos = core_tab.info_count + services_tab.info_count;
        let stats_cards = build_stats_cards(&report.stats, total_errors, total_warnings, total_infos);
        HtmlReport { timestamp: chrono_lite_now(), stats_cards, core_tab, services_tab, escaped_json }
    }
}

// ---------------------------------------------------------------------------
// Text report
// ---------------------------------------------------------------------------

/// A row of the statistics table.
#[derive(Debug, Clone)]
pub struct StatsRow {
    pub metric: &'static str,
    pub value: String,
}

/// A row of an issue table.
#[derive(Debug, Clone)]
pub struct IssueRow {
    pub file: String,
    pub line: String,
    pub message: String,
}

/// Whether `b` bytes into `s` is the end of a character.
pub open spec fn byte_boundary(s: Seq<char>, b: nat) -> bool {
    exists|k: int| 0 <= k <= s.len() && prefix_bytes(s, k) == b
}

/// The number of characters whose encoding takes the first `b` bytes.
pub open spec fn chars_in_bytes(s: Seq<char>, b: nat) -> int {
    choose|k: int| 0 <= k <= s.len() && prefix_bytes(s, k) == b
}

/// Whether `truncate_str` and `truncate_path` can cut `s` to `max_len` bytes:
/// nothing to cut, or the cut falls between characters.
pub open spec fn cut_ok(s: Seq<char>, max_len: nat, from_end: bool) -> bool {
    crate::primitives::utf8_len(s) > max_len ==> max_len >= 3 && byte_boundary(
        s,
        if from_end { (crate::primitives::utf8_len(s) - max_len + 3) as nat } else { (max_len - 3) as nat },
    )
}

/// `s` cut to `max_len` bytes: as it is when short enough, else its first
/// `max_len - 3` bytes followed by `...`.
pub open spec fn truncated(s: Seq<char>, max_len: nat) -> Seq<char> {
    if crate::primitives::utf8_len(s) <= max_len {
        s
    } else {
        s.take(chars_in_bytes(s, (max_len - 3) as nat)) + "..."@
    }
}

/// A path cut to `max_len` bytes: as it is when short enough, else `...`
/// followed by its last `max_len - 3` bytes.
pub open spec fn truncated_path(s: Seq<char>, max_len: nat) -> Seq<char> {
    if crate::primitives::utf8_len(s) <= max_len {
        s
    } else {
        "..."@ + s.skip(chars_in_bytes(s, (crate::primitives::utf8_len(s) - max_len + 3) as nat))
    }
}

/// The number of characters whose encoding takes the first `b` bytes of `v`,
/// when `b` bytes end a character.
fn chars_for_bytes(v: &Vec<char>, b: usize) -> (res: usize)
    requires
        byte_boundary(v@, b as nat),
    ensures
        res == chars_in_bytes(v@, b as nat),
        res <= v@.len(),
        prefix_bytes(v@, res as int) == b,
{
    let ghost k0 = chars_in_bytes(v@, b as nat);
    let mut k: usize = 0;
    let mut acc: usize = 0;
    proof {
        assert(v@.take(0) =~= Seq::<char>::empty());
        assert(prefix_bytes(v@, 0) == 0);
        if k0 > 0 {
            lemma_prefix_bytes_mono(v@, 0, k0);
        }
    }
    while acc < b
        invariant
            0 <= k0 <= v@.len(),
            v@.len() == v.len(),
            prefix_bytes(v@, k0) == b,
            k <= k0,
            acc == prefix_bytes(v@, k as int),
            acc <= b,
        decreases b - acc,
    {
        proof {
            if k == k0 {
                assert(false);
            }
            lemma_prefix_bytes_step(v@, k as int);
            if k + 1 < k0 {
                lemma_prefix_bytes_mono(v@, k + 1, k0);
            }
        }
        acc = acc + char_utf8_width(v[k]);
        k = k + 1;
    }
    proof {
        if k < k0 {
            lemma_prefix_bytes_mono(v@, k as int, k0);
        }
    }
    k
}

/// `s` cut to `max_len` bytes, with `...` at the end when cut.
pub fn truncate_str(s: &str, max_len: usize) -> (res: String)
    requires
        cut_ok(s@, max_len as nat, false),
    ensures
        res@ == truncated(s@, max_len as nat),
{
    let blen = crate::text::str_byte_len(s);
    if blen <= max_len {
        owned(s)
    } else {
        let v = chars_of(s);
        let k = chars_for_bytes(&v, max_len - 3);
        let mut out = crate::text::string_from_chars(&crate::text::sub_chars(&v, 0, k));
        out.append("...");
        proof {
            assert(v@.subrange(0, k as int) =~= v@.take(k as int));
        }
        out
    }
}

/// A path cut to `max_len` bytes, keeping its end, with `...` in front when cut.
pub fn truncate_path(s: &str, max_len: usize) -> (res: String)
    requires
        cut_ok(s@, max_len as nat, true),
    ensures
        res@ == truncated_path(s@, max_len as nat),
{
    let blen = crate::text::str_byte_len(s);
    if blen <= max_len {
        owned(s)
    } else {
        let v = chars_of(s);
        let k = chars_for_bytes(&v, blen - max_len + 3);
        let mut out = owned("...");
        let tail = crate::text::string_from_chars(&crate::text::sub_chars(&v, k, v.len()));
        out.append(tail.as_str());
        proof {
            assert(v@.subrange(k as int, v@.len() as int) =~= v@.skip(k as int));
        }
        out
    }
}

/// Whether an issue's row can be made: its file and message can be cut.
pub open spec fn row_ok(i: Issue) -> bool {
    cut_ok(i.file@, 50, true) && cut_ok(i.message@, 60, false)
}

/// The cells of an issue's row: its file cut to 50 bytes, its line, its
/// message cut to 60 bytes.
pub open spec fn row_cells(i: Issue) -> Seq<Seq<char>> {
    seq![truncated_path(i.file@, 50), decimal(i.line as nat), truncated(i.message@, 60)]
}

impl IssueRow {
    /// The table row for an issue.
    pub fn from_issue(issue: &Issue) -> (res: IssueRow)
        requires
            row_ok(*issue),
        ensures
            seq![res.file@, res.line@, res.message@] == row_cells(*issue),
    {
        IssueRow {
            file: truncate_path(issue.file.as_str(), 50),
            line: usize_to_string(issue.line),
            message: truncate_str(issue.message.as_str(), 60),
        }
    }
}

/// The text of a table with rounded borders, its first row the header, as
/// `tabled` draws it.
pub uninterp spec fn rounded_table(cells: Seq<Seq<Seq<char>>>) -> Seq<char>;

/// The cells as character sequences.
pub open spec fn cells_view(cells: Seq<Vec<String>>) -> Seq<Seq<Seq<char>>> {
    cells.map_values(|row: Vec<String>| row@.map_values(|c: String| c@))
}

/// `tabled`'s `Builder` with `Style::rounded()`: draws the rows, the first
/// being the header, as a table with rounded borders.
#[verifier::external_body]
fn render_rounded_table(cells: Vec<Vec<String>>) -> (res: String)
    ensures
        res@ == rounded_table(cells_view(cells@)),
{
    Builder::from(cells).build().with(Style::rounded()).to_string()
}

/// The issue selections of the text report: communication errors (0), other
/// errors (1), OpenAPI gaps (2), raw primitives (3), systems (4), laws (5),
/// entity candidates (6).
pub open spec fn kind_sel(sel: int, k: IssueKind) -> bool {
    if sel == 0 {
        is_comm(k)
    } else if sel == 1 {
        !is_comm(k)
    } else if sel == 2 {
        k is MissingOpenApiDerive
    } else if sel == 3 {
        k is RawPrimitive
    } else if sel == 4 {
        k is SuggestSystem
    } else if sel == 5 {
        k is SuggestLaw
    } else {
        k is SuggestEntity
    }
}

/// The selected issues, in order.
pub open spec fn selected(is: Seq<Issue>, sel: int) -> Seq<Issue>
    decreases is.len(),
{
    if is.len() == 0 {
        Seq::empty()
    } else if kind_sel(sel, is.last().kind) {
        selected(is.drop_last(), sel).push(is.last())
    } else {
        selected(is.drop_last(), sel)
    }
}

/// The issues a section shows: all, or at most 20 when limited.
pub open spec fn shown(is: Seq<Issue>, limited: bool) -> Seq<Issue> {
    if limited && is.len() > 20 {
        is.take(20)
    } else {
        is
    }
}

/// The table of issues: a header, then one row per issue.
pub open spec fn issue_table_text(is: Seq<Issue>) -> Seq<char> {
    rounded_table(seq![seq!["File"@, "Line"@, "Message"@]] + is.map_values(|i: Issue| row_cells(i)))
}

/// A section of the text report: nothing when there are no issues, else its
/// title with the count, the table, a note of the rest when limited to 20.
pub open spec fn section_text(title: Seq<char>, is: Seq<Issue>, limited: bool) -> Seq<char> {
    if is.len() == 0 {
        Seq::empty()
    } else {
        "\n"@ + title + " ("@ + decimal(is.len()) + ")\n"@ + issue_table_text(shown(is, limited)) + (if limited && is.len() > 20 {
            "\n... and "@ + decimal((is.len() - 20) as nat) + " more\n"@
        } else {
            Seq::empty()
        }) + "\n"@
    }
}

/// Whether every row a section shows can be made.
pub open spec fn section_ok(is: Seq<Issue>, limited: bool) -> bool {
    forall|k: int| 0 <= k < shown(is, limited).len() ==> row_ok(#[trigger] shown(is, limited)[k])
}

/// A rule of sixty box-drawing dashes.
pub open spec fn rule_text() -> Seq<char> {
    Seq::new(60, |i: int| '─')
}

/// The rows of the statistics table.
pub open spec fn stats_rows(st: Stats, e: nat, w: nat, i: nat) -> Seq<Seq<Seq<char>>> {
    seq![seq!["Metric"@, "Value"@], seq!["Errors"@, decimal(e)], seq!["Warnings"@, decimal(w)], seq!["Info"@, decimal(i)]]
        + (if st.communication_violations > 0 { seq![seq!["Comm Violations"@, decimal(st.communication_violations as nat)]] } else { Seq::empty() })
        + (if st.database_issues > 0 { seq![seq!["Database Issues"@, decimal(st.database_issues as nat)]] } else { Seq::empty() })
        + (if st.kafka_issues > 0 { seq![seq!["Kafka Issues"@, decimal(st.kafka_issues as nat)]] } else { Seq::empty() })
        + (if st.entity_candidates > 0 { seq![seq!["Entities"@, decimal(st.entity_candidates as nat)]] } else { Seq::empty() })
        + seq![seq!["Duration"@, decimal(st.duration_ms as nat) + "ms"@]]
}

/// The errors part of the text report.
pub open spec fn error_block(errs: Seq<Issue>) -> Seq<char> {
    if errs.len() > 0 {
        "\n"@ + "🔴 ERRORS"@ + " ("@ + decimal(errs.len()) + ")\n"@ + rule_text() + "\n"@
            + section_text("🔌 Communication Violations"@, selected(errs, 0), false)
            + section_text("❓ Other Errors"@, selected(errs, 1), false)
    } else {
        Seq::empty()
    }
}

/// The warnings part of the text report.
pub open spec fn warning_block(warns: Seq<Issue>) -> Seq<char> {
    if warns.len() > 0 {
        "\n"@ + "🟡 WARNINGS"@ + " ("@ + decimal(warns.len()) + ")\n"@ + rule_text() + "\n"@
            + section_text("📖 OpenAPI Gaps"@, selected(warns, 2), true)
            + section_text("🔢 Raw Primitives"@, selected(warns, 3), true)
    } else {
        Seq::empty()
    }
}

/// The infos part of the text report.
pub open spec fn info_block(infos: Seq<Issue>) -> Seq<char> {
    if infos.len() > 0 {
        "\n"@ + "🔵 INFO & SUGGESTIONS"@ + " ("@ + decimal(infos.len()) + ")\n"@ + rule_text() + "\n"@
            + section_text("⚙️ ECS Systems"@, selected(infos, 4), false)
            + section_text("⚖️ Laws"@, selected(infos, 5), false)
            + section_text("🗄️ Entity Candidates"@, selected(infos, 6), true)
    } else {
        Seq::empty()
    }
}

/// The text report, generated at `now`: the statistics table, then the errors,
/// warnings and infos, each under a heading and in their sections.
pub open spec fn text_report(r: AnalysisReport, now: Seq<char>) -> Seq<char> {
    let errs = of_severity(r.issues@, Severity::Error);
    let warns = of_severity(r.issues@, Severity::Warning);
    let infos = of_severity(r.issues@, Severity::Info);
    "Schema Analysis Report\n"@ + "======================\n\n"@ + "Generated: "@ + now + "\n\n"@
        + rounded_table(stats_rows(r.stats, errs.len(), warns.len(), infos.len())) + "\n\n"@
        + error_block(errs) + warning_block(warns) + info_block(infos)
}

/// Whether every row the text report shows can be made.
pub open spec fn text_report_ok(r: AnalysisReport) -> bool {
    let errs = of_severity(r.issues@, Severity::Error);
    let warns = of_severity(r.issues@, Severity::Warning);
    let infos = of_severity(r.issues@, Severity::Info);
    &&& section_ok(selected(errs, 0), false) && section_ok(selected(errs, 1), false)
    &&& section_ok(selected(warns, 2), true) && section_ok(selected(warns, 3), true)
    &&& section_ok(selected(infos, 4), false) && section_ok(selected(infos, 5), false) && section_ok(selected(infos, 6), true)
}

/// Whether the kind is in selection `sel`.
fn kind_selected(sel: u8, k: &IssueKind) -> (res: bool)
    ensures
        res == kind_sel(sel as int, *k),
{
    let comm = match k {
        IssueKind::DirectHttpInWorker | IssueKind::HttpClientInWorkerStruct | IssueKind::InterServiceBypassKafka => true,
        _ => false,
    };
    if sel == 0 {
        comm
    } else if sel == 1 {
        !comm
    } else if sel == 2 {
        match k {
            IssueKind::MissingOpenApiDerive => true,
            _ => false,
        }
    } else if sel == 3 {
        match k {
            IssueKind::RawPrimitive => true,
            _ => false,
        }
    } else if sel == 4 {
        match k {
            IssueKind::SuggestSystem => true,
            _ => false,
        }
    } else if sel == 5 {
        match k {
            IssueKind::SuggestLaw => true,
            _ => false,
        }
    } else {
        match k {
            IssueKind::SuggestEntity => true,
            _ => false,
        }
    }
}

/// The selected issues.
fn select_kind<'a>(issues: &Vec<&'a Issue>, sel: u8) -> (res: Vec<&'a Issue>)
    ensures
        derefs(res@) == selected(derefs(issues@), sel as int),
{
    let mut out: Vec<&Issue> = Vec::new();
    let mut i: usize = 0;
    while i < issues.len()
        invariant
            i <= issues.len(),
            derefs(out@) == selected(derefs(issues@.take(i as int)), sel as int),
        decreases issues.len() - i,
    {
        proof {
            let t = derefs(issues@.take(i as int + 1));
            assert(t.drop_last() =~= derefs(issues@.take(i as int)));
            assert(t.last() == *issues@[i as int]);
        }
        let ghost before = derefs(out@);
        if kind_selected(sel, &issues[i].kind) {
            out.push(issues[i]);
            proof {
                assert(derefs(out@) =~= before.push(*issues@[i as int]));
            }
        }
        i = i + 1;
    }
    proof {
        assert(issues@.take(issues@.len() as int) =~= issues@);
    }
    out
}

/// The cells of a row of strings.
fn row_of(a: String, b: String, c: String) -> (res: Vec<String>)
    ensures
        res@.map_values(|x: String| x@) == seq![a@, b@, c@],
{
    let mut v: Vec<String> = Vec::new();
    v.push(a);
    v.push(b);
    v.push(c);
    proof {
        assert(v@.map_values(|x: String| x@) =~= seq![a@, b@, c@]);
    }
    v
}

/// Appends a section of the text report.
fn push_section(out: &mut String, title: &str, is: &Vec<&Issue>, limited: bool)
    requires
        section_ok(derefs(is@), limited),
    ensures
        final(out)@ == old(out)@ + section_text(title@, derefs(is@), limited),
{
    if is.len() == 0 {
        proof {
            assert(old(out)@ + Seq::<char>::empty() =~= old(out)@);
        }
        return;
    }
    let ghost iv = derefs(is@);
    let n = is.len();
    let count = if limited && n > 20 { 20 } else { n };
    let mut cells: Vec<Vec<String>> = Vec::new();
    cells.push(row_of(owned("File"), owned("Line"), owned("Message")));
    let mut k: usize = 0;
    while k < count
        invariant
            iv == derefs(is@),
            count <= is@.len(),
            shown(iv, limited).len() == count,
            section_ok(iv, limited),
            k <= count,
            cells_view(cells@) == seq![seq!["File"@, "Line"@, "Message"@]] + shown(iv, limited).take(k as int).map_values(|i: Issue| row_cells(i)),
        decreases count - k,
    {
        proof {
            assert(shown(iv, limited)[k as int] == iv[k as int]);
            assert(row_ok(shown(iv, limited)[k as int]));
        }
        let row = IssueRow::from_issue(is[k]);
        let ghost before = cells_view(cells@);
        cells.push(row_of(row.file, row.line, row.message));
        proof {
            assert(cells_view(cells@) =~= before.push(row_cells(iv[k as int])));
            assert(shown(iv, limited).take(k as int + 1).map_values(|i: Issue| row_cells(i)) =~= shown(iv, limited).take(
                k as int,
            ).map_values(|i: Issue| row_cells(i)).push(row_cells(iv[k as int])));
        }
        k = k + 1;
    }
    proof {
        assert(shown(iv, limited).take(count as int) =~= shown(iv, limited));
    }
    let table = render_rounded_table(cells);
    out.append("\n");
    out.append(title);
    out.append(" (");
    let c = usize_to_string(n);
    out.append(c.as_str());
    out.append(")\n");
    out.append(table.as_str());
    if limited && n > 20 {
        out.append("\n... and ");
        let more = usize_to_string(n - 20);
        out.append(more.as_str());
        out.append(" more\n");
    }
    out.append("\n");
}

/// A rule of sixty box-drawing dashes.
fn rule() -> (res: String)
    ensures
        res@ == rule_text(),
{
    let mut s = String::new();
    let mut k: usize = 0;
    while k < 60
        invariant
            k <= 60,
            s@ == Seq::new(k as nat, |i: int| '─'),
        decreases 60 - k,
    {
        crate::text::push_char(&mut s, '─');
        proof {
            assert(s@ =~= Seq::new((k + 1) as nat, |i: int| '─'));
        }
        k = k + 1;
    }
    s
}

/// A statistics row.
fn stat_row(metric: &str, value: String) -> (res: Vec<String>)
    ensures
        res@.map_values(|x: String| x@) == seq![metric@, value@],
{
    let mut v: Vec<String> = Vec::new();
    v.push(owned(metric));
    v.push(value);
    proof {
        assert(v@.map_values(|x: String| x@) =~= seq![metric@, value@]);
    }
    v
}

/// The statistics table.
fn stats_table(st: &Stats, e: usize, w: usize, i: usize) -> (res: String)
    ensures
        res@ == rounded_table(stats_rows(*st, e as nat, w as nat, i as nat)),
{
    let mut rows: Vec<Vec<String>> = Vec::new();
    rows.push(stat_row("Metric", owned("Value")));
    rows.push(stat_row("Errors", usize_to_string(e)));
    rows.push(stat_row("Warnings", usize_to_string(w)));
    rows.push(stat_row("Info", usize_to_string(i)));
    let ghost r0 = cells_view(rows@);
    proof {
        assert(r0 =~= seq![seq!["Metric"@, "Value"@], seq!["Errors"@, decimal(e as nat)], seq!["Warnings"@, decimal(w as nat)], seq!["Info"@, decimal(i as nat)]]);
    }
    if st.communication_violations > 0 {
        rows.push(stat_row("Comm Violations", usize_to_string(st.communication_violations)));
    }
    let ghost r1 = cells_view(rows@);
    if st.database_issues > 0 {
        rows.push(stat_row("Database Issues", usize_to_string(st.database_issues)));
    }
    let ghost r2 = cells_view(rows@);
    if st.kafka_issues > 0 {
        rows.push(stat_row("Kafka Issues", usize_to_string(st.kafka_issues)));
    }
    let ghost r3 = cells_view(rows@);
    if st.entity_candidates > 0 {
        rows.push(stat_row("Entities", usize_to_string(st.entity_candidates)));
    }
    let ghost r4 = cells_view(rows@);
    let mut d = u64_to_string(st.duration_ms);
    d.append("ms");
    rows.push(stat_row("Duration", d));
    proof {
        assert(cells_view(rows@) =~= stats_rows(*st, e as nat, w as nat, i as nat));
    }
    render_rounded_table(rows)
}

/// A heading with a count, then the rule.
fn push_heading(out: &mut String, title: &str, n: usize)
    ensures
        final(out)@ == old(out)@ + "\n"@ + title@ + " ("@ + decimal(n as nat) + ")\n"@ + rule_text() + "\n"@,
{
    out.append("\n");
    out.append(title);
    out.append(" (");
    let c = usize_to_string(n);
    out.append(c.as_str());
    out.append(")\n");
    let r = rule();
    out.append(r.as_str());
    out.append("\n");
}

/// Appends the errors part.
fn push_error_block(out: &mut String, errors: &Vec<&Issue>)
    requires
        section_ok(selected(derefs(errors@), 0), false),
        section_ok(selected(derefs(errors@), 1), false),
    ensures
        final(out)@ == old(out)@ + error_block(derefs(errors@)),
{
    let ghost errs = derefs(errors@);
    if errors.len() > 0 {
        let ghost p0 = out@;
        push_heading(out, "🔴 ERRORS", errors.len());
        let comm = select_kind(errors, 0);
        push_section(out, "🔌 Communication Violations", &comm, false);
        let other = select_kind(errors, 1);
        push_section(out, "❓ Other Errors", &other, false);
        proof {
            assert(out@ =~= p0 + error_block(errs));
        }
    } else {
        proof {
            assert(out@ =~= old(out)@ + error_block(errs));
        }
    }
}

/// Appends the warnings part.
fn push_warning_block(out: &mut String, warnings: &Vec<&Issue>)
    requires
        section_ok(selected(derefs(warnings@), 2), true),
        section_ok(selected(derefs(warnings@), 3), true),
    ensures
        final(out)@ == old(out)@ + warning_block(derefs(warnings@)),
{
    let ghost warns = derefs(warnings@);
    if warnings.len() > 0 {
        let ghost p0 = out@;
        push_heading(out, "🟡 WARNINGS", warnings.len());
        let openapi = select_kind(warnings, 2);
        push_section(out, "📖 OpenAPI Gaps", &openapi, true);
        let prims = select_kind(warnings, 3);
        push_section(out, "🔢 Raw Primitives", &prims, true);
        proof {
            assert(out@ =~= p0 + warning_block(warns));
        }
    } else {
        proof {
            assert(out@ =~= old(out)@ + warning_block(warns));
        }
    }
}

/// Appends the infos part.
fn push_info_block(out: &mut String, infos: &Vec<&Issue>)
    requires
        section_ok(selected(derefs(infos@), 4), false),
        section_ok(selected(derefs(infos@), 5), false),
        section_ok(selected(derefs(infos@), 6), true),
    ensures
        final(out)@ == old(out)@ + info_block(derefs(infos@)),
{
    let ghost infs = derefs(infos@);
    if infos.len() > 0 {
        let ghost p0 = out@;
        push_heading(out, "🔵 INFO & SUGGESTIONS", infos.len());
        let systems = select_kind(infos, 4);
        push_section(out, "⚙️ ECS Systems", &systems, false);
        let laws = select_kind(infos, 5);
        push_section(out, "⚖️ Laws", &laws, false);
        let entities = select_kind(infos, 6);
        push_section(out, "🗄️ Entity Candidates", &entities, true);
        proof {
            assert(out@ =~= p0 + info_block(infs));
        }
    } else {
        proof {
            assert(out@ =~= old(out)@ + info_block(infs));
        }
    }
}

/// The text report of an analysis, generated now.
pub fn format_text_report(report: &AnalysisReport) -> (res: String)
    requires
        text_report_ok(*report),
    ensures
        exists|secs: u64| res@ == text_report(*report, #[trigger] utc_text(secs as nat)),
{
    let mut all: Vec<&Issue> = Vec::new();
    let mut i: usize = 0;
    while i < report.issues.len()
        invariant
            i <= report.issues.len(),
            derefs(all@) == report.issues@.take(i as int),
        decreases report.issues.len() - i,
    {
        let ghost before = derefs(all@);
        all.push(&report.issues[i]);
        proof {
            assert(derefs(all@) =~= before.push(report.issues@[i as int]));
            assert(report.issues@.take(i as int + 1) =~= report.issues@.take(i as int).push(report.issues@[i as int]));
        }
        i = i + 1;
    }
    proof {
        assert(report.issues@.take(report.issues@.len() as int) =~= report.issues@);
    }
    let errors = select_severity(all.as_slice(), Severity::Error);
    let warnings = select_severity(all.as_slice(), Severity::Warning);
    let infos = select_severity(all.as_slice(), Severity::Info);
    let now = chrono_lite_now();
    let mut out = owned("Schema Analysis Report\n");
    out.append("======================\n\n");
    out.append("Generated: ");
    out.append(now.as_str());
    out.append("\n\n");
    let table = stats_table(&report.stats, errors.len(), warnings.len(), infos.len());
    out.append(table.as_str());
    out.append("\n\n");
    let ghost p0 = out@;
    push_error_block(&mut out, &errors);
    push_warning_block(&mut out, &warnings);
    push_info_block(&mut out, &infos);
    proof {
        let secs = choose|secs: u64| now@ == #[trigger] utc_text(secs as nat);
        assert(out@ =~= text_report(*report, utc_text(secs as nat)));
    }
    out
}

} // verus!
