//! The findings of a codebase analysis, as the report generators read them.

use vstd::prelude::*;

verus! {

/// How serious an issue is.
#[derive(Debug, Clone, Copy, PartialEq, Eq, Structural)]
pub enum Severity {
    Error,
    Warning,
    Info,
}

/// What to do with a schema that nothing refers to.
#[derive(Debug, Clone, Copy, PartialEq, Eq, Structural)]
pub enum OrphanRecommendation {
    Delete,
    ConnectGraph,
    MarkDeprecated,
    ExpectedRoot,
}

/// The kind of an issue.
#[derive(Debug)]
pub enum IssueKind {
    DirectHttpInWorker,
    HttpClientInWorkerStruct,
    InterServiceBypassKafka,
    DirectSqlxUsage,
    DirectPoolAccess,
    EntityInService,
    MissingProtobufSchema,
    MissingKafkaKey,
    CodegenPathViolation,
    MissingGeneration,
    BrokenImport,
    MissingSchema,
    MissingJsonSchema,
    IsolatedSchema { used_in_code: bool },
    OrphanSchema { recommendation: OrphanRecommendation },
    LegacyRowMapping,
    BypassingStore,
    ManualKafkaImplementation,
    JsonSerializationInsteadOfProtobuf,
    RawPrimitive,
    DuplicateType,
    MissingOpenApiDerive,
    SuggestSystem,
    SuggestLaw,
    SuggestEntity,
    SuggestSchema,
    UnusedSchema,
    SuggestCentralize,
    LocalTypeNotInSchema { schema_exists: bool, language: String },
}

/// One finding.
#[derive(Debug)]
pub struct Issue {
    /// The file it was found in, as displayed.
    pub file: String,
    pub line: usize,
    pub message: String,
    /// The description of the suggested fix, if any.
    pub fix: Option<String>,
    pub severity: Severity,
    pub kind: IssueKind,
}

/// Counters gathered by the analysis.
#[derive(Debug, Clone, Copy)]
pub struct Stats {
    pub communication_violations: usize,
    pub database_issues: usize,
    pub kafka_issues: usize,
    pub entity_candidates: usize,
    pub orphan_schemas: usize,
    pub orphans_connect_graph: usize,
    pub orphans_delete: usize,
    pub missing_json_schemas: usize,
    pub isolated_schemas: usize,
    pub duration_ms: u64,
}

/// Everything an analysis found.
#[derive(Debug)]
pub struct AnalysisReport {
    pub issues: Vec<Issue>,
    pub stats: Stats,
}

} // verus!
