//! The purpose of a message, and the pipeline that serves each purpose.

use vstd::prelude::*;

verus! {

/// What the user means a message to do.
#[derive(Debug, Clone, Copy, PartialEq, Eq, Hash, Structural)]
pub enum ToolPurpose {
    /// Record something that happened.
    Log,
    /// Ask about what was recorded.
    Query,
    /// Ask for an inference from what was recorded.
    Infer,
    /// Point at something recorded earlier.
    Reference,
    /// Ask for reflection on patterns.
    Reflect,
    /// Ask the system to do something.
    Command,
    /// Small talk.
    Social,
    /// Continue the previous message.
    Continuation,
    /// Correct something recorded earlier.
    Correction,
}

/// The pipeline that handles a purpose.
#[derive(Debug, Clone, Copy, PartialEq, Eq, Structural)]
pub enum PurposePipeline {
    Recording,
    Retrieval,
    Analysis,
    Action,
    Conversational,
}

/// The upper-case name of a purpose.
pub open spec fn purpose_name(p: ToolPurpose) -> Seq<char> {
    match p {
        ToolPurpose::Log => "LOG"@,
        ToolPurpose::Query => "QUERY"@,
        ToolPurpose::Infer => "INFER"@,
        ToolPurpose::Reference => "REFERENCE"@,
        ToolPurpose::Reflect => "REFLECT"@,
        ToolPurpose::Command => "COMMAND"@,
        ToolPurpose::Social => "SOCIAL"@,
        ToolPurpose::Continuation => "CONTINUATION"@,
        ToolPurpose::Correction => "CORRECTION"@,
    }
}

/// The pipeline that serves a purpose.
pub open spec fn purpose_pipeline(p: ToolPurpose) -> PurposePipeline {
    match p {
        ToolPurpose::Log => PurposePipeline::Recording,
        ToolPurpose::Query | ToolPurpose::Reference => PurposePipeline::Retrieval,
        ToolPurpose::Infer | ToolPurpose::Reflect => PurposePipeline::Analysis,
        ToolPurpose::Command => PurposePipeline::Action,
        ToolPurpose::Social | ToolPurpose::Continuation | ToolPurpose::Correction => PurposePipeline::Conversational,
    }
}

impl ToolPurpose {
    /// The upper-case name of the purpose.
    pub fn as_str(&self) -> (s: &'static str)
        ensures
            s@ == purpose_name(*self),
    {
        match self {
            ToolPurpose::Log => "LOG",
            ToolPurpose::Query => "QUERY",
            ToolPurpose::Infer => "INFER",
            ToolPurpose::Reference => "REFERENCE",
            ToolPurpose::Reflect => "REFLECT",
            ToolPurpose::Command => "COMMAND",
            ToolPurpose::Social => "SOCIAL",
            ToolPurpose::Continuation => "CONTINUATION",
            ToolPurpose::Correction => "CORRECTION",
        }
    }

    /// Whether a message of this purpose records data.
    pub fn stores_data(&self) -> (b: bool)
        ensures
            b <==> (*self == ToolPurpose::Log || *self == ToolPurpose::Correction),
    {
        match self {
            ToolPurpose::Log | ToolPurpose::Correction => true,
            _ => false,
        }
    }

    /// Whether a message of this purpose expects an answer.
    pub fn expects_response(&self) -> (b: bool)
        ensures
            b <==> (*self == ToolPurpose::Query || *self == ToolPurpose::Infer || *self == ToolPurpose::Reference
                || *self == ToolPurpose::Reflect),
    {
        match self {
            ToolPurpose::Query | ToolPurpose::Infer | ToolPurpose::Reference | ToolPurpose::Reflect => true,
            _ => false,
        }
    }

    /// Whether serving a message of this purpose searches what was recorded.
    pub fn requires_search(&self) -> (b: bool)
        ensures
            b <==> (*self == ToolPurpose::Query || *self == ToolPurpose::Reference || *self == ToolPurpose::Reflect
                || *self == ToolPurpose::Infer),
    {
        match self {
            ToolPurpose::Query | ToolPurpose::Reference | ToolPurpose::Reflect | ToolPurpose::Infer => true,
            _ => false,
        }
    }

    /// The pipeline that serves this purpose.
    pub fn pipeline(&self) -> (p: PurposePipeline)
        ensures
            p == purpose_pipeline(*self),
    {
        match self {
            ToolPurpose::Log => PurposePipeline::Recording,
            ToolPurpose::Query | ToolPurpose::Reference => PurposePipeline::Retrieval,
            ToolPurpose::Infer | ToolPurpose::Reflect => PurposePipeline::Analysis,
            ToolPurpose::Command => PurposePipeline::Action,
            ToolPurpose::Social | ToolPurpose::Continuation | ToolPurpose::Correction => PurposePipeline::Conversational,
        }
    }
}

impl Default for ToolPurpose {
    /// A message records something unless it is classified otherwise.
    fn default() -> (p: ToolPurpose)
        ensures
            p == ToolPurpose::Log,
    {
        ToolPurpose::Log
    }
}

/// A span of time that a query is about.
#[derive(Debug, Clone)]
pub struct TemporalScope {
    pub start: Option<String>,
    pub end: Option<String>,
    /// A relative description such as "last week".
    pub relative: Option<String>,
}

/// How a query filter compares.
#[derive(Debug, Clone, Copy, PartialEq, Eq, Structural)]
pub enum FilterOperator {
    Equals,
    NotEquals,
    Contains,
    StartsWith,
    EndsWith,
    GreaterThan,
    LessThan,
    Between,
    In,
    NotIn,
}

/// The kind of a command.
#[derive(Debug, Clone, Copy, PartialEq, Eq, Structural)]
pub enum CommandType {
    Create,
    Update,
    Delete,
    Link,
    Unlink,
    Export,
    Import,
    Configure,
    Custom,
}

} // verus!
