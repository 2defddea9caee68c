//! Tool categories, parameters, execution metadata and errors.

use vstd::prelude::*;
use crate::json::Json;
use crate::primitives::TokenUsage;

verus! {

/// The category a tool belongs to.
#[derive(Debug, Clone, Copy, PartialEq, Eq, Structural)]
pub enum ToolCategory {
    Segmentation,
    Classification,
    Spawn,
    Hints,
    Retrieval,
    Orchestration,
}

/// The type of a tool parameter.
#[derive(Debug, Clone, Copy, PartialEq, Eq, Structural)]
pub enum ParameterType {
    String,
    Integer,
    Float,
    Boolean,
    Array,
    Object,
    EntityRef,
    Binary,
}

/// What is recorded about one execution of a tool.
#[derive(Debug, Clone)]
pub struct ToolExecutionMetadata {
    pub tool_name: String,
    pub duration_ms: u64,
    /// When the execution started, as an RFC 3339 timestamp.
    pub started_at: String,
    pub trace_id: Option<String>,
    /// The model that served the call, for tools backed by one.
    pub model: Option<String>,
    pub token_usage: Option<TokenUsage>,
}

/// The code of a tool error.
#[derive(Debug, Clone, Copy, PartialEq, Eq, Structural)]
pub enum ToolErrorCode {
    InvalidInput,
    MissingParameter,
    ValidationFailed,
    Timeout,
    RateLimited,
    ServiceUnavailable,
    LlmError,
    InternalError,
    NotFound,
    PermissionDenied,
}

/// An error returned by a tool.
#[derive(Debug)]
pub struct ToolError {
    pub code: ToolErrorCode,
    pub message: String,
    pub details: Option<Json>,
    /// Whether the call may succeed when made again.
    pub retryable: bool,
}

impl ToolError {
    /// An invalid-input error, which retrying does not cure.
    pub fn invalid_input(message: String) -> (e: ToolError)
        ensures
            e.code == ToolErrorCode::InvalidInput,
            e.message@ == message@,
            e.details is None,
            !e.retryable,
    {
        ToolError { code: ToolErrorCode::InvalidInput, message, details: None, retryable: false }
    }

    /// An error of the language model, which may pass on retry.
    pub fn llm_error(message: String) -> (e: ToolError)
        ensures
            e.code == ToolErrorCode::LlmError,
            e.message@ == message@,
            e.details is None,
            e.retryable,
    {
        ToolError { code: ToolErrorCode::LlmError, message, details: None, retryable: true }
    }

    /// A timeout, which may pass on retry.
    pub fn timeout(message: String) -> (e: ToolError)
        ensures
            e.code == ToolErrorCode::Timeout,
            e.message@ == message@,
            e.details is None,
            e.retryable,
    {
        ToolError { code: ToolErrorCode::Timeout, message, details: None, retryable: true }
    }
}

/// An input modality.
#[derive(Debug, Clone, Copy, PartialEq, Eq, Structural)]
pub enum Modality {
    Text,
    Audio,
    Vision,
    Video,
}

} // verus!
