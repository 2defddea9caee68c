//! System runtime errors and configuration.

use vstd::prelude::*;
use crate::text::concat2;

verus! {

/// Why a system call failed.
#[derive(Debug)]
pub enum SystemError {
    /// The input did not deserialize.
    DeserializationError(String),
    /// The output did not serialize.
    SerializationError(String),
    /// The input broke its schema.
    ValidationError(String),
    /// The system failed while running.
    ExecutionError(String),
    /// The system cannot be reached.
    Unavailable(String),
}

#[verifier::external_type_specification]
#[verifier::external_body]
pub struct ExJsonError(serde_json::Error);

/// The text `serde_json` gives an error.
pub uninterp spec fn json_error_text(e: serde_json::Error) -> Seq<char>;

/// `serde_json::Error`'s `to_string`.
#[verifier::external_body]
fn json_error_to_string(e: &serde_json::Error) -> (s: String)
    ensures
        s@ == json_error_text(*e),
{
    e.to_string()
}

impl SystemError {
    /// The error's message.
    pub fn message(&self) -> (s: String)
        ensures
            s@ == match *self {
                SystemError::DeserializationError(m) => "Input deserialization failed: "@ + m@,
                SystemError::SerializationError(m) => "Output serialization failed: "@ + m@,
                SystemError::ValidationError(m) => "Schema validation failed: "@ + m@,
                SystemError::ExecutionError(m) => "Execution error: "@ + m@,
                SystemError::Unavailable(m) => "System unavailable: "@ + m@,
            },
    {
        match self {
            SystemError::DeserializationError(m) => concat2("Input deserialization failed: ", m.as_str()),
            SystemError::SerializationError(m) => concat2("Output serialization failed: ", m.as_str()),
            SystemError::ValidationError(m) => concat2("Schema validation failed: ", m.as_str()),
            SystemError::ExecutionError(m) => concat2("Execution error: ", m.as_str()),
            SystemError::Unavailable(m) => concat2("System unavailable: ", m.as_str()),
        }
    }

    /// A `serde_json` error is a deserialization error, with its text.
    pub fn from_json_error(err: &serde_json::Error) -> (e: SystemError)
        ensures
            e matches SystemError::DeserializationError(m) && m@ == json_error_text(*err),
    {
        SystemError::DeserializationError(json_error_to_string(err))
    }
}

/// How to reach Windmill, the workflow engine.
#[derive(Debug, Clone)]
pub struct WindmillConfig {
    pub url: String,
    pub workspace: String,
    pub token: String,
}

/// The core runtime's configuration.
#[derive(Debug, Clone)]
pub struct CoreRuntimeConfig {
    pub windmill: WindmillConfig,
}

impl CoreRuntimeConfig {
    /// The configuration with the values that `WINDMILL_URL`,
    /// `WINDMILL_WORKSPACE` and `WINDMILL_TOKEN` give in place of those read
    /// from the configuration sources.
    pub fn with_overrides(
        self,
        url: Option<String>,
        workspace: Option<String>,
        token: Option<String>,
    ) -> (c: CoreRuntimeConfig)
        ensures
            c.windmill.url@ == match url {
                Some(u) => u@,
                None => self.windmill.url@,
            },
            c.windmill.workspace@ == match workspace {
                Some(w) => w@,
                None => self.windmill.workspace@,
            },
            c.windmill.token@ == match token {
                Some(t) => t@,
                None => self.windmill.token@,
            },
    {
        let mut c = self;
        if let Some(u) = url {
            c.windmill.url = u;
        }
        if let Some(w) = workspace {
            c.windmill.workspace = w;
        }
        if let Some(t) = token {
            c.windmill.token = t;
        }
        c
    }
}

} // verus!
