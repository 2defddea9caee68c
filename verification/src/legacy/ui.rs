//! The shapes the agentic interface displays, and message delivery states.

use vstd::prelude::*;

verus! {

/// The state of a tool call.
#[derive(Debug, Clone, Copy, PartialEq, Eq, Structural)]
pub enum ToolCallStatus {
    Pending,
    Running,
    Complete,
    Error,
}

impl Default for ToolCallStatus {
    /// A call is pending until it starts.
    fn default() -> (s: ToolCallStatus)
        ensures
            s == ToolCallStatus::Pending,
    {
        ToolCallStatus::Pending
    }
}

/// A step of an agent's reasoning.
#[derive(Debug, Clone)]
pub struct UIThinkingStep {
    pub id: String,
    pub agent: String,
    pub thought: String,
    pub timestamp: Option<String>,
}

/// A segment of a processed message.
#[derive(Debug, Clone)]
pub struct UIHeddleSegment {
    pub content: String,
    pub subject: Option<String>,
}

/// The delivery state of a message.
#[derive(Debug, Clone, Copy, PartialEq, Eq, Structural)]
pub enum MessageStatusType {
    Sending,
    Sent,
    Delivered,
    Read,
    Failed,
}

} // verus!
