//! Tool chains: the steps of a pipeline, how their inputs are mapped, and the
//! standard pipelines.

use vstd::prelude::*;
use crate::json::Json;
use crate::legacy::base::ToolCategory;
use crate::legacy::intent::PurposePipeline;
use crate::text::owned;

verus! {

/// A chain of tool calls.
#[derive(Debug)]
pub struct ToolChain {
    pub id: String,
    pub name: String,
    pub description: String,
    pub steps: Vec<ToolChainStep>,
    pub context_strategy: ContextStrategy,
    pub error_strategy: ErrorStrategy,
}

/// One step of a chain.
#[derive(Debug)]
pub struct ToolChainStep {
    pub id: String,
    /// The name of the tool called.
    pub tool: String,
    pub execution_order: ExecutionOrder,
    pub input_mapping: Vec<InputMapping>,
    pub condition: Option<StepCondition>,
    /// The steps this one runs in parallel with.
    pub parallel_with: Vec<String>,
    pub timeout_ms: Option<u64>,
    /// Whether the chain fails when this step fails.
    pub required: bool,
}

/// When a step runs.
#[derive(Debug, Clone, Copy, PartialEq, Eq, Structural)]
pub enum ExecutionOrder {
    Sequential,
    Parallel,
    Conditional,
    Fallback,
}

/// Where a step takes an input from.
#[derive(Debug, Clone)]
pub struct InputMapping {
    pub from_step: String,
    pub from_path: String,
    pub to_path: String,
    pub transform: Option<InputTransform>,
}

/// How a mapped input is transformed.
#[derive(Debug, Clone)]
pub enum InputTransform {
    Identity,
    ArrayItem { index: usize },
    ArrayFilter { path: String, value: String },
    ArrayMap { template: String },
    Concat { separator: String },
    Custom { function: String },
}

/// The condition on which a conditional step runs.
#[derive(Debug)]
pub struct StepCondition {
    pub condition_type: ConditionType,
    pub source_step: String,
    pub path: String,
    pub operator: ConditionOperator,
    pub value: Json,
}

/// What a step condition looks at.
#[derive(Debug, Clone, Copy, PartialEq, Eq, Structural)]
pub enum ConditionType {
    OutputValue,
    StepSuccess,
    StepFailed,
    OutputExists,
}

/// How a step condition compares.
#[derive(Debug, Clone, Copy, PartialEq, Eq, Structural)]
pub enum ConditionOperator {
    Equals,
    NotEquals,
    GreaterThan,
    LessThan,
    Contains,
    NotContains,
    IsNull,
    IsNotNull,
    In,
}

/// What context the steps of a chain see.
#[derive(Debug, Clone, Copy, PartialEq, Eq, Structural)]
pub enum ContextStrategy {
    FullContext,
    FilteredContext,
    AccumulatingContext,
    IsolatedContext,
}

/// What a chain does when a step fails.
#[derive(Debug, Clone, Copy, PartialEq, Eq, Structural)]
pub enum ErrorStrategy {
    FailFast,
    ContinueOnError,
    RetryOnError,
    UseFallback,
}

/// The standard pipelines.
#[derive(Debug, Clone, Copy, PartialEq, Eq, Structural)]
pub enum PipelineType {
    MemoryRecording,
    Query,
    Analysis,
    Command,
    Conversation,
    MultiModal,
}

/// The tool categories a pipeline uses, in order.
pub open spec fn pipeline_categories(p: PipelineType) -> Seq<ToolCategory> {
    match p {
        PipelineType::MemoryRecording => seq![
            ToolCategory::Segmentation,
            ToolCategory::Classification,
            ToolCategory::Spawn,
            ToolCategory::Hints,
        ],
        PipelineType::Query => seq![ToolCategory::Classification, ToolCategory::Retrieval],
        PipelineType::Analysis => seq![
            ToolCategory::Segmentation,
            ToolCategory::Classification,
            ToolCategory::Retrieval,
        ],
        PipelineType::Command => seq![ToolCategory::Classification, ToolCategory::Orchestration],
        PipelineType::Conversation => seq![ToolCategory::Classification],
        PipelineType::MultiModal => seq![
            ToolCategory::Segmentation,
            ToolCategory::Classification,
            ToolCategory::Spawn,
            ToolCategory::Hints,
        ],
    }
}

/// The standard pipeline that serves a purpose pipeline.
pub open spec fn pipeline_for_purpose(p: PurposePipeline) -> PipelineType {
    match p {
        PurposePipeline::Recording => PipelineType::MemoryRecording,
        PurposePipeline::Retrieval => PipelineType::Query,
        PurposePipeline::Analysis => PipelineType::Analysis,
        PurposePipeline::Action => PipelineType::Command,
        PurposePipeline::Conversational => PipelineType::Conversation,
    }
}

impl PipelineType {
    /// The tool categories the pipeline uses, in order.
    pub fn tool_categories(&self) -> (v: Vec<ToolCategory>)
        ensures
            v@ == pipeline_categories(*self),
    {
        match self {
            PipelineType::MemoryRecording => vec![
                ToolCategory::Segmentation,
                ToolCategory::Classification,
                ToolCategory::Spawn,
                ToolCategory::Hints,
            ],
            PipelineType::Query => vec![ToolCategory::Classification, ToolCategory::Retrieval],
            PipelineType::Analysis => vec![
                ToolCategory::Segmentation,
                ToolCategory::Classification,
                ToolCategory::Retrieval,
            ],
            PipelineType::Command => vec![ToolCategory::Classification, ToolCategory::Orchestration],
            PipelineType::Conversation => vec![ToolCategory::Classification],
            PipelineType::MultiModal => vec![
                ToolCategory::Segmentation,
                ToolCategory::Classification,
                ToolCategory::Spawn,
                ToolCategory::Hints,
            ],
        }
    }

    /// The standard pipeline that serves a purpose pipeline.
    pub fn from_purpose_pipeline(purpose: PurposePipeline) -> (p: PipelineType)
        ensures
            p == pipeline_for_purpose(purpose),
    {
        match purpose {
            PurposePipeline::Recording => PipelineType::MemoryRecording,
            PurposePipeline::Retrieval => PipelineType::Query,
            PurposePipeline::Analysis => PipelineType::Analysis,
            PurposePipeline::Action => PipelineType::Command,
            PurposePipeline::Conversational => PipelineType::Conversation,
        }
    }
}

/// What starts a pipeline.
#[derive(Debug, Clone)]
pub struct PipelineTrigger {
    pub trigger_type: TriggerType,
    pub value: String,
    /// Higher runs first.
    pub priority: u32,
}

/// The kind of a pipeline trigger.
#[derive(Debug, Clone, Copy, PartialEq, Eq, Structural)]
pub enum TriggerType {
    Purpose,
    Modality,
    EntityType,
    Keyword,
    Custom,
}

/// A step with the given id, tool, order, timeout and requiredness, no
/// condition, no input mapping and no parallel steps.
pub open spec fn plain_step(s: ToolChainStep, id: Seq<char>, tool: Seq<char>, order: ExecutionOrder, timeout: u64, required: bool) -> bool {
    &&& s.id@ == id
    &&& s.tool@ == tool
    &&& s.execution_order == order
    &&& s.condition is None
    &&& s.timeout_ms == Some(timeout)
    &&& s.required == required
    &&& s.input_mapping@.len() == 0
    &&& s.parallel_with@.len() == 0
}

/// A step that is plain but for its input mapping and parallel steps.
pub open spec fn step_with(s: ToolChainStep, id: Seq<char>, tool: Seq<char>, order: ExecutionOrder, timeout: u64, required: bool) -> bool {
    &&& s.id@ == id
    &&& s.tool@ == tool
    &&& s.execution_order == order
    &&& s.condition is None
    &&& s.timeout_ms == Some(timeout)
    &&& s.required == required
}

fn step(id: &str, tool: &str, order: ExecutionOrder, timeout: u64, required: bool) -> (s: ToolChainStep)
    ensures
        plain_step(s, id@, tool@, order, timeout, required),
{
    ToolChainStep {
        id: owned(id),
        tool: owned(tool),
        execution_order: order,
        input_mapping: Vec::new(),
        condition: None,
        parallel_with: Vec::new(),
        timeout_ms: Some(timeout),
        required,
    }
}

impl ToolChain {
    /// Segment, classify the purpose, classify the entities, suggest spawns,
    /// then the hints (physics, thread and bond hints in parallel, binding
    /// hints after), carrying context forward and going on past errors.
    pub fn memory_recording() -> (c: ToolChain)
        ensures
            c.id@ == "memory_recording"@,
            c.name@ == "Memory Recording Pipeline"@,
            c.description@ == "Segment → Purpose → Classify → Spawn → Hints → Store"@,
            c.context_strategy == ContextStrategy::AccumulatingContext,
            c.error_strategy == ErrorStrategy::ContinueOnError,
            c.steps@.len() == 8,
            plain_step(c.steps@[0], "segment"@, "text_segmentation"@, ExecutionOrder::Sequential, 5000, true),
            step_with(c.steps@[1], "purpose"@, "purpose_classifier"@, ExecutionOrder::Sequential, 3000, true),
            c.steps@[1].parallel_with@.len() == 0,
            c.steps@[1].input_mapping@.len() == 1,
            c.steps@[1].input_mapping@[0].from_step@ == "segment"@,
            c.steps@[1].input_mapping@[0].from_path@ == "segments"@,
            c.steps@[1].input_mapping@[0].to_path@ == "segments"@,
            c.steps@[1].input_mapping@[0].transform is None,
            plain_step(c.steps@[2], "classify"@, "entity_classifier"@, ExecutionOrder::Sequential, 5000, true),
            plain_step(c.steps@[3], "spawn"@, "spawn_suggester"@, ExecutionOrder::Sequential, 3000, true),
            step_with(c.steps@[4], "physics_hints"@, "physics_hint_generator"@, ExecutionOrder::Parallel, 3000, false),
            c.steps@[4].input_mapping@.len() == 0,
            c.steps@[4].parallel_with@.len() == 2,
            c.steps@[4].parallel_with@[0]@ == "thread_hints"@,
            c.steps@[4].parallel_with@[1]@ == "bond_hints"@,
            plain_step(c.steps@[5], "thread_hints"@, "thread_hint_generator"@, ExecutionOrder::Parallel, 3000, false),
            plain_step(c.steps@[6], "bond_hints"@, "bond_hint_generator"@, ExecutionOrder::Parallel, 3000, false),
            plain_step(c.steps@[7], "binding_hints"@, "binding_hint_generator"@, ExecutionOrder::Sequential, 3000, false),
    {
        let mut steps: Vec<ToolChainStep> = Vec::new();
        steps.push(step("segment", "text_segmentation", ExecutionOrder::Sequential, 5000, true));
        let mut purpose = step("purpose", "purpose_classifier", ExecutionOrder::Sequential, 3000, true);
        purpose.input_mapping.push(InputMapping {
            from_step: owned("segment"),
            from_path: owned("segments"),
            to_path: owned("segments"),
            transform: None,
        });
        steps.push(purpose);
        steps.push(step("classify", "entity_classifier", ExecutionOrder::Sequential, 5000, true));
        steps.push(step("spawn", "spawn_suggester", ExecutionOrder::Sequential, 3000, true));
        let mut physics = step("physics_hints", "physics_hint_generator", ExecutionOrder::Parallel, 3000, false);
        physics.parallel_with.push(owned("thread_hints"));
        physics.parallel_with.push(owned("bond_hints"));
        steps.push(physics);
        steps.push(step("thread_hints", "thread_hint_generator", ExecutionOrder::Parallel, 3000, false));
        steps.push(step("bond_hints", "bond_hint_generator", ExecutionOrder::Parallel, 3000, false));
        steps.push(step("binding_hints", "binding_hint_generator", ExecutionOrder::Sequential, 3000, false));
        ToolChain {
            id: owned("memory_recording"),
            name: owned("Memory Recording Pipeline"),
            description: owned("Segment → Purpose → Classify → Spawn → Hints → Store"),
            steps,
            context_strategy: ContextStrategy::AccumulatingContext,
            error_strategy: ErrorStrategy::ContinueOnError,
        }
    }

    /// Classify the purpose, analyse the query, search, format the answer;
    /// each step sees filtered context and the first failure stops the chain.
    pub fn query() -> (c: ToolChain)
        ensures
            c.id@ == "query"@,
            c.name@ == "Query Pipeline"@,
            c.description@ == "Purpose → Query Analysis → Search → Format"@,
            c.context_strategy == ContextStrategy::FilteredContext,
            c.error_strategy == ErrorStrategy::FailFast,
            c.steps@.len() == 4,
            plain_step(c.steps@[0], "purpose"@, "purpose_classifier"@, ExecutionOrder::Sequential, 3000, true),
            plain_step(c.steps@[1], "query_analysis"@, "query_analyzer"@, ExecutionOrder::Sequential, 3000, true),
            plain_step(c.steps@[2], "search"@, "rag_search"@, ExecutionOrder::Sequential, 10000, true),
            plain_step(c.steps@[3], "format"@, "response_formatter"@, ExecutionOrder::Sequential, 3000, true),
    {
        let mut steps: Vec<ToolChainStep> = Vec::new();
        steps.push(step("purpose", "purpose_classifier", ExecutionOrder::Sequential, 3000, true));
        steps.push(step("query_analysis", "query_analyzer", ExecutionOrder::Sequential, 3000, true));
        steps.push(step("search", "rag_search", ExecutionOrder::Sequential, 10000, true));
        steps.push(step("format", "response_formatter", ExecutionOrder::Sequential, 3000, true));
        ToolChain {
            id: owned("query"),
            name: owned("Query Pipeline"),
            description: owned("Purpose → Query Analysis → Search → Format"),
            steps,
            context_strategy: ContextStrategy::FilteredContext,
            error_strategy: ErrorStrategy::FailFast,
        }
    }
}

} // verus!
