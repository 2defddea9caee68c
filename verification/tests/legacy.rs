use familiar::legacy::base::{ToolCategory, ToolError, ToolErrorCode};
use familiar::legacy::entity::EntityType;
use familiar::legacy::intent::{PurposePipeline, ToolPurpose};
use familiar::legacy::orchestration::{ContextStrategy, ErrorStrategy, ExecutionOrder, PipelineType, ToolChain};
use familiar::legacy::spawn::{BindingType, ThreadHints, ThreadRole};
use familiar::legacy::ui::ToolCallStatus;

#[test]
fn test_purpose_pipeline() {
    assert_eq!(ToolPurpose::Log.pipeline(), PurposePipeline::Recording);
    assert_eq!(ToolPurpose::Query.pipeline(), PurposePipeline::Retrieval);
    assert_eq!(ToolPurpose::Reflect.pipeline(), PurposePipeline::Analysis);
}

#[test]
fn test_entity_type_descriptions() {
    assert!(EntityType::Moment.description().contains("action"));
    assert!(EntityType::Pulse.description().contains("feeling"));
}

#[test]
fn test_memory_pipeline() {
    let chain = ToolChain::memory_recording();
    assert!(!chain.steps.is_empty());
    assert!(chain.steps.iter().any(|s| s.id == "segment"));
    assert!(chain.steps.iter().any(|s| s.id == "classify"));
}

#[test]
fn test_pipeline_types() {
    let categories = PipelineType::MemoryRecording.tool_categories();
    assert!(categories.contains(&ToolCategory::Segmentation));
    assert!(categories.contains(&ToolCategory::Classification));
}

#[test]
fn test_binding_type_descriptions() {
    assert!(BindingType::Causal.description().contains("cause"));
    assert!(BindingType::Temporal.description().contains("time"));
}

#[test]
fn purpose_flags() {
    assert!(ToolPurpose::Log.stores_data());
    assert!(ToolPurpose::Correction.stores_data());
    assert!(!ToolPurpose::Query.stores_data());
    assert!(ToolPurpose::Infer.expects_response());
    assert!(!ToolPurpose::Social.expects_response());
    assert!(ToolPurpose::Reference.requires_search());
    assert!(!ToolPurpose::Command.requires_search());
    assert_eq!(ToolPurpose::Continuation.as_str(), "CONTINUATION");
    assert_eq!(ToolPurpose::default(), ToolPurpose::Log);
    assert_eq!(ToolPurpose::Command.pipeline(), PurposePipeline::Action);
    assert_eq!(ToolPurpose::Social.pipeline(), PurposePipeline::Conversational);
}

#[test]
fn pipeline_for_each_purpose() {
    assert_eq!(PipelineType::from_purpose_pipeline(PurposePipeline::Recording), PipelineType::MemoryRecording);
    assert_eq!(PipelineType::from_purpose_pipeline(PurposePipeline::Retrieval), PipelineType::Query);
    assert_eq!(PipelineType::from_purpose_pipeline(PurposePipeline::Action), PipelineType::Command);
    assert_eq!(PipelineType::Conversation.tool_categories(), vec![ToolCategory::Classification]);
}

#[test]
fn memory_pipeline_shape() {
    let chain = ToolChain::memory_recording();
    assert_eq!(chain.steps.len(), 8);
    assert_eq!(chain.context_strategy, ContextStrategy::AccumulatingContext);
    assert_eq!(chain.error_strategy, ErrorStrategy::ContinueOnError);
    let physics = &chain.steps[4];
    assert_eq!(physics.execution_order, ExecutionOrder::Parallel);
    assert_eq!(physics.parallel_with, vec!["thread_hints".to_string(), "bond_hints".to_string()]);
    assert!(!physics.required);
    assert_eq!(chain.steps[1].input_mapping[0].from_step, "segment");
    let q = ToolChain::query();
    assert_eq!(q.steps.len(), 4);
    assert_eq!(q.steps[2].timeout_ms, Some(10000));
    assert_eq!(q.error_strategy, ErrorStrategy::FailFast);
}

#[test]
fn entity_type_flags() {
    assert_eq!(EntityType::Filament.as_str(), "FILAMENT");
    assert!(EntityType::Bond.spawns_entity());
    assert!(EntityType::Bond.references_entity());
    assert!(!EntityType::Thread.spawns_entity());
    assert!(!EntityType::Moment.references_entity());
}

#[test]
fn tool_errors() {
    let e = ToolError::invalid_input("bad".to_string());
    assert_eq!(e.code, ToolErrorCode::InvalidInput);
    assert!(!e.retryable);
    assert!(ToolError::timeout("slow".to_string()).retryable);
    assert_eq!(ToolError::llm_error("x".to_string()).code, ToolErrorCode::LlmError);
}

#[test]
fn defaults() {
    let h = ThreadHints::default();
    assert_eq!(h.primary_subject, "user");
    assert_eq!(h.thread_role, ThreadRole::Subject);
    assert!(!h.create_if_missing);
    assert_eq!(ToolCallStatus::default(), ToolCallStatus::Pending);
}

#[test]
fn entity_type_names_are_distinct() {
    let types = [
        EntityType::Moment, EntityType::Pulse, EntityType::Thread, EntityType::Bond, EntityType::Motif,
        EntityType::Filament, EntityType::Focus, EntityType::Intent,
    ];
    let mut names: Vec<&str> = types.iter().map(|t| t.as_str()).collect();
    assert_eq!(EntityType::Moment.as_str(), "MOMENT");
    names.sort();
    names.dedup();
    assert_eq!(names.len(), types.len());
}
