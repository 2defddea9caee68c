//! Suggestions of entities to spawn from a classified segment, and the
//! bindings between entities.

use vstd::prelude::*;
use crate::legacy::entity::{EntityType, ThreadReference};
use crate::text::owned;

verus! {

/// What a spawn suggestion run produced.
#[derive(Debug, Clone)]
pub struct SpawnSummary {
    pub total_suggestions: usize,
    pub auto_spawn_count: usize,
    pub review_count: usize,
    pub skipped_count: usize,
    /// The most likely entity type, if any was suggested.
    pub primary_type: Option<EntityType>,
}

/// What to do with a suggested entity.
#[derive(Debug, Clone, Copy, PartialEq, Eq, Structural)]
pub enum SpawnAction {
    /// Create it without asking.
    AutoSpawn,
    /// Show it to the user for review.
    Suggest,
    Skip,
    /// Ask the user to clarify.
    Clarify,
}

/// The content of a spawned entity.
#[derive(Debug, Clone)]
pub struct EntityContent {
    pub text: String,
    pub enriched_text: Option<String>,
    pub title: Option<String>,
    pub tags: Vec<String>,
}

/// Hints about the threads a spawned entity touches.
#[derive(Debug, Clone)]
pub struct ThreadHints {
    pub primary_subject: String,
    pub related_threads: Vec<ThreadReference>,
    pub thread_role: ThreadRole,
    pub keywords: Vec<String>,
    pub create_if_missing: bool,
}

impl Default for ThreadHints {
    /// The user as the subject, nothing else.
    fn default() -> (h: ThreadHints)
        ensures
            h.primary_subject@ == "user"@,
            h.related_threads@.len() == 0,
            h.thread_role == ThreadRole::Subject,
            h.keywords@.len() == 0,
            !h.create_if_missing,
    {
        ThreadHints {
            primary_subject: owned("user"),
            related_threads: Vec::new(),
            thread_role: ThreadRole::Subject,
            keywords: Vec::new(),
            create_if_missing: false,
        }
    }
}

/// The part a thread plays in a segment.
#[derive(Debug, Clone, Copy, PartialEq, Eq, Structural)]
pub enum ThreadRole {
    Actor,
    Subject,
    Observer,
    Target,
    Setting,
    Instrument,
}

/// A reference to an entity in a binding.
#[derive(Debug, Clone)]
pub struct EntityReference {
    pub id: Option<String>,
    pub entity_type: EntityType,
    pub description: String,
}

/// How two entities are bound.
#[derive(Debug, Clone, Copy, PartialEq, Eq, Structural)]
pub enum BindingType {
    Causal,
    Temporal,
    Associative,
    Compositional,
    Contrastive,
    Analogical,
    Enabling,
    Thematic,
}

/// What a binding type means.
pub open spec fn binding_description(t: BindingType) -> Seq<char> {
    match t {
        BindingType::Causal => "One entity causes or leads to another"@,
        BindingType::Temporal => "Entities are connected by time sequence"@,
        BindingType::Associative => "Entities are associated by context or proximity"@,
        BindingType::Compositional => "One entity is part of another"@,
        BindingType::Contrastive => "Entities are contrasted or opposed"@,
        BindingType::Analogical => "Entities are similar or analogous"@,
        BindingType::Enabling => "One entity enables or is prerequisite for another"@,
        BindingType::Thematic => "Entities share a common theme"@,
    }
}

impl BindingType {
    /// What the binding type means.
    pub fn description(&self) -> (s: &'static str)
        ensures
            s@ == binding_description(*self),
    {
        match self {
            BindingType::Causal => "One entity causes or leads to another",
            BindingType::Temporal => "Entities are connected by time sequence",
            BindingType::Associative => "Entities are associated by context or proximity",
            BindingType::Compositional => "One entity is part of another",
            BindingType::Contrastive => "Entities are contrasted or opposed",
            BindingType::Analogical => "Entities are similar or analogous",
            BindingType::Enabling => "One entity enables or is prerequisite for another",
            BindingType::Thematic => "Entities share a common theme",
        }
    }
}

/// Which way a binding goes.
#[derive(Debug, Clone, Copy, PartialEq, Eq, Structural)]
pub enum Directionality {
    Unidirectional,
    Bidirectional,
    Undirected,
}

/// A binding in time between two entities.
#[derive(Debug, Clone)]
pub struct TemporalBinding {
    pub relation: TemporalRelation,
    /// The gap between them, as an ISO 8601 duration.
    pub gap: Option<String>,
}

/// How two entities relate in time.
#[derive(Debug, Clone, Copy, PartialEq, Eq, Structural)]
pub enum TemporalRelation {
    Before,
    After,
    During,
    Simultaneous,
    Overlapping,
}

} // verus!
