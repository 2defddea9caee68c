//! Entity types and the linguistic evidence for classifying a segment.

use vstd::prelude::*;

verus! {

/// A thread known to the classifier.
#[derive(Debug, Clone)]
pub struct ThreadReference {
    pub id: String,
    pub name: String,
    pub thread_type: String,
    pub aliases: Vec<String>,
}

/// The kinds of entity a segment can give rise to.
#[derive(Debug, Clone, Copy, PartialEq, Eq, Hash, Structural)]
pub enum EntityType {
    Moment,
    Pulse,
    Thread,
    Bond,
    Motif,
    Filament,
    Focus,
    Intent,
}

/// The upper-case name of an entity type.
pub open spec fn entity_type_name(t: EntityType) -> Seq<char> {
    match t {
        EntityType::Moment => "MOMENT"@,
        EntityType::Pulse => "PULSE"@,
        EntityType::Thread => "THREAD"@,
        EntityType::Bond => "BOND"@,
        EntityType::Motif => "MOTIF"@,
        EntityType::Filament => "FILAMENT"@,
        EntityType::Focus => "FOCUS"@,
        EntityType::Intent => "INTENT"@,
    }
}

/// Distinct entity types have distinct names.
pub proof fn law_entity_type_names_distinct(a: EntityType, b: EntityType)
    requires
        a != b,
    ensures
        entity_type_name(a) != entity_type_name(b),
{
    reveal_strlit("MOMENT");
    reveal_strlit("PULSE");
    reveal_strlit("THREAD");
    reveal_strlit("BOND");
    reveal_strlit("MOTIF");
    reveal_strlit("FILAMENT");
    reveal_strlit("FOCUS");
    reveal_strlit("INTENT");
    if entity_type_name(a) == entity_type_name(b) {
        assert(entity_type_name(a).len() == entity_type_name(b).len());
        assert(entity_type_name(a)[0] == entity_type_name(b)[0]);
    }
}

/// What an entity type stands for, as the classifier is told.
pub open spec fn entity_type_description(t: EntityType) -> Seq<char> {
    match t {
        EntityType::Moment => "A discrete event/action - WHAT HAPPENED. Uses action verbs: went, did, met, called, visited."@,
        EntityType::Pulse => "Internal state/feeling - HOW IT WAS/FELT. Uses state verbs + evaluative: felt, was nice, seemed."@,
        EntityType::Thread => "An ongoing narrative, topic, person, or concept being discussed."@,
        EntityType::Bond => "A statement about the relationship between two entities."@,
        EntityType::Motif => "A recurring external pattern noticed over time."@,
        EntityType::Filament => "A recurring internal pattern (habits, tendencies, reactions)."@,
        EntityType::Focus => "An active goal or thematic intention being pursued."@,
        EntityType::Intent => "A future-oriented task or goal to accomplish."@,
    }
}

impl EntityType {
    /// The upper-case name of the type.
    pub fn as_str(&self) -> (s: &'static str)
        ensures
            s@ == entity_type_name(*self),
    {
        match self {
            EntityType::Moment => "MOMENT",
            EntityType::Pulse => "PULSE",
            EntityType::Thread => "THREAD",
            EntityType::Bond => "BOND",
            EntityType::Motif => "MOTIF",
            EntityType::Filament => "FILAMENT",
            EntityType::Focus => "FOCUS",
            EntityType::Intent => "INTENT",
        }
    }

    /// A description of the type for the classifier.
    pub fn description(&self) -> (s: &'static str)
        ensures
            s@ == entity_type_description(*self),
    {
        match self {
            EntityType::Moment => "A discrete event/action - WHAT HAPPENED. Uses action verbs: went, did, met, called, visited.",
            EntityType::Pulse => "Internal state/feeling - HOW IT WAS/FELT. Uses state verbs + evaluative: felt, was nice, seemed.",
            EntityType::Thread => "An ongoing narrative, topic, person, or concept being discussed.",
            EntityType::Bond => "A statement about the relationship between two entities.",
            EntityType::Motif => "A recurring external pattern noticed over time.",
            EntityType::Filament => "A recurring internal pattern (habits, tendencies, reactions).",
            EntityType::Focus => "An active goal or thematic intention being pursued.",
            EntityType::Intent => "A future-oriented task or goal to accomplish.",
        }
    }

    /// Whether an entity of this type is created from the segment.
    pub fn spawns_entity(&self) -> (b: bool)
        ensures
            b <==> (*self == EntityType::Moment || *self == EntityType::Pulse || *self == EntityType::Intent
                || *self == EntityType::Bond),
    {
        match self {
            EntityType::Moment | EntityType::Pulse | EntityType::Intent | EntityType::Bond => true,
            _ => false,
        }
    }

    /// Whether the type refers to an entity that already exists.
    pub fn references_entity(&self) -> (b: bool)
        ensures
            b <==> (*self == EntityType::Thread || *self == EntityType::Motif || *self == EntityType::Filament
                || *self == EntityType::Focus || *self == EntityType::Bond),
    {
        match self {
            EntityType::Thread | EntityType::Motif | EntityType::Filament | EntityType::Focus | EntityType::Bond => true,
            _ => false,
        }
    }
}

/// The kind of evidence behind a classification.
#[derive(Debug, Clone, Copy, PartialEq, Eq, Structural)]
pub enum EvidenceType {
    VerbType,
    Keywords,
    Temporal,
    Emotional,
    EntityMention,
    Relational,
    Pattern,
    Context,
}

/// Why a segment was classified as it was.
#[derive(Debug, Clone)]
pub struct ClassificationReasoning {
    pub main_verb: Option<String>,
    pub verb_category: Option<VerbCategory>,
    pub key_phrases: Vec<String>,
    pub explanations: Vec<String>,
}

/// The category of a verb.
#[derive(Debug, Clone, Copy, PartialEq, Eq, Structural)]
pub enum VerbCategory {
    Action,
    State,
    Evaluative,
    Relational,
    Habitual,
    Intentional,
}

/// The verbs, subjects, objects and modifiers of a segment.
#[derive(Debug, Clone)]
pub struct LinguisticAnalysis {
    pub verbs: Vec<IdentifiedVerb>,
    pub subjects: Vec<String>,
    pub objects: Vec<String>,
    pub modifiers: Vec<String>,
}

/// A verb found in a segment.
#[derive(Debug, Clone)]
pub struct IdentifiedVerb {
    pub text: String,
    pub category: VerbCategory,
    pub tense: Option<VerbTense>,
    /// Whether it is the main verb of the segment.
    pub is_main: bool,
}

/// The tense of a verb.
#[derive(Debug, Clone, Copy, PartialEq, Eq, Structural)]
pub enum VerbTense {
    Past,
    Present,
    Future,
    Habitual,
}

} // verus!
