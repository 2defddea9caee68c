//! Hints attached to spawned entities: bindings between entities, bonds
//! between threads, positions in the emotional space and thread detection.

use vstd::prelude::*;
use crate::legacy::entity::{EntityType, ThreadReference};

verus! {

// ----- bindings -----

/// A reference to an entity, by id where it has one.
#[derive(Debug, Clone)]
pub struct EntityRef {
    pub id: Option<String>,
    pub entity_type: EntityType,
    pub content: String,
    pub timestamp: Option<String>,
}

/// A unit of time.
#[derive(Debug, Clone, Copy, PartialEq, Eq, Structural)]
pub enum TimeUnit {
    Seconds,
    Minutes,
    Hours,
    Days,
    Weeks,
    Months,
    Years,
}

/// The evidence for a binding.
#[derive(Debug, Clone)]
pub struct BindingEvidence {
    pub evidence_type: BindingEvidenceType,
    /// The linguistic markers found.
    pub markers: Vec<String>,
    /// The text that triggered the detection.
    pub trigger_text: String,
    pub explanation: String,
}

/// The kind of evidence for a binding.
#[derive(Debug, Clone, Copy, PartialEq, Eq, Structural)]
pub enum BindingEvidenceType {
    LinguisticMarker,
    TemporalProximity,
    SemanticSimilarity,
    CoReference,
    EmotionalSimilarity,
    NarrativeContinuity,
    ExplicitStatement,
    ContextualInference,
}

/// A change to the binding graph.
#[derive(Debug, Clone, Copy, PartialEq, Eq, Structural)]
pub enum GraphUpdateType {
    AddBinding,
    StrengthenBinding,
    WeakenBinding,
    RemoveBinding,
    MergeBindings,
}

// ----- bonds -----

/// The kind of relationship between two threads.
#[derive(Debug, Clone, Copy, PartialEq, Eq, Structural)]
pub enum RelationshipType {
    Family,
    Friend,
    CloseFriend,
    BestFriend,
    Romantic,
    ExRomantic,
    Spouse,
    Parent,
    Child,
    Sibling,
    Colleague,
    Manager,
    DirectReport,
    Mentor,
    Mentee,
    Client,
    Vendor,
    Partner,
    Acquaintance,
    Neighbor,
    Classmate,
    Teammate,
    Adversary,
    Rival,
    ServiceProvider,
    Other,
}

/// How often two threads interact.
#[derive(Debug, Clone, Copy, PartialEq, Eq, Structural)]
pub enum InteractionFrequency {
    Daily,
    Weekly,
    Monthly,
    Quarterly,
    Yearly,
    Rarely,
}

/// How long a relationship has lasted.
#[derive(Debug, Clone, Copy, PartialEq, Eq, Structural)]
pub enum DurationCategory {
    /// Under three months.
    New,
    /// Three to twelve months.
    Recent,
    /// One to five years.
    Established,
    /// Five to fifteen years.
    LongTerm,
    /// Fifteen years or more.
    Lifelong,
}

/// The evidence for a bond.
#[derive(Debug, Clone)]
pub struct BondEvidence {
    pub trigger_text: String,
    pub indicator_type: BondIndicatorType,
    pub indicators: Vec<String>,
}

/// The kind of indicator for a bond.
#[derive(Debug, Clone, Copy, PartialEq, Eq, Structural)]
pub enum BondIndicatorType {
    ExplicitLabel,
    RelationalAction,
    EmotionalLanguage,
    PossessiveLanguage,
    FrequencyIndicator,
    ContextualInference,
}

// ----- positions -----

/// A position in valence-arousal-epistemic space, in millionths of a unit.
#[derive(Debug, Clone, Copy, PartialEq, Eq, Structural)]
pub struct VAEPosition {
    pub x: i64,
    pub y: i64,
    pub z: i64,
}

impl VAEPosition {
    /// The number of position units in one unit of the space.
    pub const SCALE: i64 = 1_000_000;
}

// ----- threads -----

/// A thread mentioned recently.
#[derive(Debug, Clone)]
pub struct RecentThread {
    pub thread: ThreadReference,
    /// How many messages ago it was mentioned.
    pub recency: u32,
    pub mention_count: u32,
}

/// The kind of subject a thread is about.
#[derive(Debug, Clone, Copy, PartialEq, Eq, Structural)]
pub enum SubjectType {
    /// The user.
    Self_,
    Person,
    Place,
    Organization,
    Concept,
    Event,
    Object,
    Other,
}

/// The category of a thread.
#[derive(Debug, Clone, Copy, PartialEq, Eq, Structural)]
pub enum ThreadCategory {
    People,
    Places,
    Activities,
    Projects,
    Topics,
    Events,
    Groups,
    Health,
    Finance,
    Relationships,
}

/// How a thread was detected in a segment.
#[derive(Debug, Clone, Copy, PartialEq, Eq, Structural)]
pub enum DetectionMethod {
    ExactMatch,
    AliasMatch,
    FuzzyMatch,
    PronounResolution,
    KeywordMatch,
    SemanticMatch,
}

/// How two threads relate.
#[derive(Debug, Clone, Copy, PartialEq, Eq, Structural)]
pub enum ThreadRelationType {
    PartOf,
    Contains,
    RelatedTo,
    CausesOf,
    OppositeOf,
    SameAs,
}

} // verus!
