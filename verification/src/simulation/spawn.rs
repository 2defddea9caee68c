//! Entities spawned from classified segments, and the system manifests of
//! the simulation's systems.

use vstd::prelude::*;
use crate::ids::UUID;
use crate::text::owned;

verus! {

/// What the spawning functions read of a spawned entity: its id and the text
/// of its content.
#[derive(Debug, Clone)]
pub struct EntityRecord {
    pub id: UUID,
    pub content: String,
}

/// An entity spawned from a classified segment, by kind.
#[derive(Debug, Clone)]
pub enum EntitySpawn {
    Moment(EntityRecord),
    Intent(EntityRecord),
    Thread(EntityRecord),
    Bond(EntityRecord),
    Pulse(EntityRecord),
    Motif(EntityRecord),
    Filament(EntityRecord),
    Focus(EntityRecord),
}

/// The record inside a spawned entity.
pub open spec fn spawn_record(s: EntitySpawn) -> EntityRecord {
    match s {
        EntitySpawn::Moment(e) => e,
        EntitySpawn::Intent(e) => e,
        EntitySpawn::Thread(e) => e,
        EntitySpawn::Bond(e) => e,
        EntitySpawn::Pulse(e) => e,
        EntitySpawn::Motif(e) => e,
        EntitySpawn::Filament(e) => e,
        EntitySpawn::Focus(e) => e,
    }
}

/// The name of a spawned entity's kind.
pub open spec fn spawn_kind_name(s: EntitySpawn) -> Seq<char> {
    match s {
        EntitySpawn::Moment(_) => "Moment"@,
        EntitySpawn::Intent(_) => "Intent"@,
        EntitySpawn::Thread(_) => "Thread"@,
        EntitySpawn::Bond(_) => "Bond"@,
        EntitySpawn::Pulse(_) => "Pulse"@,
        EntitySpawn::Motif(_) => "Motif"@,
        EntitySpawn::Filament(_) => "Filament"@,
        EntitySpawn::Focus(_) => "Focus"@,
    }
}

/// The id of a spawned entity.
pub fn entity_id(spawn: &EntitySpawn) -> (id: UUID)
    ensures
        id == spawn_record(*spawn).id,
{
    match spawn {
        EntitySpawn::Moment(e) => e.id,
        EntitySpawn::Intent(e) => e.id,
        EntitySpawn::Thread(e) => e.id,
        EntitySpawn::Bond(e) => e.id,
        EntitySpawn::Pulse(e) => e.id,
        EntitySpawn::Motif(e) => e.id,
        EntitySpawn::Filament(e) => e.id,
        EntitySpawn::Focus(e) => e.id,
    }
}

/// The name of a spawned entity's kind: `Moment`, `Intent` and so on.
pub fn entity_type_name(spawn: &EntitySpawn) -> (s: &'static str)
    ensures
        s@ == spawn_kind_name(*spawn),
{
    match spawn {
        EntitySpawn::Moment(_) => "Moment",
        EntitySpawn::Intent(_) => "Intent",
        EntitySpawn::Thread(_) => "Thread",
        EntitySpawn::Bond(_) => "Bond",
        EntitySpawn::Pulse(_) => "Pulse",
        EntitySpawn::Motif(_) => "Motif",
        EntitySpawn::Filament(_) => "Filament",
        EntitySpawn::Focus(_) => "Focus",
    }
}

/// The text of a spawned entity's content.
pub fn entity_content(spawn: &EntitySpawn) -> (s: &str)
    ensures
        s@ == spawn_record(*spawn).content@,
{
    match spawn {
        EntitySpawn::Moment(e) => e.content.as_str(),
        EntitySpawn::Intent(e) => e.content.as_str(),
        EntitySpawn::Thread(e) => e.content.as_str(),
        EntitySpawn::Bond(e) => e.content.as_str(),
        EntitySpawn::Pulse(e) => e.content.as_str(),
        EntitySpawn::Motif(e) => e.content.as_str(),
        EntitySpawn::Filament(e) => e.content.as_str(),
        EntitySpawn::Focus(e) => e.content.as_str(),
    }
}

/// The domain a system works in.
#[derive(Debug, Clone, Copy, PartialEq, Eq, Structural)]
pub enum SystemDomain {
    Ingestion,
    Physics,
}

/// What runs a system.
#[derive(Debug, Clone)]
pub enum SystemTrigger {
    /// An event, by name.
    Event(String),
    /// A cron schedule.
    Schedule(String),
}

/// What a system is, reads and writes, and what runs it.
#[derive(Debug, Clone)]
pub struct SystemManifest {
    pub id: String,
    pub domain: SystemDomain,
    pub description: String,
    /// The components it reads.
    pub reads: Vec<String>,
    /// The components it writes.
    pub writes: Vec<String>,
    pub trigger: SystemTrigger,
}

/// Strings as plain texts.
pub open spec fn manifest_texts(v: Seq<String>) -> Seq<Seq<char>> {
    v.map_values(|s: String| s@)
}

/// The manifest of the Heddle, the ingestion system that segments and
/// classifies raw input and writes every kind of entity.
pub fn get_heddle_manifest() -> (m: SystemManifest)
    ensures
        m.id@ == "sys_ingest_heddle"@,
        m.domain == SystemDomain::Ingestion,
        m.description@ == "The Heddle: Context-aware segmentation and classification engine."@,
        m.reads@.len() == 0,
        manifest_texts(m.writes@) == seq![
            "Moment"@,
            "Intent"@,
            "Thread"@,
            "Bond"@,
            "Pulse"@,
            "Motif"@,
            "Filament"@,
            "Focus"@,
        ],
        m.trigger matches SystemTrigger::Event(e) && e@ == "raw_input_received"@,
{
    let mut writes: Vec<String> = Vec::new();
    writes.push(owned("Moment"));
    writes.push(owned("Intent"));
    writes.push(owned("Thread"));
    writes.push(owned("Bond"));
    writes.push(owned("Pulse"));
    writes.push(owned("Motif"));
    writes.push(owned("Filament"));
    writes.push(owned("Focus"));
    proof {
        assert(manifest_texts(writes@) =~= seq![
            "Moment"@,
            "Intent"@,
            "Thread"@,
            "Bond"@,
            "Pulse"@,
            "Motif"@,
            "Filament"@,
            "Focus"@,
        ]);
    }
    SystemManifest {
        id: owned("sys_ingest_heddle"),
        domain: SystemDomain::Ingestion,
        description: owned("The Heddle: Context-aware segmentation and classification engine."),
        reads: Vec::new(),
        writes,
        trigger: SystemTrigger::Event(owned("raw_input_received")),
    }
}

/// The manifest of the field-potential system, which moves field
/// excitations along field gradients every second.
pub fn get_field_potential_manifest() -> (m: SystemManifest)
    ensures
        m.id@ == "sys_physics_field_potential"@,
        m.domain == SystemDomain::Physics,
        m.description@ == "Applies QFT field dynamics: excitations minimize action by following field gradients."@,
        manifest_texts(m.reads@) == seq!["FieldExcitation"@],
        manifest_texts(m.writes@) == seq!["FieldExcitation"@],
        m.trigger matches SystemTrigger::Schedule(c) && c@ == "*/1 * * * * *"@,
{
    let mut reads: Vec<String> = Vec::new();
    reads.push(owned("FieldExcitation"));
    let mut writes: Vec<String> = Vec::new();
    writes.push(owned("FieldExcitation"));
    proof {
        assert(manifest_texts(reads@) =~= seq!["FieldExcitation"@]);
        assert(manifest_texts(writes@) =~= seq!["FieldExcitation"@]);
    }
    SystemManifest {
        id: owned("sys_physics_field_potential"),
        domain: SystemDomain::Physics,
        description: owned("Applies QFT field dynamics: excitations minimize action by following field gradients."),
        reads,
        writes,
        trigger: SystemTrigger::Schedule(owned("*/1 * * * * *")),
    }
}

} // verus!
