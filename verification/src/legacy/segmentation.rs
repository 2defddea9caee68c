//! Segmentation of an input into semantic units.

use vstd::prelude::*;
use crate::legacy::base::Modality;

verus! {

/// An entity the segmenter knows by name.
#[derive(Debug, Clone)]
pub struct KnownEntity {
    pub id: String,
    pub name: String,
    pub aliases: Vec<String>,
    pub entity_type: String,
}

/// Where a segment lies in its input: character offsets for text, milliseconds
/// for audio and video.
#[derive(Debug, Clone)]
pub struct SegmentBoundaries {
    pub start: u64,
    pub end: u64,
    pub speaker_id: Option<String>,
}

/// The kind of an entity mentioned in a segment.
#[derive(Debug, Clone, Copy, PartialEq, Eq, Structural)]
pub enum EntityMentionType {
    Person,
    Place,
    Organization,
    DateTime,
    Event,
    Concept,
    Object,
    Activity,
}

/// A reference to time in a segment.
#[derive(Debug, Clone)]
pub struct TemporalMarker {
    pub text: String,
    pub parsed: Option<ParsedTemporal>,
    pub marker_type: TemporalMarkerType,
}

/// What a temporal marker was understood to mean.
#[derive(Debug, Clone)]
pub struct ParsedTemporal {
    /// An ISO 8601 date, where one was found.
    pub date: Option<String>,
    /// Days from today: negative in the past, positive in the future.
    pub relative_days: Option<i32>,
    pub time_of_day: Option<String>,
}

/// The kind of a temporal marker.
#[derive(Debug, Clone, Copy, PartialEq, Eq, Structural)]
pub enum TemporalMarkerType {
    Absolute,
    Relative,
    Duration,
    Frequency,
    TimeOfDay,
}

/// What a segmentation produced.
#[derive(Debug, Clone)]
pub struct SegmentationMetadata {
    pub modality: Modality,
    pub segment_count: usize,
    pub entity_count: usize,
    pub temporal_count: usize,
    pub language: Option<String>,
    pub speaker_count: Option<usize>,
}

} // verus!
