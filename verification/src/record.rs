//! The workout record: the unit of synchronization and retrieval.

use vstd::prelude::*;
use crate::embedding::Embedding;

verus! {

/// Mathematical image of a workout record; contracts and the store's view
/// speak in terms of this shape.
pub ghost struct RecordModel {
    /// Stable client-assigned identifier; the sole conflict key.
    pub id: u128,
    /// Identifier of the owning user, taken verbatim from the payload.
    pub owner_id: u128,
    pub name: Seq<char>,
    pub status: Seq<char>,
    /// Start instant, as a count of seconds.
    pub start_time: i64,
    /// End instant, when the workout has one.
    pub end_time: Option<i64>,
    /// Lifted weight in whole kilograms; absence renders as zero.
    pub volume_kg: Option<u64>,
    /// Conflict-resolution key: a strictly greater value wins.
    pub created_at: i64,
    /// Client-reported modification instant, informational only.
    pub last_modified: i64,
    /// Vector summary of the record's text; absent when embedding failed.
    pub embedding: Option<Seq<i64>>,
}

/// A workout record as clients submit it and the store holds it.
#[derive(Debug)]
pub struct WorkoutRecord {
    /// Stable client-assigned identifier; the sole conflict key.
    pub id: u128,
    /// Identifier of the owning user, taken verbatim from the payload.
    pub owner_id: u128,
    pub name: String,
    pub status: String,
    /// Start instant, as a count of seconds.
    pub start_time: i64,
    /// End instant, when the workout has one.
    pub end_time: Option<i64>,
    /// Lifted weight in whole kilograms; absence renders as zero.
    pub volume_kg: Option<u64>,
    /// Conflict-resolution key: a strictly greater value wins.
    pub created_at: i64,
    /// Client-reported modification instant, informational only.
    pub last_modified: i64,
    /// Vector summary of the record's text; absent when embedding failed.
    pub embedding: Option<Embedding>,
}

impl View for WorkoutRecord {
    type V = RecordModel;

    open spec fn view(&self) -> RecordModel {
        RecordModel {
            id: self.id,
            owner_id: self.owner_id,
            name: self.name@,
            status: self.status@,
            start_time: self.start_time,
            end_time: self.end_time,
            volume_kg: self.volume_kg,
            created_at: self.created_at,
            last_modified: self.last_modified,
            embedding: match self.embedding {
                Some(e) => Some(e@),
                None => None,
            },
        }
    }
}

impl WorkoutRecord {
    /// A fresh record carrying the same values.
    pub fn duplicate(&self) -> (r: WorkoutRecord)
        ensures
            r@ == self@,
    {
        WorkoutRecord {
            id: self.id,
            owner_id: self.owner_id,
            name: self.name.clone(),
            status: self.status.clone(),
            start_time: self.start_time,
            end_time: self.end_time,
            volume_kg: self.volume_kg,
            created_at: self.created_at,
            last_modified: self.last_modified,
            embedding: match &self.embedding {
                Some(e) => Some(e.duplicate()),
                None => None,
            },
        }
    }
}

/// The volume a record displays: its lifted weight, or zero when absent.
pub open spec fn volume_or_zero(r: RecordModel) -> u64 {
    match r.volume_kg {
        Some(v) => v,
        None => 0,
    }
}

} // verus!
