//! Journal entries: what changed, why, and how it went.
use vstd::prelude::*;

use crate::json::Json;
use crate::time::Timestamp;

verus! {

/// Why an entry was written.
#[derive(Debug)]
pub enum Trigger {
    PolicyApply { source: String },
    DhcpEvent { policy_name: String, event_kind: String },
    ExternalChange { changed_entities: Vec<String> },
    DaemonStartup,
    Revert { target_seq: u64 },
}

/// A policy that was active when an entry was written.
#[derive(Debug)]
pub struct PolicySummary {
    pub name: String,
    pub factory_type: String,
    pub priority: u32,
}

/// The change of one field: its kind is "set", "unset" or "unchanged".
#[derive(Debug)]
pub struct SerializableFieldChange {
    pub field_name: String,
    pub change_kind: String,
    pub current: Option<Json>,
    pub desired: Option<Json>,
    /// How the change went: "applied", "failed" or "skipped".
    pub outcome: Option<String>,
}

/// An operation on one entity: its kind is "add", "modify" or "remove".
#[derive(Debug)]
pub struct SerializableDiffOp {
    pub kind: String,
    pub entity_type: String,
    pub entity_name: String,
    pub field_changes: Vec<SerializableFieldChange>,
}

/// The operations of an entry.
#[derive(Debug)]
pub struct SerializableDiff {
    pub operations: Vec<SerializableDiffOp>,
}

/// The state of one entity.
#[derive(Debug)]
pub struct SerializableState {
    pub entity_type: String,
    pub selector_name: String,
    pub fields: Json,
}

/// The state of all entities.
#[derive(Debug)]
pub struct SerializableStateSet {
    pub entities: Vec<SerializableState>,
}

/// How the changes of an entry went.
#[derive(Clone, Copy, Debug, PartialEq, Eq, Structural)]
pub enum ApplyOutcome {
    Applied { succeeded: u32, failed: u32, skipped: u32 },
    Observed,
}

/// One entry of the journal.
#[derive(Debug)]
pub struct JournalEntry {
    pub seq: u64,
    pub timestamp: Timestamp,
    pub trigger: Trigger,
    pub active_policies: Vec<PolicySummary>,
    pub diff: SerializableDiff,
    pub state_after: SerializableStateSet,
    pub outcome: ApplyOutcome,
}

} // verus!
