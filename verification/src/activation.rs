//! The decisions an index run makes between its scan and its outcome:
//! whether the scanned snapshot is reused or written, when the write lease
//! is taken, when a complete but inactive snapshot is activated, when stuck
//! views are repaired and when the search shards are rebuilt. The store, the
//! lease and the shard builder do the work; this module only decides, one
//! event at a time.

use vstd::prelude::*;

verus! {

/// Where an index run stands.
#[derive(Clone, Copy, Debug, PartialEq, Eq, Structural)]
pub enum IndexPhase {
    /// The first scan, taken without the write lease.
    Scanned,
    /// The scan repeated under the write lease, before any activation.
    Rescanned,
    /// The snapshot is complete and active; its view manifest comes next.
    Reusing,
    /// Stuck views are settled; the search shards are checked next.
    CheckingShards,
    /// The run has taken its last decision.
    Done,
}

/// The phase and whether this run holds the write lease.
#[derive(Clone, Copy, Debug, PartialEq, Eq, Structural)]
pub struct IndexState {
    pub phase: IndexPhase,
    pub lease_held: bool,
}

/// What the outside world reports back after an action.
#[derive(Clone, Copy, Debug, PartialEq, Eq, Structural)]
pub enum IndexEvent {
    /// The store on the scanned snapshot: whether its records are
    /// committed, and whether it is the repository's current snapshot.
    Snapshot { complete: bool, active: bool },
    /// The view manifest: whether some view is `Building` or `Failed`, and
    /// whether this process has not tried to repair this snapshot before.
    Manifest { needs_repair: bool, first_attempt: bool },
    /// The search shards: whether their marker names this snapshot, whether
    /// the manifest has a status for them, and whether the write lease is
    /// free to take (only asked where the run does not hold it).
    Shards { fresh: bool, view_present: bool, lease_free: bool },
}

/// What the run does next.
#[derive(Clone, Copy, Debug, PartialEq, Eq, Structural)]
pub enum IndexAction {
    /// Take the write lease and scan again under it.
    AcquireLeaseAndRescan,
    /// Make the complete snapshot the current one, then read its manifest.
    Activate,
    /// Read the snapshot's view manifest.
    ReadManifest,
    /// Take the lease if not held, repair the stuck views, then check the
    /// search shards.
    Repair,
    /// Check the search shards.
    CheckShards,
    /// Rebuild the search shards under the lease, then report reuse.
    RebuildShards,
    /// Report the snapshot as reused.
    ReportReused,
    /// Take the lease if not held and write the snapshot's records.
    Write,
}

/// The state an index run starts in, right after its first scan.
pub open spec fn initial_index_state() -> IndexState {
    IndexState { phase: IndexPhase::Scanned, lease_held: false }
}

/// The decision table. An event that does not belong to the phase leaves
/// the state as it is and asks for nothing.
pub open spec fn index_step_of(s: IndexState, e: IndexEvent) -> (IndexState, Option<IndexAction>) {
    match (s.phase, e) {
        (IndexPhase::Scanned, IndexEvent::Snapshot { complete, active }) => if !complete {
            (IndexState { phase: IndexPhase::Done, lease_held: true }, Some(IndexAction::Write))
        } else if !active {
            (
                IndexState { phase: IndexPhase::Rescanned, lease_held: true },
                Some(IndexAction::AcquireLeaseAndRescan),
            )
        } else {
            (IndexState { phase: IndexPhase::Reusing, ..s }, Some(IndexAction::ReadManifest))
        },
        (IndexPhase::Rescanned, IndexEvent::Snapshot { complete, active }) => if !complete {
            (IndexState { phase: IndexPhase::Done, lease_held: true }, Some(IndexAction::Write))
        } else if !active {
            (IndexState { phase: IndexPhase::Reusing, lease_held: true }, Some(IndexAction::Activate))
        } else {
            (
                IndexState { phase: IndexPhase::Reusing, lease_held: true },
                Some(IndexAction::ReadManifest),
            )
        },
        (IndexPhase::Reusing, IndexEvent::Manifest { needs_repair, first_attempt }) => if needs_repair
            && first_attempt {
            (
                IndexState { phase: IndexPhase::CheckingShards, lease_held: true },
                Some(IndexAction::Repair),
            )
        } else {
            (IndexState { phase: IndexPhase::CheckingShards, ..s }, Some(IndexAction::CheckShards))
        },
        (IndexPhase::CheckingShards, IndexEvent::Shards { fresh, view_present, lease_free }) => if fresh
            && view_present {
            (IndexState { phase: IndexPhase::Done, ..s }, Some(IndexAction::ReportReused))
        } else if s.lease_held || lease_free {
            (
                IndexState { phase: IndexPhase::Done, lease_held: true },
                Some(IndexAction::RebuildShards),
            )
        } else {
            (IndexState { phase: IndexPhase::Done, ..s }, Some(IndexAction::ReportReused))
        },
        _ => (s, None),
    }
}

/// The state an index run starts in.
pub fn initial_index() -> (r: IndexState)
    ensures
        r == initial_index_state(),
{
    IndexState { phase: IndexPhase::Scanned, lease_held: false }
}

/// One decision: the next state and the action the caller performs.
pub fn index_step(state: IndexState, event: IndexEvent) -> (r: (IndexState, Option<IndexAction>))
    ensures
        r == index_step_of(state, event),
{
    let same = (state, None);
    match state.phase {
        IndexPhase::Scanned => match event {
            IndexEvent::Snapshot { complete, active } => if !complete {
                (IndexState { phase: IndexPhase::Done, lease_held: true }, Some(IndexAction::Write))
            } else if !active {
                (
                    IndexState { phase: IndexPhase::Rescanned, lease_held: true },
                    Some(IndexAction::AcquireLeaseAndRescan),
                )
            } else {
                (
                    IndexState { phase: IndexPhase::Reusing, lease_held: state.lease_held },
                    Some(IndexAction::ReadManifest),
                )
            },
            _ => same,
        },
        IndexPhase::Rescanned => match event {
            IndexEvent::Snapshot { complete, active } => if !complete {
                (IndexState { phase: IndexPhase::Done, lease_held: true }, Some(IndexAction::Write))
            } else if !active {
                (
                    IndexState { phase: IndexPhase::Reusing, lease_held: true },
                    Some(IndexAction::Activate),
                )
            } else {
                (
                    IndexState { phase: IndexPhase::Reusing, lease_held: true },
                    Some(IndexAction::ReadManifest),
                )
            },
            _ => same,
        },
        IndexPhase::Reusing => match event {
            IndexEvent::Manifest { needs_repair, first_attempt } => if needs_repair
                && first_attempt {
                (
                    IndexState { phase: IndexPhase::CheckingShards, lease_held: true },
                    Some(IndexAction::Repair),
                )
            } else {
                (
                    IndexState { phase: IndexPhase::CheckingShards, lease_held: state.lease_held },
                    Some(IndexAction::CheckShards),
                )
            },
            _ => same,
        },
        IndexPhase::CheckingShards => match event {
            IndexEvent::Shards { fresh, view_present, lease_free } => if fresh && view_present {
                (
                    IndexState { phase: IndexPhase::Done, lease_held: state.lease_held },
                    Some(IndexAction::ReportReused),
                )
            } else if state.lease_held || lease_free {
                (
                    IndexState { phase: IndexPhase::Done, lease_held: true },
                    Some(IndexAction::RebuildShards),
                )
            } else {
                (
                    IndexState { phase: IndexPhase::Done, lease_held: false },
                    Some(IndexAction::ReportReused),
                )
            },
            _ => same,
        },
        IndexPhase::Done => same,
    }
}

/// Actions that write to the store or the shards.
pub open spec fn writes(a: IndexAction) -> bool {
    a is Activate || a is Repair || a is RebuildShards || a is Write
}

/// Every action that writes, to the store or to the shards, is taken with
/// the write lease held; and a run never lets go of a lease it holds.
pub proof fn law_writes_hold_the_lease(s: IndexState, e: IndexEvent)
    ensures
        index_step_of(s, e).1 is Some && writes(index_step_of(s, e).1->0) ==> index_step_of(
            s,
            e,
        ).0.lease_held,
        s.lease_held ==> index_step_of(s, e).0.lease_held,
{
}

/// A complete snapshot that is not current is activated only after the scan
/// was repeated under the lease, and only if that scan still finds it
/// complete and inactive.
pub proof fn law_activation_follows_a_rescan(s: IndexState, e: IndexEvent)
    ensures
        index_step_of(s, e).1 == Some(IndexAction::Activate) <==> (s.phase == IndexPhase::Rescanned
            && e == (IndexEvent::Snapshot { complete: true, active: false })),
{
}

/// The records of a snapshot are written exactly when a scan finds it
/// incomplete; a complete snapshot is never rewritten, and once the run
/// has reached the manifest it only reuses.
pub proof fn law_complete_snapshots_are_reused(s: IndexState, e: IndexEvent)
    ensures
        index_step_of(s, e).1 == Some(IndexAction::Write) <==> ((s.phase == IndexPhase::Scanned
            || s.phase == IndexPhase::Rescanned) && e is Snapshot && !e->complete),
        (s.phase == IndexPhase::Reusing || s.phase == IndexPhase::CheckingShards)
            ==> index_step_of(s, e).1 != Some(IndexAction::Write),
{
}

/// Stuck views are repaired at most once per snapshot and process: only on
/// a first attempt, and only when some view is stuck.
pub proof fn law_repair_only_when_stuck(s: IndexState, e: IndexEvent)
    ensures
        index_step_of(s, e).1 == Some(IndexAction::Repair) <==> (s.phase == IndexPhase::Reusing
            && e == (IndexEvent::Manifest { needs_repair: true, first_attempt: true })),
{
}

/// Fresh shards with a status are left alone; stale or unrecorded ones are
/// rebuilt unless another writer holds the lease, in which case the run
/// reports reuse without touching them.
pub proof fn law_shards_rebuilt_only_when_stale(s: IndexState, e: IndexEvent)
    requires
        s.phase == IndexPhase::CheckingShards,
        e is Shards,
    ensures
        index_step_of(s, e).1 == Some(IndexAction::RebuildShards) <==> (!(e->fresh
            && e->view_present) && (s.lease_held || e->lease_free)),
        index_step_of(s, e).0.phase == IndexPhase::Done,
{
}

/// The position of a phase in a run; a run takes at most four decisions.
pub open spec fn phase_rank(p: IndexPhase) -> int {
    match p {
        IndexPhase::Scanned => 0,
        IndexPhase::Rescanned => 1,
        IndexPhase::Reusing => 2,
        IndexPhase::CheckingShards => 3,
        IndexPhase::Done => 4,
    }
}

/// Every step that asks for an action moves the phase strictly forward, and
/// a finished run asks for nothing.
pub proof fn law_runs_end(s: IndexState, e: IndexEvent)
    ensures
        index_step_of(s, e).1 is Some ==> phase_rank(s.phase) < phase_rank(index_step_of(s, e).0.phase),
        s.phase == IndexPhase::Done ==> index_step_of(s, e) == (s, None::<IndexAction>),
{
}

} // verus!
