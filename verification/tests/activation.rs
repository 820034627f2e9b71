use cce_engine::activation::{index_step, initial_index, IndexAction, IndexEvent, IndexPhase, IndexState};

fn run(events: &[IndexEvent]) -> (IndexState, Vec<Option<IndexAction>>) {
    let mut state = initial_index();
    let mut actions = Vec::new();
    for event in events {
        let (next, action) = index_step(state, *event);
        state = next;
        actions.push(action);
    }
    (state, actions)
}

#[test]
fn an_incomplete_snapshot_is_written_under_the_lease() {
    let (state, actions) = run(&[IndexEvent::Snapshot { complete: false, active: false }]);
    assert_eq!(actions, vec![Some(IndexAction::Write)]);
    assert_eq!(state, IndexState { phase: IndexPhase::Done, lease_held: true });
}

#[test]
fn a_complete_inactive_snapshot_is_rescanned_then_activated() {
    let (state, actions) = run(&[
        IndexEvent::Snapshot { complete: true, active: false },
        IndexEvent::Snapshot { complete: true, active: false },
        IndexEvent::Manifest { needs_repair: true, first_attempt: true },
        IndexEvent::Shards { fresh: true, view_present: true, lease_free: false },
    ]);
    assert_eq!(
        actions,
        vec![
            Some(IndexAction::AcquireLeaseAndRescan),
            Some(IndexAction::Activate),
            Some(IndexAction::Repair),
            Some(IndexAction::ReportReused),
        ]
    );
    assert_eq!(state, IndexState { phase: IndexPhase::Done, lease_held: true });
}

#[test]
fn a_rescan_that_finds_another_writer_finished_goes_straight_to_the_manifest() {
    let (_, actions) = run(&[
        IndexEvent::Snapshot { complete: true, active: false },
        IndexEvent::Snapshot { complete: true, active: true },
    ]);
    assert_eq!(actions, vec![Some(IndexAction::AcquireLeaseAndRescan), Some(IndexAction::ReadManifest)]);
    let (_, actions) = run(&[
        IndexEvent::Snapshot { complete: true, active: false },
        IndexEvent::Snapshot { complete: false, active: false },
    ]);
    assert_eq!(actions, vec![Some(IndexAction::AcquireLeaseAndRescan), Some(IndexAction::Write)]);
}

#[test]
fn an_active_snapshot_is_reused_without_the_lease() {
    let (state, actions) = run(&[
        IndexEvent::Snapshot { complete: true, active: true },
        IndexEvent::Manifest { needs_repair: true, first_attempt: false },
        IndexEvent::Shards { fresh: false, view_present: true, lease_free: false },
    ]);
    assert_eq!(
        actions,
        vec![Some(IndexAction::ReadManifest), Some(IndexAction::CheckShards), Some(IndexAction::ReportReused)]
    );
    assert_eq!(state, IndexState { phase: IndexPhase::Done, lease_held: false });
    let (state, actions) = run(&[
        IndexEvent::Snapshot { complete: true, active: true },
        IndexEvent::Manifest { needs_repair: false, first_attempt: true },
        IndexEvent::Shards { fresh: true, view_present: false, lease_free: true },
    ]);
    assert_eq!(actions[2], Some(IndexAction::RebuildShards));
    assert!(state.lease_held);
}

#[test]
fn events_out_of_turn_change_nothing() {
    let start = initial_index();
    let (state, action) = index_step(start, IndexEvent::Manifest { needs_repair: true, first_attempt: true });
    assert_eq!((state, action), (start, None));
    let done = IndexState { phase: IndexPhase::Done, lease_held: true };
    let (state, action) = index_step(done, IndexEvent::Snapshot { complete: false, active: false });
    assert_eq!((state, action), (done, None));
}
