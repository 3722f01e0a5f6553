use dreamwake_client::ids::ActionKey;
use dreamwake_client::outcomes::{
    ActionEdge, ActionKind, ActionOutcome, ClientOutcomes, IssuedCommand, OutcomeError,
    RETENTION_NANOS,
};

const SECOND: u64 = 1_000_000_000;

fn command() -> IssuedCommand {
    IssuedCommand {
        connection: 1,
        stream: 1,
        sequence: 1,
        target: 9,
        actions: vec![ActionEdge { slot: 0, kind: ActionKind::Dash, view: None }],
    }
}

fn terminal(key: ActionKey) -> ActionOutcome {
    ActionOutcome { sequence: 1, key, execution_tick: 9, payload: b"rejected/timing".to_vec() }
}

#[test]
fn finalized_is_not_terminal_and_reconnect_lookup_is_owner_bound() {
    let mut state = ClientOutcomes::new();
    let command = command();
    state.track(7, &command, 0).unwrap();
    assert!(state.lookup(7, 1, 8, 2 * SECOND).is_none());
    assert!(state.lookup(8, 2, 0, 2 * SECOND).is_none());
    assert!(state.lookup(7, 2, 0, 2 * SECOND).is_some());
    assert!(state.latest(7).is_none());
    let outcome = terminal(command.action_key(0));
    state.receive(7, outcome.duplicate(), 2 * SECOND).unwrap();
    state.receive(7, outcome.duplicate(), 2 * SECOND).unwrap();
    assert_eq!(state.latest(7), Some(outcome.duplicate()));
    let mut conflict = outcome;
    conflict.sequence = 2;
    assert!(state.receive(7, conflict, 2 * SECOND).is_err());
    assert!(state.lookup(7, 2, 10, 3 * SECOND).is_none());
}

#[test]
fn unavailable_and_retention_expiry_never_create_rejection() {
    let mut state = ClientOutcomes::new();
    let command = command();
    state.track(7, &command, 0).unwrap();
    state.unavailable(7, &vec![command.action_key(0)]);
    assert!(state.latest(7).is_none());
    assert!(state.lookup(7, 2, 10, 2 * SECOND).is_none());
    state.lookup(7, 2, 10, RETENTION_NANOS);
    assert_eq!(state.len(), 0);
}

#[test]
fn authenticated_instance_restart_discards_results_before_key_reuse() {
    let mut state = ClientOutcomes::new();
    state.bind_instance(1);
    let command = command();
    state.track(7, &command, 0).unwrap();
    state.receive(7, terminal(command.action_key(0)), 2 * SECOND).unwrap();
    state.bind_instance(1);
    assert!(state.latest(7).is_some(), "ordinary reconnect preserves results");
    state.bind_instance(2);
    assert!(state.latest(7).is_none());
    assert!(state.lookup(7, 1, 10, 2 * SECOND).is_none());
    state.track(7, &command, 2 * SECOND).unwrap();
    let mut new = terminal(command.action_key(0));
    new.sequence = 99;
    state.receive(7, new.duplicate(), 2 * SECOND).unwrap();
    assert_eq!(state.latest(7), Some(new));
}

#[test]
fn conflicting_batch_is_atomic_and_timeline_is_not_graphics_proof() {
    let mut state = ClientOutcomes::new();
    state.bind_instance(1);
    let first = command();
    let mut second = command();
    second.sequence = 2;
    state.track(7, &first, 0).unwrap();
    state.track(7, &second, 0).unwrap();
    let saved = terminal(second.action_key(0));
    state.receive(7, saved.duplicate(), SECOND).unwrap();
    let mut conflict = saved;
    conflict.sequence += 1;
    assert!(state
        .receive_batch(7, &vec![terminal(first.action_key(0)), conflict], 2 * SECOND)
        .is_err());
    assert!(!state.has_outcome(&first.action_key(0)));
    state.observe(7, 2, 10, 2 * SECOND, false);
    assert!(state.latest_trace(7).unwrap().checkpoint.is_none());
    state.observe(7, 1, 10, 2 * SECOND, true);
    let trace = state.latest_trace(7).unwrap();
    assert!(trace.presented_timeline.is_some());
    assert!(trace.graphics_seen.is_none());
    assert!(trace.graphics_id.is_none());
}

#[test]
fn batch_errors_name_the_first_refused_record() {
    let mut state = ClientOutcomes::new();
    let command = command();
    state.track(7, &command, 0).unwrap();
    let key = command.action_key(0);
    let a = terminal(key);
    let mut b = terminal(key);
    b.sequence = 5;
    assert_eq!(
        state.receive_batch(7, &vec![a.duplicate(), b], SECOND),
        Err(OutcomeError::ConflictingBatch)
    );
    assert!(!state.has_outcome(&key));
    assert_eq!(
        state.receive_batch(8, &vec![a.duplicate()], SECOND),
        Err(OutcomeError::ConflictingOutcome)
    );
    assert_eq!(state.receive(8, a.duplicate(), SECOND), Err(OutcomeError::OwnerMismatch));
    state.receive_batch(7, &vec![a.duplicate(), a.duplicate()], SECOND).unwrap();
    assert!(state.has_outcome(&key));
    assert_eq!(OutcomeError::ConflictingBatch.message(), "Conflicting terminal action batch");
}

#[test]
fn lookup_is_paced_and_names_at_most_eight_records() {
    let mut state = ClientOutcomes::new();
    let mut command = command();
    command.actions = (0..10u8)
        .map(|slot| ActionEdge { slot, kind: ActionKind::Cast, view: None })
        .collect();
    state.track(7, &command, 0).unwrap();
    assert_eq!(state.len(), 10);
    let keys = state.lookup(7, 2, 0, 2 * SECOND).unwrap();
    assert_eq!(keys.len(), 8);
    assert_eq!(keys[0], command.action_key(0));
    assert_eq!(keys[7], command.action_key(7));
    // Within 250 ms nothing is sent; after it only the two not yet asked.
    assert!(state.lookup(7, 2, 0, 2 * SECOND + 100_000_000).is_none());
    let rest = state.lookup(7, 2, 0, 2 * SECOND + 300_000_000).unwrap();
    assert_eq!(rest, vec![command.action_key(8), command.action_key(9)]);
    // The first eight are asked again only a full second after their lookup.
    assert!(state.lookup(7, 2, 0, 2 * SECOND + 600_000_000).is_none());
    assert_eq!(state.lookup(7, 2, 0, 3 * SECOND).unwrap().len(), 8);
}

#[test]
fn trace_is_newest_first_and_bounded() {
    let mut state = ClientOutcomes::new();
    state.bind_instance(4);
    let mut command = command();
    command.actions = vec![
        ActionEdge { slot: 0, kind: ActionKind::Ray, view: None },
        ActionEdge { slot: 1, kind: ActionKind::BeamStop, view: None },
    ];
    state.track(7, &command, 5).unwrap();
    let trace = state.trace(7, 10);
    assert_eq!(trace.len(), 2);
    assert_eq!(trace[0].key, command.action_key(1));
    assert_eq!(trace[0].kind.name(), "beam_stop");
    assert_eq!(trace[1].kind.name(), "ray");
    assert_eq!(trace[1].server_instance, 4);
    assert_eq!(trace[1].created_at, 5);
    assert_eq!(state.trace(7, 1).len(), 1);
    assert!(state.trace(8, 10).is_empty());
    state.enqueued(&vec![command.action_key(0)], 9);
    state.enqueued(&vec![command.action_key(0)], 11);
    assert_eq!(state.trace(7, 10)[1].first_enqueued_at, Some(9));
    state.graphics_seen(7, command.action_key(1), 55, 12, 13);
    let latest = state.latest_trace(7).unwrap();
    assert_eq!(latest.graphics_id, Some(55));
    assert_eq!(latest.graphics_seen.unwrap().tick, 12);
}

#[test]
fn capacity_refuses_a_whole_command() {
    let mut state = ClientOutcomes::new();
    let mut command = command();
    command.actions = (0..=255u8)
        .map(|slot| ActionEdge { slot, kind: ActionKind::Invalid, view: None })
        .collect();
    for sequence in 0..64 {
        command.sequence = sequence;
        state.track(7, &command, 0).unwrap();
    }
    assert_eq!(state.len(), 16_384);
    command.sequence = 64;
    assert_eq!(state.track(7, &command, 0), Err(OutcomeError::Capacity));
    assert_eq!(state.len(), 16_384);
    // Expired records make room again.
    state.track(7, &command, RETENTION_NANOS).unwrap();
    assert_eq!(state.len(), 256);
}
