use dreamwake_client::control::{
    check_reset_batch, coalesce_ack, connect_gate, disconnect_cause, menu_decision,
    probe_due, profile_connect, resync_due, retry_connect, welcome_decision, ConnectGate,
    DisconnectCause, FinalizeError, Finalization, MenuDecision, NetworkOptions, ProfileConnect,
    ResetTarget, StartupAction, WelcomeDecision, WelcomeError,
};
use dreamwake_client::ids::{EntityId, GroupRevision};

fn fresh(finalized: u64) -> Finalization {
    Finalization { finalized, ack_pending: None, in_flight_action: None }
}

#[test]
fn duplicate_and_older_finalization_does_not_advance() {
    let mut state = fresh(100);
    assert_eq!(state.advance(110, Some(101)), Ok(true));
    assert_eq!(state.finalized, 110);
    assert_eq!(state.advance(110, Some(101)), Ok(false));
    assert_eq!(state.advance(105, None), Ok(false));
    assert_eq!(state.finalized, 110);
}

#[test]
fn finalization_that_skips_receipts_is_refused() {
    let mut state = fresh(100);
    assert_eq!(state.advance(120, Some(105)), Err(FinalizeError::ReceiptGap));
    assert_eq!(state.advance(120, None), Err(FinalizeError::ReceiptGap));
    assert_eq!(state, fresh(100));
    assert_eq!(FinalizeError::ReceiptGap.message(), "Finalization receipt gap");
}

#[test]
fn acknowledgements_coalesce_to_the_greatest_tick_and_can_be_restored() {
    let mut state = Finalization { finalized: 10, ack_pending: None, in_flight_action: Some(3) };
    state.complete(12, Some(2));
    assert_eq!(state.ack_pending, Some(12));
    assert_eq!(state.in_flight_action, Some(3));
    state.complete(11, Some(3));
    assert_eq!(state.ack_pending, Some(12));
    assert_eq!(state.in_flight_action, None);
    assert_eq!(state.take_ack(), Some(12));
    assert_eq!(state.take_ack(), None);
    state.restore_ack(12);
    assert_eq!(state.ack_pending, Some(12));
    assert_eq!(coalesce_ack(Some(7), 5), Some(7));
    assert_eq!(coalesce_ack(None, 5), Some(5));
    state.activate(9);
    assert_eq!(state.finalized, 10);
    state.activate(15);
    assert_eq!(state.finalized, 15);
}

#[test]
fn welcomes_restart_only_for_new_instances_or_epochs() {
    assert_eq!(welcome_decision(true, true, None, 1, 1), Ok(WelcomeDecision::Start));
    assert_eq!(welcome_decision(true, true, Some((1, 2)), 1, 2), Ok(WelcomeDecision::Ignore));
    assert_eq!(welcome_decision(true, true, Some((1, 2)), 1, 1), Ok(WelcomeDecision::Ignore));
    assert_eq!(welcome_decision(true, true, Some((1, 2)), 1, 3), Ok(WelcomeDecision::Start));
    assert_eq!(welcome_decision(true, true, Some((1, 2)), 2, 1), Ok(WelcomeDecision::Start));
    assert_eq!(welcome_decision(false, true, None, 1, 1), Err(WelcomeError::Incompatible));
    assert_eq!(welcome_decision(true, false, None, 1, 1), Err(WelcomeError::Incompatible));
}

fn target(index: u64, connection: u64, revision: u64) -> ResetTarget {
    ResetTarget {
        entity: EntityId { index, generation: 1 },
        connection,
        group: Some(GroupRevision { group: 1, revision }),
    }
}

#[test]
fn owner_reset_batches_must_cover_the_mandatory_members_once() {
    let mandatory = [
        EntityId { index: 1, generation: 1 },
        EntityId { index: 2, generation: 1 },
        EntityId { index: 3, generation: 1 },
    ];
    let good = vec![target(1, 4, 2), target(2, 4, 2), target(3, 4, 2), target(9, 4, 2)];
    assert!(check_reset_batch(&good, true, mandatory, 4));
    assert!(!check_reset_batch(&good, false, mandatory, 4));
    assert!(!check_reset_batch(&good, true, mandatory, 5));
    let missing = vec![target(1, 4, 2), target(2, 4, 2), target(9, 4, 2)];
    assert!(!check_reset_batch(&missing, true, mandatory, 4));
    let repeated = vec![target(1, 4, 2), target(2, 4, 2), target(3, 4, 2), target(2, 4, 2)];
    assert!(!check_reset_batch(&repeated, true, mandatory, 4));
    let mixed = vec![target(1, 4, 2), target(2, 4, 2), target(3, 4, 3)];
    assert!(!check_reset_batch(&mixed, true, mandatory, 4));
}

#[test]
fn menu_actions_wait_for_the_one_in_flight_except_pause() {
    assert_eq!(menu_decision(false, false, true, true, None, 4), MenuDecision::Send(5));
    assert_eq!(menu_decision(false, false, true, true, Some(5), 5), MenuDecision::Drop);
    assert_eq!(menu_decision(false, true, true, true, Some(5), 5), MenuDecision::Send(6));
    assert_eq!(menu_decision(true, false, true, true, None, 4), MenuDecision::Drop);
    assert_eq!(menu_decision(false, false, false, true, None, 4), MenuDecision::Drop);
    assert_eq!(menu_decision(false, false, true, false, None, 4), MenuDecision::Drop);
    assert_eq!(menu_decision(false, false, true, true, None, u64::MAX), MenuDecision::Disconnect);
}

#[test]
fn paced_requests_wait_for_their_interval() {
    assert!(!resync_due(1_500_000_000, 1_000_000_000));
    assert!(resync_due(2_000_000_000, 1_000_000_000));
    assert!(!probe_due(1_200_000_000, 1_000_000_000));
    assert!(probe_due(1_250_000_000, 1_000_000_000));
    assert!(!probe_due(5, 10));
}

#[test]
fn disconnect_reports_transport_before_timeout_and_the_welcome_phase() {
    assert_eq!(disconnect_cause(true, true), Some(DisconnectCause::Transport));
    assert_eq!(disconnect_cause(false, true), Some(DisconnectCause::Timeout));
    assert_eq!(disconnect_cause(false, false), None);
    assert_eq!(
        DisconnectCause::Transport.status(true),
        "Connection ended before the server welcome. Try joining again."
    );
    assert_eq!(
        DisconnectCause::Transport.status(false),
        "Disconnected. Join again to reconnect with the same Traveler ID."
    );
    assert_eq!(
        DisconnectCause::Timeout.status(true),
        "Timed out waiting for the server welcome. Try joining again."
    );
    assert_eq!(
        DisconnectCause::Timeout.status(false),
        "Timed out waiting for server updates. Join again to reconnect."
    );
}

#[test]
fn startup_hosts_before_joining() {
    let options = NetworkOptions {
        seed: 7,
        auto_connect: true,
        auto_host: true,
        expected_party: 2,
        hosted: false,
        max_clients: 4,
    };
    assert_eq!(options.startup_action(), Some(StartupAction::Host));
    let join = NetworkOptions { auto_host: false, ..options };
    assert_eq!(join.startup_action(), Some(StartupAction::Connect { attempts: 1 }));
    let idle = NetworkOptions { auto_connect: false, ..join };
    assert_eq!(idle.startup_action(), None);
}

#[test]
fn connection_requests_wait_for_the_profile() {
    assert_eq!(profile_connect(true, Some(3), false), ProfileConnect::Wait);
    assert_eq!(profile_connect(false, None, false), ProfileConnect::Idle);
    assert_eq!(profile_connect(false, Some(3), true), ProfileConnect::StorageFailed);
    assert_eq!(profile_connect(false, Some(3), false), ProfileConnect::Connect(3));
}

#[test]
fn connecting_needs_an_accepted_server_an_idle_profile_and_a_lock() {
    assert_eq!(connect_gate(false, true, true, 3), ConnectGate::ServerRefused);
    assert_eq!(connect_gate(true, true, true, 3), ConnectGate::AwaitProfile { attempts: 3 });
    assert_eq!(connect_gate(true, false, false, 3), ConnectGate::LockRefused);
    assert_eq!(connect_gate(true, false, true, 40), ConnectGate::Start { tries: 40 });
    assert_eq!(connect_gate(true, false, true, 0), ConnectGate::Start { tries: 1 });
    assert!(retry_connect(0, 2));
    assert!(!retry_connect(1, 2));
    assert!(!retry_connect(0, 0));
    assert!(!retry_connect(u32::MAX, u32::MAX));
}
