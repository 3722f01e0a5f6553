use dreamwake_client::commands::unstarted_prediction;
use dreamwake_client::ids::{EntityId, ScopeIdentity};
use dreamwake_client::reconcile::{
    advanced_topology, check_topology_replacement, plan_reconcile, same_identity,
    PredictionIdentity, PublishedGroup, ReconcileError, ReconcilePlan, ReconcileState,
    TopologyRefusal,
};

fn entity(index: u64) -> EntityId {
    EntityId { index, generation: 1 }
}

fn scope(index: u64, scope: u64) -> ScopeIdentity {
    ScopeIdentity { connection: 1, entity: entity(index), scope, representation: 1 }
}

const MANDATORY: [EntityId; 3] = [
    EntityId { index: 1, generation: 1 },
    EntityId { index: 2, generation: 1 },
    EntityId { index: 3, generation: 1 },
];

fn identity() -> PredictionIdentity {
    PredictionIdentity {
        binding_current: true,
        revision: 1,
        scopes: vec![scope(1, 1), scope(2, 1), scope(3, 1)],
    }
}

fn platform_topology(end_tick: u64) -> PublishedGroup {
    PublishedGroup {
        end_tick,
        revision: 2,
        manifest: vec![scope(1, 1), scope(2, 1), scope(3, 1), scope(9, 1)],
    }
}

fn started(sequence: u64, finalized: u64) -> ReconcileState {
    ReconcileState {
        recovering: false,
        active: true,
        sequence,
        predicting: true,
        finalized,
        predicted: Some(442),
        unstarted: false,
    }
}

fn rejects_thirteen_tick_advance(sequence: u64) {
    let proof = platform_topology(455);
    let identity = identity();
    assert_eq!(
        plan_reconcile(&started(sequence, 455), Some(&proof), Some(&identity), MANDATORY),
        Ok(ReconcilePlan::ReplaceTopology)
    );
    let refusal = check_topology_replacement(442, 455, proof.revision, 0, 0, false, 1 << 20)
        .unwrap_err();
    assert_eq!(
        refusal.message(true, sequence),
        format!(
            "topology replay exceeds frame work budget: predicted=442 incoming=455 revision=2 replay=0 work_replay=0 work_predicted=0 unstarted=false; active=true sequence={}",
            sequence,
        )
    );
}

fn allows_twelve_tick_advance(sequence: u64) {
    let proof = platform_topology(454);
    let identity = identity();
    assert_eq!(
        plan_reconcile(&started(sequence, 454), Some(&proof), Some(&identity), MANDATORY),
        Ok(ReconcilePlan::ReplaceTopology)
    );
    assert_eq!(
        check_topology_replacement(442, 454, proof.revision, 0, 0, false, 1 << 20),
        Ok(0)
    );
}

#[test]
fn authored_history_rejects_topology_more_than_twelve_ticks_ahead() {
    rejects_thirteen_tick_advance(1);
}

#[test]
fn substitute_history_with_zero_sequence_rejects_topology_more_than_twelve_ticks_ahead() {
    rejects_thirteen_tick_advance(0);
}

#[test]
fn authored_history_allows_topology_exactly_twelve_ticks_ahead() {
    allows_twelve_tick_advance(1);
}

#[test]
fn substitute_history_allows_topology_exactly_twelve_ticks_ahead() {
    allows_twelve_tick_advance(0);
}

#[test]
fn unstarted_prediction_may_adopt_a_farther_topology() {
    assert_eq!(check_topology_replacement(441, 500, 2, 0, 0, true, 0), Ok(0));
    assert!(check_topology_replacement(441, 500, 2, 0, 0, false, 0).is_err());
}

#[test]
fn replay_is_bounded_by_work_and_history_bytes() {
    assert_eq!(check_topology_replacement(474, 442, 2, 0, 0, false, 0), Ok(32));
    assert_eq!(
        check_topology_replacement(475, 442, 2, 0, 0, false, 0),
        Err(TopologyRefusal::WorkBudget {
            predicted: 475,
            incoming: 442,
            revision: 2,
            replay: 33,
            work_replay: 0,
            work_predicted: 0,
            unstarted: false,
        })
    );
    assert!(check_topology_replacement(450, 442, 2, 1, 0, false, 0).is_err());
    assert!(check_topology_replacement(450, 442, 2, 0, 3, false, 0).is_err());
    // Nine staged frames of 145408 bytes on top of 63 MiB exceed 64 MiB.
    let refusal = check_topology_replacement(450, 442, 2, 0, 0, false, 63 << 20).unwrap_err();
    assert_eq!(refusal, TopologyRefusal::HistoryBytes);
    assert_eq!(
        refusal.message(false, 17),
        "topology replay exceeds aggregate history bytes; active=false sequence=17"
    );
    assert_eq!(check_topology_replacement(450, 442, 2, 0, 0, false, 62 << 20), Ok(8));
}

#[test]
fn identity_classification_compares_sets_and_mandatory_scopes() {
    let identity = identity();
    let same = PublishedGroup {
        end_tick: 10,
        revision: 1,
        manifest: vec![scope(3, 1), scope(1, 1), scope(2, 1)],
    };
    assert!(same_identity(&identity, &same));
    assert!(!advanced_topology(&identity, &same, MANDATORY));
    let moved_owner = PublishedGroup {
        end_tick: 10,
        revision: 2,
        manifest: vec![scope(1, 1), scope(2, 2), scope(3, 1)],
    };
    assert!(!same_identity(&identity, &moved_owner));
    assert!(!advanced_topology(&identity, &moved_owner, MANDATORY));
    let topology = platform_topology(10);
    assert!(!same_identity(&identity, &topology));
    assert!(advanced_topology(&identity, &topology, MANDATORY));
    let stale = PredictionIdentity { binding_current: false, ..identity };
    assert!(!advanced_topology(&stale, &topology, MANDATORY));
}

#[test]
fn plan_follows_activation_finalization_and_checkpoint_distance() {
    let identity = identity();
    let same = PublishedGroup { end_tick: 450, revision: 1, manifest: identity.scopes.clone() };
    let mut state = started(3, 460);
    assert_eq!(plan_reconcile(&state, None, Some(&identity), MANDATORY), Ok(ReconcilePlan::Idle));
    state.recovering = true;
    assert_eq!(
        plan_reconcile(&state, Some(&same), Some(&identity), MANDATORY),
        Ok(ReconcilePlan::Idle)
    );
    state.recovering = false;
    assert_eq!(
        plan_reconcile(&state, Some(&same), Some(&identity), MANDATORY),
        Ok(ReconcilePlan::AdoptCheckpoint)
    );
    let far = PublishedGroup { end_tick: 455, ..same };
    assert_eq!(
        plan_reconcile(&state, Some(&far), Some(&identity), MANDATORY),
        Ok(ReconcilePlan::Replay)
    );
    state.unstarted = true;
    assert_eq!(
        plan_reconcile(&state, Some(&far), Some(&identity), MANDATORY),
        Ok(ReconcilePlan::AdoptCheckpoint)
    );
    state.finalized = 454;
    assert_eq!(
        plan_reconcile(&state, Some(&far), Some(&identity), MANDATORY),
        Ok(ReconcilePlan::AwaitFinalization)
    );
    state.finalized = 460;
    state.predicted = None;
    assert_eq!(
        plan_reconcile(&state, Some(&far), Some(&identity), MANDATORY),
        Err(ReconcileError::MissingPredictionHistory)
    );
    let fresh = ReconcileState { active: false, sequence: 0, ..state };
    assert_eq!(
        plan_reconcile(&fresh, Some(&far), Some(&identity), MANDATORY),
        Ok(ReconcilePlan::Initialize { discard: true })
    );
    let empty = ReconcileState { predicting: false, ..state };
    assert_eq!(
        plan_reconcile(&empty, Some(&far), None, MANDATORY),
        Ok(ReconcilePlan::Initialize { discard: false })
    );
}

fn unstarted_at(predicted: u64, finalized: u64) -> ReconcileState {
    ReconcileState {
        recovering: false,
        active: true,
        sequence: 0,
        predicting: true,
        finalized,
        predicted: Some(predicted),
        unstarted: true,
    }
}

#[test]
fn active_unstarted_owner_adopts_farther_platform_topology_without_consuming_intent() {
    let identity = identity();
    let proof = platform_topology(480);
    assert_eq!(proof.manifest.len(), 4);
    let state = unstarted_at(441, 480);
    assert_eq!(
        plan_reconcile(&state, Some(&proof), Some(&identity), MANDATORY),
        Ok(ReconcilePlan::ReplaceTopology)
    );
    // No retained input after the farther checkpoint: nothing is replayed.
    assert_eq!(check_topology_replacement(441, 480, proof.revision, 0, 0, true, 1 << 20), Ok(0));
    // The adopted checkpoint is still unstarted: no intent was consumed.
    assert!(unstarted_prediction(state.sequence, Some(480), false, Some(480)));
}

#[test]
fn active_unstarted_owner_adopts_farther_revision_with_unchanged_closure() {
    let identity = identity();
    let proof = PublishedGroup { end_tick: 480, revision: 2, manifest: identity.scopes.clone() };
    let state = unstarted_at(441, 480);
    assert!(!same_identity(&identity, &proof));
    assert!(advanced_topology(&identity, &proof, MANDATORY));
    assert_eq!(
        plan_reconcile(&state, Some(&proof), Some(&identity), MANDATORY),
        Ok(ReconcilePlan::ReplaceTopology)
    );
    assert_eq!(check_topology_replacement(441, 480, proof.revision, 0, 0, true, 1 << 20), Ok(0));
    assert!(unstarted_prediction(state.sequence, Some(480), false, Some(480)));
}
