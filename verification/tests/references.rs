use dreamwake_client::ids::{EntityId, ScopeIdentity, StateReceipt};
use dreamwake_client::references::{CombatReferences, DecodedGroups, COMBAT_REFERENCE_HISTORY};

fn receipt(snapshot: u64) -> StateReceipt {
    StateReceipt {
        scope: ScopeIdentity {
            connection: 1,
            entity: EntityId { index: 1, generation: 1 },
            scope: 1,
            representation: 1,
        },
        baseline_generation: 1,
        snapshot,
        version: 1,
    }
}

#[test]
fn new_owner_checkpoint_cannot_move_reference_past_frozen_render_tick() {
    let old = receipt(1);
    let mut references = CombatReferences::new();
    references.push(old, 90);
    let frozen_render_tick = 92;
    assert_eq!(references.reference_for_view(frozen_render_tick), Some(old));
    for tick in 93..110 {
        references.push(StateReceipt { snapshot: tick, ..old }, tick);
        assert_eq!(references.reference_for_view(frozen_render_tick), Some(old));
    }
    assert_eq!(references.reference_for_view(89), None);
}

#[test]
fn newest_reference_at_or_before_the_view_is_chosen() {
    let mut references = CombatReferences::new();
    for tick in [10u64, 20, 30] {
        references.push(receipt(tick), tick);
    }
    assert_eq!(references.reference_for_view(25), Some(receipt(20)));
    assert_eq!(references.reference_for_view(30), Some(receipt(30)));
    assert_eq!(references.reference_for_view(1000), Some(receipt(30)));
    assert_eq!(references.reference_for_view(9), None);
}

#[test]
fn reference_history_is_bounded_and_forgets_the_oldest() {
    let mut references = CombatReferences::new();
    for tick in 1..=(COMBAT_REFERENCE_HISTORY as u64 + 1) {
        references.push(receipt(tick), tick);
    }
    assert_eq!(references.reference_for_view(1), None);
    assert_eq!(references.reference_for_view(2), Some(receipt(2)));
}

#[test]
fn activation_needs_a_decoded_group_and_then_sticks() {
    let mut groups = DecodedGroups::new();
    assert!(!groups.activation(false, Some((5, 40))));
    groups.record(5, 40);
    assert!(groups.activation(false, Some((5, 40))));
    assert!(!groups.activation(false, Some((6, 40))));
    assert!(!groups.activation(false, None));
    // An active session stays active although its proof aged out.
    assert!(groups.activation(true, None));
}

#[test]
fn decoded_group_history_is_bounded() {
    let mut groups = DecodedGroups::new();
    for snapshot in 1..=40u64 {
        groups.record(snapshot, snapshot * 2);
    }
    assert_eq!(groups.len(), 32);
    assert!(!groups.activation(false, Some((1, 2))));
    assert!(groups.activation(false, Some((40, 80))));
}

#[test]
fn combat_views_are_stamped_only_behind_their_sample() {
    let mut references = CombatReferences::new();
    references.push(receipt(1), 90);
    references.push(receipt(2), 95);
    let stamp = references.capture_view(true, false, Some((96, 10)), Some((95, 40))).unwrap();
    assert_eq!((stamp.sampled_at, stamp.sampled_fraction), (96, 10));
    assert_eq!((stamp.viewed_at, stamp.viewed_fraction), (95, 40));
    assert_eq!(stamp.reference, receipt(2));
    assert_eq!(references.capture_view(true, false, Some((95, 10)), Some((95, 40))), None);
    assert!(references.capture_view(true, false, Some((95, 40)), Some((95, 40))).is_some());
    assert_eq!(references.capture_view(false, false, Some((96, 0)), Some((95, 0))), None);
    assert_eq!(references.capture_view(true, true, Some((96, 0)), Some((95, 0))), None);
    assert_eq!(references.capture_view(true, false, None, Some((95, 0))), None);
    assert_eq!(references.capture_view(true, false, Some((96, 0)), Some((80, 0))), None);
}

#[test]
fn combat_capture_and_presentation_share_fractional_simulation_time_under_wall_debt() {
    let reference = receipt(1);
    let mut references = CombatReferences::new();
    references.push(reference, 60);
    // The clocks place the sample half way through tick 70 and the rendered
    // combat view half way through tick 64.
    let view = references.capture_view(true, false, Some((70, 32768)), Some((64, 32768))).unwrap();
    assert_eq!(view.sampled_at, 70);
    assert_eq!(view.sampled_fraction, 32768);
    assert_eq!(view.viewed_at, 64);
    assert_eq!(view.viewed_fraction, 32768);
    assert_eq!(view.reference, reference);
}
