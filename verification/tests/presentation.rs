use dreamwake_client::ids::EntityId;
use dreamwake_client::presentation::{
    combat_view_time, entitled_actors, next_segment, rendered_actors, suppress_public, ActorSource,
    JournalBinding, PublicReplica, SegmentError,
};

#[test]
fn replicas_wait_for_their_source_hero_or_enemy() {
    let actors = vec![
        ActorSource::Projectile(Some(7)),
        ActorSource::Hero(5),
        ActorSource::Wisp(Some(5)),
        ActorSource::Effect(9),
        ActorSource::Effect(0),
        ActorSource::Enemy(9),
        ActorSource::Projectile(Some(1)),
        ActorSource::Wisp(None),
        ActorSource::Other,
    ];
    assert_eq!(
        entitled_actors(&actors, 1),
        vec![
            ActorSource::Hero(5),
            ActorSource::Wisp(Some(5)),
            ActorSource::Effect(9),
            ActorSource::Effect(0),
            ActorSource::Enemy(9),
            ActorSource::Projectile(Some(1)),
            ActorSource::Wisp(None),
            ActorSource::Other,
        ]
    );
    let mut with_source = actors.clone();
    with_source.push(ActorSource::Hero(7));
    assert_eq!(entitled_actors(&with_source, 1).len(), with_source.len());
}

#[test]
fn combat_view_time_needs_every_target_at_one_pose_time() {
    assert_eq!(combat_view_time(&vec![], 500), Some(500));
    assert_eq!(combat_view_time(&vec![Some(420), Some(420)], 500), Some(420));
    assert_eq!(combat_view_time(&vec![Some(420), Some(430)], 500), None);
    assert_eq!(combat_view_time(&vec![Some(420), None], 500), None);
    assert_eq!(combat_view_time(&vec![None], 500), None);
}

#[test]
fn teleports_and_motion_changes_start_new_segments() {
    assert_eq!(next_segment(1, 10, Some(9), true, false), Ok(2));
    assert_eq!(next_segment(1, 10, Some(9), false, true), Ok(2));
    assert_eq!(next_segment(1, 10, Some(9), false, false), Ok(1));
    // A late sample never cuts the segment it belongs to.
    assert_eq!(next_segment(1, 8, Some(9), true, true), Ok(1));
    assert_eq!(next_segment(1, 10, None, true, true), Ok(1));
    assert_eq!(next_segment(u32::MAX, 10, Some(9), true, false), Err(SegmentError::Capacity));
}

fn entity(index: u64) -> EntityId {
    EntityId { index, generation: 1 }
}

#[test]
fn projectile_journal_bindings_suppress_their_public_replica() {
    let journal = vec![
        JournalBinding { projectile: false, binding: Some(entity(4)) },
        JournalBinding { projectile: true, binding: None },
        JournalBinding { projectile: true, binding: Some(entity(7)) },
    ];
    assert!(suppress_public(&journal, entity(7)));
    assert!(!suppress_public(&journal, entity(4)));
    assert!(!suppress_public(&journal, EntityId { index: 7, generation: 2 }));
    assert!(!suppress_public(&vec![], entity(7)));
}

#[test]
fn predicted_projectiles_hide_only_under_owner_prediction() {
    let journal = vec![JournalBinding { projectile: true, binding: Some(entity(7)) }];
    let replicas = vec![
        PublicReplica { entity: entity(5), actor: ActorSource::Hero(5) },
        PublicReplica { entity: entity(7), actor: ActorSource::Projectile(Some(5)) },
        PublicReplica { entity: entity(8), actor: ActorSource::Projectile(Some(5)) },
        PublicReplica { entity: entity(7), actor: ActorSource::Other },
    ];
    assert_eq!(
        rendered_actors(&replicas, true, &journal, 1),
        vec![ActorSource::Hero(5), ActorSource::Projectile(Some(5)), ActorSource::Other]
    );
    assert_eq!(rendered_actors(&replicas, false, &journal, 1).len(), 4);
    // A hidden source hero is no source for the rest.
    let sourced = vec![PublicReplica { entity: entity(8), actor: ActorSource::Projectile(Some(9)) }];
    assert_eq!(rendered_actors(&sourced, true, &journal, 1), vec![]);
}
