use dreamwake_client::ids::EntityId;
use dreamwake_client::commands::CommandOwner;
use dreamwake_client::owner_group::{
    check_owner_closure, classify_owner_group, validate_owner_group, GroupError, GroupRoles, GroupState,
    OwnerEntities, OwnerExpectation, OwnerModel, OwnerWelcome, PlatformBase, PredictionBinding,
    ReplicaKind,
};

fn id(index: u64) -> EntityId {
    EntityId { index, generation: 1 }
}

const ENTITIES: OwnerEntities = OwnerEntities {
    owner: EntityId { index: 1, generation: 1 },
    global: EntityId { index: 2, generation: 1 },
    collision: EntityId { index: 3, generation: 1 },
};

fn state(index: u64, kind: ReplicaKind) -> GroupState {
    GroupState { entity: id(index), end_tick: 50, connection: 7, kind: Some(kind) }
}

fn complete() -> Vec<GroupState> {
    vec![
        state(3, ReplicaKind::Collision),
        state(1, ReplicaKind::Owner),
        state(9, ReplicaKind::Platform),
        state(2, ReplicaKind::Global),
    ]
}

#[test]
fn complete_owner_group_assigns_every_role() {
    assert_eq!(
        classify_owner_group(1, 1, 50, 7, &complete(), ENTITIES, true),
        Ok(GroupRoles { owner: Some(1), global: Some(3), collision: Some(0), platform: Some(2) })
    );
}

#[test]
fn foreign_group_duplicate_roles_and_stale_members_are_refused() {
    assert_eq!(
        classify_owner_group(2, 1, 50, 7, &complete(), ENTITIES, true),
        Err(GroupError::InvalidIdentity)
    );
    let mut twice = complete();
    twice.push(state(1, ReplicaKind::Owner));
    assert_eq!(
        classify_owner_group(1, 1, 50, 7, &twice, ENTITIES, true),
        Err(GroupError::InvalidIdentity)
    );
    let mut stale = complete();
    stale[2].end_tick = 49;
    stale.push(state(1, ReplicaKind::Owner));
    assert_eq!(
        classify_owner_group(1, 1, 50, 7, &stale, ENTITIES, true),
        Err(GroupError::InvalidState)
    );
    let mut undecoded = complete();
    undecoded[0].kind = None;
    assert_eq!(
        classify_owner_group(1, 1, 50, 7, &undecoded, ENTITIES, true),
        Err(GroupError::InvalidState)
    );
    let mut impostor = complete();
    impostor[2] = state(1, ReplicaKind::Platform);
    assert_eq!(
        classify_owner_group(1, 1, 50, 7, &impostor, ENTITIES, true),
        Err(GroupError::InvalidIdentity)
    );
}

#[test]
fn member_count_and_missing_roles_are_checked_after_the_members() {
    assert_eq!(
        classify_owner_group(1, 1, 50, 7, &complete(), ENTITIES, false),
        Err(GroupError::InvalidIdentity)
    );
    let partial = vec![state(1, ReplicaKind::Owner), state(3, ReplicaKind::Collision)];
    assert_eq!(
        classify_owner_group(1, 1, 50, 7, &partial, ENTITIES, true),
        Err(GroupError::InvalidState)
    );
}

#[test]
fn closure_requires_exactly_the_owner_bases() {
    let base = PlatformBase { collider: 44, stamps_match: true };
    assert_eq!(check_owner_closure(true, 4, &vec![44], true, Some(base)), Ok(()));
    assert_eq!(check_owner_closure(true, 3, &vec![], true, None), Ok(()));
    assert_eq!(check_owner_closure(true, 4, &vec![], true, Some(base)), Err(GroupError::InvalidIdentity));
    assert_eq!(check_owner_closure(true, 4, &vec![45], true, Some(base)), Err(GroupError::InvalidIdentity));
    assert_eq!(
        check_owner_closure(true, 4, &vec![44], true, Some(PlatformBase { collider: 44, stamps_match: false })),
        Err(GroupError::InvalidIdentity)
    );
    assert_eq!(check_owner_closure(true, 4, &vec![44], true, None), Err(GroupError::InvalidState));
    assert_eq!(check_owner_closure(true, 4, &vec![44], false, Some(base)), Err(GroupError::InvalidState));
    assert_eq!(check_owner_closure(true, 5, &vec![44, 45], true, None), Err(GroupError::InvalidIdentity));
}

#[test]
fn inconsistent_checkpoints_are_refused_before_the_member_count() {
    let base = PlatformBase { collider: 44, stamps_match: true };
    assert_eq!(check_owner_closure(false, 4, &vec![44], true, Some(base)), Err(GroupError::InvalidState));
    assert_eq!(check_owner_closure(false, 9, &vec![44, 45], true, None), Err(GroupError::InvalidState));
}

#[test]
fn owner_group_validation_checks_roles_then_closure() {
    let base = PlatformBase { collider: 44, stamps_match: true };
    assert_eq!(
        validate_owner_group(1, 1, 50, 7, &complete(), ENTITIES, true, true, &vec![44], true, base),
        Ok(GroupRoles { owner: Some(1), global: Some(3), collision: Some(0), platform: Some(2) })
    );
    assert_eq!(
        validate_owner_group(2, 1, 50, 7, &complete(), ENTITIES, true, false, &vec![44], true, base),
        Err(GroupError::InvalidIdentity)
    );
    assert_eq!(
        validate_owner_group(1, 1, 50, 7, &complete(), ENTITIES, true, false, &vec![44], true, base),
        Err(GroupError::InvalidState)
    );
    assert_eq!(
        validate_owner_group(1, 1, 50, 7, &complete(), ENTITIES, true, true, &vec![45], true, base),
        Err(GroupError::InvalidIdentity)
    );
    let no_platform = vec![
        state(3, ReplicaKind::Collision),
        state(1, ReplicaKind::Owner),
        state(2, ReplicaKind::Global),
    ];
    assert_eq!(
        validate_owner_group(1, 1, 50, 7, &no_platform, ENTITIES, true, true, &vec![], true, base),
        Ok(GroupRoles { owner: Some(1), global: Some(2), collision: Some(0), platform: None })
    );
}

#[test]
fn owner_model_derives_expectation_and_binding_from_the_welcome() {
    let stream = CommandOwner { epoch: 4, stream: 2, ownership: 9 };
    let model = OwnerModel {
        welcome: OwnerWelcome { player: 77, match_epoch: 3, stream, scene_revision: 12 },
    };
    assert_eq!(
        model.expectation(),
        OwnerExpectation {
            owner: 77,
            match_epoch: 3,
            ownership_revision: 9,
            scene_revision: 12,
            minimum_revision: 0,
        }
    );
    assert_eq!(
        model.binding(),
        PredictionBinding { owner: stream, scene_revision: 12, teleport_segment: 0 }
    );
}
