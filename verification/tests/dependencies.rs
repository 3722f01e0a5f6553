use dreamwake_client::dependencies::{
    check_step_dependencies, BaseDependency, DependencyKind, DependencyRecordView,
};
use dreamwake_client::ids::EntityId;
use dreamwake_client::owner_group::GroupError;

const COLLISION: EntityId = EntityId { index: 3, generation: 1 };
const PLATFORM: EntityId = EntityId { index: 9, generation: 2 };

fn record(entity: EntityId, kind: DependencyKind) -> DependencyRecordView {
    DependencyRecordView { entity, connection: 4, scene_revision: 12, kind }
}

fn base(key: u64, record: Option<DependencyRecordView>) -> BaseDependency {
    BaseDependency { key, entity: PLATFORM, record }
}

#[test]
fn step_reads_the_static_world_and_each_platform_base() {
    let world = Some(record(COLLISION, DependencyKind::StaticCollision));
    let platform = Some(record(PLATFORM, DependencyKind::Platform { collider: 44 }));
    assert_eq!(check_step_dependencies(world, COLLISION, &vec![], 4, 12), Ok(()));
    assert_eq!(check_step_dependencies(world, COLLISION, &vec![base(44, platform)], 4, 12), Ok(()));
}

#[test]
fn step_refuses_missing_foreign_or_mistyped_collision_records() {
    assert_eq!(check_step_dependencies(None, COLLISION, &vec![], 4, 12), Err(GroupError::InvalidState));
    let world = record(COLLISION, DependencyKind::StaticCollision);
    assert_eq!(
        check_step_dependencies(Some(DependencyRecordView { connection: 5, ..world }), COLLISION, &vec![], 4, 12),
        Err(GroupError::InvalidIdentity)
    );
    assert_eq!(
        check_step_dependencies(Some(DependencyRecordView { scene_revision: 11, ..world }), COLLISION, &vec![], 4, 12),
        Err(GroupError::InvalidIdentity)
    );
    assert_eq!(check_step_dependencies(Some(world), PLATFORM, &vec![], 4, 12), Err(GroupError::InvalidIdentity));
    assert_eq!(
        check_step_dependencies(Some(record(COLLISION, DependencyKind::Unknown)), COLLISION, &vec![], 4, 12),
        Err(GroupError::InvalidState)
    );
}

#[test]
fn step_reports_the_first_refused_base() {
    let world = Some(record(COLLISION, DependencyKind::StaticCollision));
    let good = Some(record(PLATFORM, DependencyKind::Platform { collider: 44 }));
    assert_eq!(
        check_step_dependencies(world, COLLISION, &vec![base(44, None)], 4, 12),
        Err(GroupError::InvalidState)
    );
    assert_eq!(
        check_step_dependencies(world, COLLISION, &vec![base(45, good)], 4, 12),
        Err(GroupError::InvalidIdentity)
    );
    assert_eq!(
        check_step_dependencies(
            world,
            COLLISION,
            &vec![base(44, Some(record(PLATFORM, DependencyKind::StaticCollision)))],
            4,
            12
        ),
        Err(GroupError::InvalidState)
    );
    assert_eq!(
        check_step_dependencies(world, COLLISION, &vec![base(44, good), base(50, None), base(51, good)], 4, 12),
        Err(GroupError::InvalidState)
    );
    assert_eq!(
        check_step_dependencies(world, COLLISION, &vec![base(44, good), base(51, good), base(50, None)], 4, 12),
        Err(GroupError::InvalidIdentity)
    );
}
