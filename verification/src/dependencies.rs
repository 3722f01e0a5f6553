//! The dependency records an owner prediction step reads before it
//! simulates: the static collision world and one moving platform per base
//! the owner state stands on.
use vstd::prelude::*;
use crate::ids::EntityId;
use crate::owner_group::GroupError;

verus! {

/// What a dependency record of the owner step holds: the static collision
/// world, a moving platform with the collider it stands for, or a value the
/// step cannot read (not known yet, or of another kind).
#[derive(Clone, Copy, Debug, PartialEq, Eq, Structural)]
pub enum DependencyKind {
    StaticCollision,
    Platform { collider: u64 },
    Unknown,
}

/// A dependency record as the owner step checks it: whose it is, on which
/// connection epoch and scene revision, and what it holds.
#[derive(Clone, Copy, Debug, PartialEq, Eq, Structural)]
pub struct DependencyRecordView {
    pub entity: EntityId,
    pub connection: u64,
    pub scene_revision: u32,
    pub kind: DependencyKind,
}

/// One base the owner state stands on: its collider key, the platform
/// entity it names, and the record found for that entity, if any.
#[derive(Clone, Copy, Debug, PartialEq, Eq, Structural)]
pub struct BaseDependency {
    pub key: u64,
    pub entity: EntityId,
    pub record: Option<DependencyRecordView>,
}

/// Whether a record is the one expected of `entity` on this session's
/// connection epoch and scene revision.
pub open spec fn record_matches(
    r: DependencyRecordView,
    entity: EntityId,
    epoch: u64,
    scene_revision: u32,
) -> bool {
    r.entity == entity && r.connection == epoch && r.scene_revision == scene_revision
}

/// The verdict on one base: its record must exist, be the platform's own on
/// this connection and scene, hold a platform, and carry the base's key.
pub open spec fn base_verdict(b: BaseDependency, epoch: u64, scene_revision: u32) -> Result<
    (),
    GroupError,
> {
    match b.record {
        None => Err(GroupError::InvalidState),
        Some(r) => if !record_matches(r, b.entity, epoch, scene_revision) {
            Err(GroupError::InvalidIdentity)
        } else {
            match r.kind {
                DependencyKind::Platform { collider } => if collider != b.key {
                    Err(GroupError::InvalidIdentity)
                } else {
                    Ok(())
                },
                _ => Err(GroupError::InvalidState),
            }
        },
    }
}

/// Whether base `i` is the first whose verdict is a refusal.
pub open spec fn first_refused(bases: Seq<BaseDependency>, i: int, epoch: u64, scene_revision: u32) -> bool {
    &&& 0 <= i < bases.len()
    &&& base_verdict(bases[i], epoch, scene_revision) is Err
    &&& forall|j: int| 0 <= j < i ==> base_verdict(#[trigger] bases[j], epoch, scene_revision) is Ok
}

/// The dependencies one owner step needs: the collision record, which must be
/// the collision entity's own on this connection and scene and hold the
/// static world, then each base in order, the first refused base giving the
/// verdict.
pub open spec fn step_dependencies_spec(
    collision: Option<DependencyRecordView>,
    collision_entity: EntityId,
    bases: Seq<BaseDependency>,
    epoch: u64,
    scene_revision: u32,
) -> Result<(), GroupError> {
    match collision {
        None => Err(GroupError::InvalidState),
        Some(r) => if !record_matches(r, collision_entity, epoch, scene_revision) {
            Err(GroupError::InvalidIdentity)
        } else if !(r.kind is StaticCollision) {
            Err(GroupError::InvalidState)
        } else if exists|i: int| first_refused(bases, i, epoch, scene_revision) {
            base_verdict(
                bases[choose|i: int| first_refused(bases, i, epoch, scene_revision)],
                epoch,
                scene_revision,
            )
        } else {
            Ok(())
        },
    }
}

/// Checks the dependency records an owner step reads before it simulates.
pub fn check_step_dependencies(
    collision: Option<DependencyRecordView>,
    collision_entity: EntityId,
    bases: &Vec<BaseDependency>,
    epoch: u64,
    scene_revision: u32,
) -> (result: Result<(), GroupError>)
    ensures
        result == step_dependencies_spec(collision, collision_entity, bases@, epoch, scene_revision),
{
    let r = match collision {
        None => return Err(GroupError::InvalidState),
        Some(r) => r,
    };
    if r.entity != collision_entity || r.connection != epoch || r.scene_revision != scene_revision {
        return Err(GroupError::InvalidIdentity);
    }
    match r.kind {
        DependencyKind::StaticCollision => {},
        _ => return Err(GroupError::InvalidState),
    }
    let n = bases.len();
    for i in 0..n
        invariant
            n == bases@.len(),
            collision == Some(r),
            record_matches(r, collision_entity, epoch, scene_revision),
            r.kind is StaticCollision,
            forall|j: int| 0 <= j < i ==> base_verdict(#[trigger] bases@[j], epoch, scene_revision) is Ok,
    {
        let b = bases[i];
        let verdict = match b.record {
            None => Err(GroupError::InvalidState),
            Some(rec) => if rec.entity != b.entity || rec.connection != epoch || rec.scene_revision
                != scene_revision {
                Err(GroupError::InvalidIdentity)
            } else {
                match rec.kind {
                    DependencyKind::Platform { collider } => if collider != b.key {
                        Err(GroupError::InvalidIdentity)
                    } else {
                        Ok(())
                    },
                    _ => Err(GroupError::InvalidState),
                }
            },
        };
        assert(verdict == base_verdict(bases@[i as int], epoch, scene_revision));
        if verdict.is_err() {
            proof {
                assert(first_refused(bases@, i as int, epoch, scene_revision));
                let k = choose|k: int| first_refused(bases@, k, epoch, scene_revision);
                if k < i {
                    assert(base_verdict(bases@[k], epoch, scene_revision) is Ok);
                } else if k > i {
                    assert(base_verdict(bases@[i as int], epoch, scene_revision) is Ok);
                }
                assert(k == i);
            }
            return verdict;
        }
    }
    proof {
        assert(!exists|k: int| first_refused(bases@, k, epoch, scene_revision)) by {
            if exists|k: int| first_refused(bases@, k, epoch, scene_revision) {
                let k = choose|k: int| first_refused(bases@, k, epoch, scene_revision);
                assert(base_verdict(bases@[k], epoch, scene_revision) is Ok);
            }
        }
    }
    Ok(())
}

} // verus!
