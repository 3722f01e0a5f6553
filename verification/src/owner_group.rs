//! Which public states make up an owner prediction group: one owner, one
//! global and one collision state, at most one moving platform, all of the
//! group's end tick and connection, with exactly the bases the owner needs.
use vstd::prelude::*;
use crate::ids::EntityId;
use crate::commands::CommandOwner;

verus! {

/// Why a published group cannot seed owner prediction.
#[derive(Clone, Copy, Debug, PartialEq, Eq, Structural)]
pub enum GroupError {
    InvalidIdentity,
    InvalidState,
}

/// What a member state decoded to.
#[derive(Clone, Copy, Debug, PartialEq, Eq, Structural)]
pub enum ReplicaKind {
    Owner,
    Global,
    Collision,
    Platform,
    /// Any other public replica.
    Other,
}

/// One member state of a published group: its entity, end tick and
/// connection, and what its payload decoded to (`None` when it did not).
#[derive(Clone, Copy, Debug, PartialEq, Eq, Structural)]
pub struct GroupState {
    pub entity: EntityId,
    pub end_tick: u64,
    pub connection: u64,
    pub kind: Option<ReplicaKind>,
}

/// The session's fixed entities.
#[derive(Clone, Copy, Debug, PartialEq, Eq, Structural)]
pub struct OwnerEntities {
    pub owner: EntityId,
    pub global: EntityId,
    pub collision: EntityId,
}

/// Which member fills which role, by position.
#[derive(Clone, Copy, Debug, PartialEq, Eq, Structural)]
pub struct GroupRoles {
    pub owner: Option<usize>,
    pub global: Option<usize>,
    pub collision: Option<usize>,
    pub platform: Option<usize>,
}

/// The roles after member `i`, or why member `i` is refused.
pub open spec fn assign_role(
    r: GroupRoles,
    st: GroupState,
    i: usize,
    end_tick: u64,
    connection: u64,
    e: OwnerEntities,
) -> Result<GroupRoles, GroupError> {
    if st.end_tick != end_tick || st.connection != connection {
        Err(GroupError::InvalidState)
    } else {
        match st.kind {
            None => Err(GroupError::InvalidState),
            Some(ReplicaKind::Owner) => if st.entity == e.owner && r.owner is None {
                Ok(GroupRoles { owner: Some(i), ..r })
            } else {
                Err(GroupError::InvalidIdentity)
            },
            Some(ReplicaKind::Global) => if st.entity == e.global && r.global is None {
                Ok(GroupRoles { global: Some(i), ..r })
            } else {
                Err(GroupError::InvalidIdentity)
            },
            Some(ReplicaKind::Collision) => if st.entity == e.collision && r.collision is None {
                Ok(GroupRoles { collision: Some(i), ..r })
            } else {
                Err(GroupError::InvalidIdentity)
            },
            Some(ReplicaKind::Platform) => if r.platform is None && st.entity != e.owner
                && st.entity != e.global && st.entity != e.collision {
                Ok(GroupRoles { platform: Some(i), ..r })
            } else {
                Err(GroupError::InvalidIdentity)
            },
            Some(ReplicaKind::Other) => Err(GroupError::InvalidIdentity),
        }
    }
}

/// The roles of the first `n` members, or the first member refused.
pub open spec fn assign_roles(
    s: Seq<GroupState>,
    n: int,
    end_tick: u64,
    connection: u64,
    e: OwnerEntities,
) -> Result<GroupRoles, GroupError>
    decreases n,
{
    if n <= 0 {
        Ok(GroupRoles { owner: None, global: None, collision: None, platform: None })
    } else {
        match assign_roles(s, n - 1, end_tick, connection, e) {
            Err(x) => Err(x),
            Ok(r) => assign_role(r, s[n - 1], (n - 1) as usize, end_tick, connection, e),
        }
    }
}

proof fn lemma_roles_err_sticky(
    s: Seq<GroupState>,
    i: int,
    n: int,
    end_tick: u64,
    connection: u64,
    e: OwnerEntities,
    x: GroupError,
)
    requires
        0 <= i <= n,
        assign_roles(s, i, end_tick, connection, e) == Err::<GroupRoles, GroupError>(x),
    ensures
        assign_roles(s, n, end_tick, connection, e) == Err::<GroupRoles, GroupError>(x),
    decreases n - i,
{
    if i < n {
        lemma_roles_err_sticky(s, i, n - 1, end_tick, connection, e, x);
    }
}

/// The verdict on a published group's members: the group must be the
/// owner group; each member must be current and fill a free role; the
/// member count must be one the protocol admits (`count_valid`); and the
/// owner, global and collision roles must all be filled.
pub open spec fn classify_spec(
    group: u64,
    owner_group: u64,
    end_tick: u64,
    connection: u64,
    s: Seq<GroupState>,
    e: OwnerEntities,
    count_valid: bool,
) -> Result<GroupRoles, GroupError> {
    if group != owner_group {
        Err(GroupError::InvalidIdentity)
    } else {
        match assign_roles(s, s.len() as int, end_tick, connection, e) {
            Err(x) => Err(x),
            Ok(r) => if !count_valid {
                Err(GroupError::InvalidIdentity)
            } else if r.owner is None || r.global is None || r.collision is None {
                Err(GroupError::InvalidState)
            } else {
                Ok(r)
            },
        }
    }
}

/// Assigns the members of a published owner group to their roles.
pub fn classify_owner_group(
    group: u64,
    owner_group: u64,
    end_tick: u64,
    connection: u64,
    states: &Vec<GroupState>,
    entities: OwnerEntities,
    count_valid: bool,
) -> (result: Result<GroupRoles, GroupError>)
    ensures
        result == classify_spec(
            group,
            owner_group,
            end_tick,
            connection,
            states@,
            entities,
            count_valid,
        ),
{
    if group != owner_group {
        return Err(GroupError::InvalidIdentity);
    }
    let ghost s = states@;
    let n = states.len();
    let mut roles = GroupRoles { owner: None, global: None, collision: None, platform: None };
    for i in 0..n
        invariant
            n == s.len(),
            s == states@,
            group == owner_group,
            assign_roles(s, i as int, end_tick, connection, entities) == Ok::<
                GroupRoles,
                GroupError,
            >(roles),
    {
        let st = states[i];
        let verdict: Result<GroupRoles, GroupError> = if st.end_tick != end_tick || st.connection
            != connection {
            Err(GroupError::InvalidState)
        } else {
            match st.kind {
                None => Err(GroupError::InvalidState),
                Some(ReplicaKind::Owner) => if st.entity == entities.owner && roles.owner.is_none() {
                    Ok(GroupRoles { owner: Some(i), ..roles })
                } else {
                    Err(GroupError::InvalidIdentity)
                },
                Some(ReplicaKind::Global) => if st.entity == entities.global
                    && roles.global.is_none() {
                    Ok(GroupRoles { global: Some(i), ..roles })
                } else {
                    Err(GroupError::InvalidIdentity)
                },
                Some(ReplicaKind::Collision) => if st.entity == entities.collision
                    && roles.collision.is_none() {
                    Ok(GroupRoles { collision: Some(i), ..roles })
                } else {
                    Err(GroupError::InvalidIdentity)
                },
                Some(ReplicaKind::Platform) => if roles.platform.is_none() && st.entity
                    != entities.owner && st.entity != entities.global && st.entity
                    != entities.collision {
                    Ok(GroupRoles { platform: Some(i), ..roles })
                } else {
                    Err(GroupError::InvalidIdentity)
                },
                Some(ReplicaKind::Other) => Err(GroupError::InvalidIdentity),
            }
        };
        match verdict {
            Ok(next) => {
                proof {
                    assert(verdict == assign_role(roles, s[i as int], i, end_tick, connection, entities));
                }
                roles = next;
            },
            Err(x) => {
                proof {
                    assert(verdict == assign_role(roles, s[i as int], i, end_tick, connection, entities));
                    assert(assign_roles(s, i as int + 1, end_tick, connection, entities) == Err::<
                        GroupRoles,
                        GroupError,
                    >(x));
                    lemma_roles_err_sticky(s, i as int + 1, n as int, end_tick, connection, entities, x);
                }
                return Err(x);
            },
        }
    }
    if !count_valid {
        return Err(GroupError::InvalidIdentity);
    }
    if roles.owner.is_none() || roles.global.is_none() || roles.collision.is_none() {
        return Err(GroupError::InvalidState);
    }
    Ok(roles)
}

/// What the closure check reads of the group's platform member: the
/// collider it carries and whether its stamps match the global state's.
#[derive(Clone, Copy, Debug, PartialEq, Eq, Structural)]
pub struct PlatformBase {
    pub collider: u64,
    pub stamps_match: bool,
}

/// The verdict on a group's checkpoint and dependency closure: the owner,
/// global and collision checkpoints must agree with each other and with the
/// session (`checkpoint_valid`: same context and end tick, the session's
/// scene, a buildable collision manifest, an owner state the session accepts);
/// the owner's required bases (`required`, at most one) plus the three fixed
/// states must be the whole group; the owner's collision check
/// (`collision_valid`) must pass; and a platform member must be exactly the
/// required base, with matching stamps, while a required base without a
/// platform member is missing state.
pub open spec fn closure_spec(
    checkpoint_valid: bool,
    count: usize,
    required: Seq<u64>,
    collision_valid: bool,
    platform: Option<PlatformBase>,
) -> Result<(), GroupError> {
    if !checkpoint_valid {
        Err(GroupError::InvalidState)
    } else if count != 3 + required.len() || required.len() > 1 {
        Err(GroupError::InvalidIdentity)
    } else if !collision_valid {
        Err(GroupError::InvalidState)
    } else {
        match platform {
            Some(p) => if required != seq![p.collider] || !p.stamps_match {
                Err(GroupError::InvalidIdentity)
            } else {
                Ok(())
            },
            None => if required.len() > 0 {
                Err(GroupError::InvalidState)
            } else {
                Ok(())
            },
        }
    }
}

/// Checks a group's dependency closure.
pub fn check_owner_closure(
    checkpoint_valid: bool,
    count: usize,
    required: &Vec<u64>,
    collision_valid: bool,
    platform: Option<PlatformBase>,
) -> (result: Result<(), GroupError>)
    ensures
        result == closure_spec(checkpoint_valid, count, required@, collision_valid, platform),
{
    if !checkpoint_valid {
        return Err(GroupError::InvalidState);
    }
    if required.len() > 1 || count != 3 + required.len() {
        return Err(GroupError::InvalidIdentity);
    }
    if !collision_valid {
        return Err(GroupError::InvalidState);
    }
    match platform {
        Some(p) => {
            let exact = required.len() == 1 && required[0] == p.collider;
            proof {
                if exact {
                    assert(required@ =~= seq![p.collider]);
                } else if required@ == seq![p.collider] {
                    assert(required@[0] == p.collider);
                }
            }
            if !exact || !p.stamps_match {
                Err(GroupError::InvalidIdentity)
            } else {
                Ok(())
            }
        },
        None => if required.len() > 0 {
            Err(GroupError::InvalidState)
        } else {
            Ok(())
        },
    }
}

/// What owner prediction reads of the session's welcome.
#[derive(Clone, Copy, Debug, PartialEq, Eq, Structural)]
pub struct OwnerWelcome {
    /// The stable player identity.
    pub player: u64,
    pub match_epoch: u32,
    /// The owner's command stream.
    pub stream: CommandOwner,
    pub scene_revision: u32,
}

/// What an owner checkpoint must match to be this session's.
#[derive(Clone, Copy, Debug, PartialEq, Eq, Structural)]
pub struct OwnerExpectation {
    pub owner: u64,
    pub match_epoch: u32,
    pub ownership_revision: u64,
    pub scene_revision: u64,
    pub minimum_revision: u64,
}

/// The binding an owner prediction group is initialized and reconciled
/// with.
#[derive(Clone, Copy, Debug, PartialEq, Eq, Structural)]
pub struct PredictionBinding {
    pub owner: CommandOwner,
    pub scene_revision: u32,
    pub teleport_segment: u32,
}

/// The restricted owner adapter of one session.
#[derive(Clone, Copy, Debug, PartialEq, Eq, Structural)]
pub struct OwnerModel {
    pub welcome: OwnerWelcome,
}

impl OwnerModel {
    /// The checkpoint identity this session's owner must carry.
    pub fn expectation(&self) -> (result: OwnerExpectation)
        ensures
            result == (OwnerExpectation {
                owner: self.welcome.player,
                match_epoch: self.welcome.match_epoch,
                ownership_revision: self.welcome.stream.ownership,
                scene_revision: self.welcome.scene_revision as u64,
                minimum_revision: 0,
            }),
    {
        OwnerExpectation {
            owner: self.welcome.player,
            match_epoch: self.welcome.match_epoch,
            ownership_revision: self.welcome.stream.ownership,
            scene_revision: self.welcome.scene_revision as u64,
            minimum_revision: 0,
        }
    }

    /// The binding of this session's owner prediction.
    pub fn binding(&self) -> (result: PredictionBinding)
        ensures
            result == (PredictionBinding {
                owner: self.welcome.stream,
                scene_revision: self.welcome.scene_revision,
                teleport_segment: 0,
            }),
    {
        PredictionBinding {
            owner: self.welcome.stream,
            scene_revision: self.welcome.scene_revision,
            teleport_segment: 0,
        }
    }
}

/// The whole check of a published owner group: its members' roles, then its
/// checkpoints and closure. `platform` describes the platform member and is
/// read only when the group has one.
pub open spec fn owner_group_spec(
    group: u64,
    owner_group: u64,
    end_tick: u64,
    connection: u64,
    s: Seq<GroupState>,
    e: OwnerEntities,
    count_valid: bool,
    checkpoint_valid: bool,
    required: Seq<u64>,
    collision_valid: bool,
    platform: PlatformBase,
) -> Result<GroupRoles, GroupError> {
    match classify_spec(group, owner_group, end_tick, connection, s, e, count_valid) {
        Err(x) => Err(x),
        Ok(r) => match closure_spec(
            checkpoint_valid,
            s.len() as usize,
            required,
            collision_valid,
            if r.platform is Some {
                Some(platform)
            } else {
                None
            },
        ) {
            Err(x) => Err(x),
            Ok(_) => Ok(r),
        },
    }
}

/// Validates a published owner group before it may seed prediction.
pub fn validate_owner_group(
    group: u64,
    owner_group: u64,
    end_tick: u64,
    connection: u64,
    states: &Vec<GroupState>,
    entities: OwnerEntities,
    count_valid: bool,
    checkpoint_valid: bool,
    required: &Vec<u64>,
    collision_valid: bool,
    platform: PlatformBase,
) -> (result: Result<GroupRoles, GroupError>)
    ensures
        result == owner_group_spec(
            group,
            owner_group,
            end_tick,
            connection,
            states@,
            entities,
            count_valid,
            checkpoint_valid,
            required@,
            collision_valid,
            platform,
        ),
{
    let roles = classify_owner_group(
        group,
        owner_group,
        end_tick,
        connection,
        states,
        entities,
        count_valid,
    )?;
    let base = if roles.platform.is_some() {
        Some(platform)
    } else {
        None
    };
    check_owner_closure(checkpoint_valid, states.len(), required, collision_valid, base)?;
    Ok(roles)
}

// ---------------------------------------------------------------- laws

/// An accepted group names each fixed role once, by the session's own
/// entities, and its platform, if any, is none of them.
pub proof fn law_accepted_roles_are_distinct(
    s: Seq<GroupState>,
    n: int,
    end_tick: u64,
    connection: u64,
    e: OwnerEntities,
)
    requires
        0 <= n <= s.len(),
        s.len() <= usize::MAX,
        assign_roles(s, n, end_tick, connection, e) is Ok,
    ensures
        ({
            let r = assign_roles(s, n, end_tick, connection, e)->Ok_0;
            &&& r.owner matches Some(i) ==> i < n && s[i as int].entity == e.owner && s[i as int].kind
                == Some(ReplicaKind::Owner)
            &&& r.global matches Some(i) ==> i < n && s[i as int].entity == e.global && s[i as int].kind
                == Some(ReplicaKind::Global)
            &&& r.collision matches Some(i) ==> i < n && s[i as int].entity == e.collision
                && s[i as int].kind == Some(ReplicaKind::Collision)
            &&& r.platform matches Some(i) ==> i < n && s[i as int].entity != e.owner
                && s[i as int].entity != e.global && s[i as int].entity != e.collision
            &&& forall|k: int| 0 <= k < n ==> #[trigger] s[k].end_tick == end_tick && s[k].connection
                == connection
        }),
    decreases n,
{
    if n > 0 {
        law_accepted_roles_are_distinct(s, n - 1, end_tick, connection, e);
        let prev = assign_roles(s, n - 1, end_tick, connection, e)->Ok_0;
        assert(assign_role(prev, s[n - 1], (n - 1) as usize, end_tick, connection, e) is Ok);
        assert forall|k: int| 0 <= k < n implies #[trigger] s[k].end_tick == end_tick
            && s[k].connection == connection by {
            if k < n - 1 {
                assert(s[k].end_tick == end_tick);
            }
        }
    }
}

/// An accepted closure has consistent checkpoints, exactly three fixed
/// members plus the owner's bases, and at most one base.
pub proof fn law_closure_counts_members(
    checkpoint_valid: bool,
    count: usize,
    required: Seq<u64>,
    collision_valid: bool,
    platform: Option<PlatformBase>,
)
    requires
        closure_spec(checkpoint_valid, count, required, collision_valid, platform) is Ok,
    ensures
        checkpoint_valid,
        count == 3 + required.len(),
        required.len() <= 1,
        required.len() == 1 <==> platform is Some,
{
}

} // verus!
