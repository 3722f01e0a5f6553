//! Decisions on received public state: which standalone states are
//! public, when a fragment supersedes a partial publication, how a group's
//! member decodes combine, and what a failed group publication leads to.
use vstd::prelude::*;
use crate::ids::EntityId;
use crate::baselines::ObsoleteReason;

verus! {

/// Why the replication layer refused a state, a member or a publication.
#[derive(Clone, Copy, Debug, PartialEq, Eq, Structural)]
pub enum ReplicationFault {
    Obsolete(ObsoleteReason),
    BaselineResetPending,
    InvalidIdentity,
    InvalidPayload,
    Conflict,
    Unknown,
    Capacity,
    /// Any other refusal.
    Rejected,
}

/// Whether a standalone full state may be applied: it is no fixed owner
/// group member and it decoded as a public actor. Owner, global and
/// collision checkpoints only arrive through an atomic group publication.
pub open spec fn public_standalone_spec(
    entity: EntityId,
    owner: EntityId,
    global: EntityId,
    collision: EntityId,
    is_actor: bool,
) -> bool {
    entity != owner && entity != global && entity != collision && is_actor
}

pub fn public_standalone(
    entity: EntityId,
    owner: EntityId,
    global: EntityId,
    collision: EntityId,
    is_actor: bool,
) -> (result: bool)
    ensures
        result == public_standalone_spec(entity, owner, global, collision, is_actor),
{
    entity != owner && entity != global && entity != collision && is_actor
}

/// A group publication: its revision and snapshot.
#[derive(Clone, Copy, Debug, PartialEq, Eq, Structural)]
pub struct Publication {
    pub revision: u64,
    pub snapshot: u64,
}

/// Whether a fragment of `incoming` supersedes the partial publication
/// being assembled: it is newer than the last fragment's publication, by
/// revision and then snapshot, while fragments are still incomplete.
pub open spec fn supersedes_spec(last: Option<Publication>, incoming: Publication, incomplete: usize) -> bool {
    &&& last matches Some(old) && (incoming.revision > old.revision || (incoming.revision
        == old.revision && incoming.snapshot > old.snapshot))
    &&& incomplete != 0
}

pub fn supersedes(last: Option<Publication>, incoming: Publication, incomplete: usize) -> (result: bool)
    ensures
        result == supersedes_spec(last, incoming, incomplete),
{
    let newer = match last {
        Some(old) => incoming.revision > old.revision || (incoming.revision == old.revision
            && incoming.snapshot > old.snapshot),
        None => false,
    };
    newer && incomplete != 0
}

/// How one group member's baseline reconstruction went (`failure` is
/// empty when it reconstructed), and whether a complete full seed was kept
/// for it.
#[derive(Clone, Copy, Debug, PartialEq, Eq, Structural)]
pub struct MemberDecode {
    pub failure: Option<ReplicationFault>,
    pub has_seed: bool,
}

/// What becomes of the members' decodes: which members use their kept seed
/// in place of a reconstruction (the others yield a decode proof), the last
/// obsolete full state, and whether a reset is pending.
#[derive(Debug, PartialEq, Eq)]
pub struct MemberFold {
    pub use_seed: Vec<bool>,
    pub obsolete: Option<ObsoleteReason>,
    pub reset_pending: bool,
}

/// The fold's state as a mathematical value.
pub struct FoldView {
    pub use_seed: Seq<bool>,
    pub obsolete: Option<ObsoleteReason>,
    pub reset_pending: bool,
}

impl View for MemberFold {
    type V = FoldView;

    open spec fn view(&self) -> FoldView {
        FoldView {
            use_seed: self.use_seed@,
            obsolete: self.obsolete,
            reset_pending: self.reset_pending,
        }
    }
}

/// The fold after the first `n` members, or the fault that stops it: a
/// pending reset needs the kept seed, an obsolete member with a seed is
/// remembered, and any other fault refuses the group at once.
pub open spec fn fold_spec(s: Seq<MemberDecode>, n: int) -> Result<FoldView, ReplicationFault>
    decreases n,
{
    if n <= 0 {
        Ok(FoldView { use_seed: Seq::empty(), obsolete: None, reset_pending: false })
    } else {
        match fold_spec(s, n - 1) {
            Err(e) => Err(e),
            Ok(f) => {
                let m = s[n - 1];
                match m.failure {
                    None => Ok(FoldView { use_seed: f.use_seed.push(false), ..f }),
                    Some(ReplicationFault::BaselineResetPending) => if m.has_seed {
                        Ok(FoldView { use_seed: f.use_seed.push(true), reset_pending: true, ..f })
                    } else {
                        Err(ReplicationFault::InvalidIdentity)
                    },
                    Some(ReplicationFault::Obsolete(r)) => if m.has_seed {
                        Ok(FoldView { use_seed: f.use_seed.push(true), obsolete: Some(r), ..f })
                    } else {
                        Err(ReplicationFault::Obsolete(r))
                    },
                    Some(e) => Err(e),
                }
            },
        }
    }
}

proof fn lemma_fold_err_sticky(s: Seq<MemberDecode>, i: int, n: int, e: ReplicationFault)
    requires
        0 <= i <= n,
        fold_spec(s, i) == Err::<FoldView, ReplicationFault>(e),
    ensures
        fold_spec(s, n) == Err::<FoldView, ReplicationFault>(e),
    decreases n - i,
{
    if i < n {
        lemma_fold_err_sticky(s, i, n - 1, e);
    }
}

/// Combines a group's member decodes, in member order.
pub fn fold_member_decodes(members: &Vec<MemberDecode>) -> (result: Result<MemberFold, ReplicationFault>)
    ensures
        match fold_spec(members@, members@.len() as int) {
            Err(e) => result == Err::<MemberFold, ReplicationFault>(e),
            Ok(f) => result matches Ok(r) && r@ == f,
        },
{
    let ghost s = members@;
    let n = members.len();
    let mut use_seed: Vec<bool> = Vec::new();
    let mut obsolete: Option<ObsoleteReason> = None;
    let mut reset_pending = false;
    for i in 0..n
        invariant
            n == s.len(),
            s == members@,
            fold_spec(s, i as int) == Ok::<FoldView, ReplicationFault>(
                FoldView { use_seed: use_seed@, obsolete, reset_pending },
            ),
    {
        let m = members[i];
        match m.failure {
            None => {
                use_seed.push(false);
            },
            Some(ReplicationFault::BaselineResetPending) => {
                if !m.has_seed {
                    proof {
                        lemma_fold_err_sticky(
                            s,
                            i as int + 1,
                            n as int,
                            ReplicationFault::InvalidIdentity,
                        );
                    }
                    return Err(ReplicationFault::InvalidIdentity);
                }
                use_seed.push(true);
                reset_pending = true;
            },
            Some(ReplicationFault::Obsolete(r)) => {
                if !m.has_seed {
                    proof {
                        lemma_fold_err_sticky(
                            s,
                            i as int + 1,
                            n as int,
                            ReplicationFault::Obsolete(r),
                        );
                    }
                    return Err(ReplicationFault::Obsolete(r));
                }
                use_seed.push(true);
                obsolete = Some(r);
            },
            Some(e) => {
                proof {
                    lemma_fold_err_sticky(s, i as int + 1, n as int, e);
                }
                return Err(e);
            },
        }
    }
    Ok(MemberFold { use_seed, obsolete, reset_pending })
}

/// The group's verdict once its members were combined and the owner group
/// was validated (`valid`): an invalid group is an invalid payload; then an
/// obsolete full state refuses it as old traffic; then a pending reset
/// holds it back.
pub open spec fn group_verdict_spec(obsolete: Option<ObsoleteReason>, reset_pending: bool, valid: bool) -> Result<
    (),
    ReplicationFault,
> {
    if !valid {
        Err(ReplicationFault::InvalidPayload)
    } else if obsolete is Some {
        Err(ReplicationFault::Obsolete(obsolete->0))
    } else if reset_pending {
        Err(ReplicationFault::BaselineResetPending)
    } else {
        Ok(())
    }
}

pub fn group_verdict(fold: &MemberFold, valid: bool) -> (result: Result<(), ReplicationFault>)
    ensures
        result == group_verdict_spec(fold.obsolete, fold.reset_pending, valid),
{
    if !valid {
        return Err(ReplicationFault::InvalidPayload);
    }
    if let Some(r) = fold.obsolete {
        return Err(ReplicationFault::Obsolete(r));
    }
    if fold.reset_pending {
        return Err(ReplicationFault::BaselineResetPending);
    }
    Ok(())
}

/// What a failed group publication leads to.
#[derive(Clone, Copy, Debug, PartialEq, Eq, Structural)]
pub enum GroupFailure {
    /// Wait for the reliable reset; count it, refuse nothing.
    AwaitReset,
    /// Ask for baseline repairs, if any member has one to ask.
    Repair,
    /// Old publication traffic: count it and refuse the message.
    Stale,
    /// Refuse the message.
    Refuse,
}

pub open spec fn group_failure_spec(fault: ReplicationFault) -> GroupFailure {
    match fault {
        ReplicationFault::BaselineResetPending => GroupFailure::AwaitReset,
        ReplicationFault::Unknown | ReplicationFault::Capacity => GroupFailure::Repair,
        ReplicationFault::Obsolete(_) => GroupFailure::Stale,
        _ => GroupFailure::Refuse,
    }
}

/// What becomes of a group publication whose member decode failed with
/// `fault`: only a missing baseline (unknown, or lost to capacity) asks for
/// repairs; a pending reset waits for it; obsolete traffic is stale; every
/// other fault refuses the message.
pub fn group_failure(fault: ReplicationFault) -> (result: GroupFailure)
    ensures
        result == group_failure_spec(fault),
        result is Repair <==> (fault is Unknown || fault is Capacity),
        result is AwaitReset <==> fault is BaselineResetPending,
        result is Stale <==> fault is Obsolete,
        !(fault is BaselineResetPending || fault is Unknown || fault is Capacity || fault is Obsolete)
            ==> result is Refuse,
{
    match fault {
        ReplicationFault::BaselineResetPending => GroupFailure::AwaitReset,
        ReplicationFault::Unknown | ReplicationFault::Capacity => GroupFailure::Repair,
        ReplicationFault::Obsolete(_) => GroupFailure::Stale,
        _ => GroupFailure::Refuse,
    }
}

// ---------------------------------------------------------------- laws

/// Repairs are asked for exactly when a member's baseline is missing (unknown
/// or lost to capacity); an invalid identity, payload or conflict, like any
/// fault that is neither a pending reset nor obsolete traffic, refuses the
/// message.
pub proof fn law_only_missing_baselines_ask_for_repair(fault: ReplicationFault)
    ensures
        group_failure_spec(fault) is Repair <==> (fault is Unknown || fault is Capacity),
        group_failure_spec(fault) is AwaitReset <==> fault is BaselineResetPending,
        group_failure_spec(fault) is Stale <==> fault is Obsolete,
        !(fault is BaselineResetPending || fault is Unknown || fault is Capacity || fault is Obsolete)
            ==> group_failure_spec(fault) is Refuse,
{
}

/// A member whose reconstruction failed is only ever replaced by its own
/// complete seed: every member of an accepted fold either reconstructed or
/// had a seed, and a seed stands in exactly where reconstruction failed.
pub proof fn law_seeds_replace_only_failed_members(s: Seq<MemberDecode>, n: int)
    requires
        0 <= n <= s.len(),
        fold_spec(s, n) is Ok,
    ensures
        fold_spec(s, n)->Ok_0.use_seed.len() == n,
        forall|i: int|
            0 <= i < n ==> (#[trigger] fold_spec(s, n)->Ok_0.use_seed[i] <==> s[i].failure
                is Some) && (s[i].failure is Some ==> s[i].has_seed),
    decreases n,
{
    if n > 0 {
        law_seeds_replace_only_failed_members(s, n - 1);
        let f = fold_spec(s, n - 1)->Ok_0;
        let g = fold_spec(s, n)->Ok_0;
        assert forall|i: int| 0 <= i < n implies (#[trigger] g.use_seed[i] <==> s[i].failure
            is Some) && (s[i].failure is Some ==> s[i].has_seed) by {
            if i < n - 1 {
                assert(g.use_seed[i] == f.use_seed[i]);
                assert(fold_spec(s, n - 1)->Ok_0.use_seed[i] == f.use_seed[i]);
            }
        }
    }
}

/// A group that decoded with a pending reset or an obsolete full state is
/// never published.
pub proof fn law_held_groups_are_not_published(
    obsolete: Option<ObsoleteReason>,
    reset_pending: bool,
    valid: bool,
)
    ensures
        (obsolete is Some || reset_pending) ==> group_verdict_spec(obsolete, reset_pending, valid)
            is Err,
{
}

} // verus!
