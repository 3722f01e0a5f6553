//! Which reconciliation an owner publication calls for, and the bounded work
//! a topology replacement may spend.
use vstd::prelude::*;
use vstd::string::StringExecFns;
use crate::ids::{EntityId, ScopeIdentity, sat_sub};
use crate::text::{boolean, decimal, push_bool, push_decimal};

verus! {

/// A topology replacement replays at most this many retained ticks.
pub const TOPOLOGY_REPLAY_LIMIT: u64 = 32;
/// A started prediction adopts a checkpoint at most this far ahead of it.
pub const CHECKPOINT_ADVANCE_LIMIT: u64 = 12;
/// Retained bytes of one owner checkpoint.
pub const CHECKPOINT_BYTES: usize = 65536;
/// Retained bytes of one collision dependency record: the permitted colliders'
/// prepared geometry envelope plus record and map overhead.
pub const COLLISION_HISTORY_BYTES: usize = 4096 + 65536 + 2048;
/// Command storage and event bookkeeping per replayed frame.
pub const FRAME_BOOKKEEPING_BYTES: usize = 8192;
/// Both prediction managers together retain at most 64 MiB.
pub const HISTORY_BYTES_LIMIT: usize = 67108864;

/// Staging charge of one replayed frame.
pub open spec fn frame_staging_bytes() -> int {
    CHECKPOINT_BYTES + COLLISION_HISTORY_BYTES + FRAME_BOOKKEEPING_BYTES
}

/// Why a topology replacement was refused before any work.
#[derive(Clone, Copy, Debug, PartialEq, Eq, Structural)]
pub enum TopologyRefusal {
    /// The replacement does not fit one frame's prediction work.
    WorkBudget {
        predicted: u64,
        incoming: u64,
        revision: u64,
        replay: u64,
        work_replay: usize,
        work_predicted: usize,
        unstarted: bool,
    },
    /// Staging both managers would exceed the aggregate history bytes.
    HistoryBytes,
}

/// Whether replacing the topology at `incoming` exceeds one frame's work:
/// more than 32 ticks to replay, prediction work already spent this frame, or
/// a started prediction that the checkpoint passes by more than 12 ticks.
pub open spec fn exceeds_work_budget(
    predicted: u64,
    incoming: u64,
    work_replay: usize,
    work_predicted: usize,
    unstarted: bool,
) -> bool {
    ||| sat_sub(predicted, incoming) > TOPOLOGY_REPLAY_LIMIT
    ||| work_replay != 0
    ||| work_predicted != 0
    ||| (!unstarted && incoming > predicted + CHECKPOINT_ADVANCE_LIMIT)
}

/// Checks that a topology replacement fits the frame's work and the
/// aggregate history bytes. On success, the number of retained ticks after
/// the checkpoint that must be replayed.
pub fn check_topology_replacement(
    predicted: u64,
    incoming: u64,
    revision: u64,
    work_replay: usize,
    work_predicted: usize,
    unstarted: bool,
    retained_bytes: usize,
) -> (result: Result<u64, TopologyRefusal>)
    ensures
        exceeds_work_budget(predicted, incoming, work_replay, work_predicted, unstarted)
            ==> result == Err::<u64, TopologyRefusal>(
            TopologyRefusal::WorkBudget {
                predicted,
                incoming,
                revision,
                replay: sat_sub(predicted, incoming),
                work_replay,
                work_predicted,
                unstarted,
            },
        ),
        !exceeds_work_budget(predicted, incoming, work_replay, work_predicted, unstarted) ==> {
            let staging = (sat_sub(predicted, incoming) + 1) * frame_staging_bytes();
            &&& retained_bytes + staging > HISTORY_BYTES_LIMIT ==> result == Err::<
                u64,
                TopologyRefusal,
            >(TopologyRefusal::HistoryBytes)
            &&& retained_bytes + staging <= HISTORY_BYTES_LIMIT ==> result == Ok::<
                u64,
                TopologyRefusal,
            >(sat_sub(predicted, incoming))
        },
{
    let replay = predicted.saturating_sub(incoming);
    if replay > TOPOLOGY_REPLAY_LIMIT || work_replay != 0 || work_predicted != 0 || (!unstarted
        && incoming > predicted.saturating_add(CHECKPOINT_ADVANCE_LIMIT)) {
        return Err(
            TopologyRefusal::WorkBudget {
                predicted,
                incoming,
                revision,
                replay,
                work_replay,
                work_predicted,
                unstarted,
            },
        );
    }
    let per_frame = CHECKPOINT_BYTES + COLLISION_HISTORY_BYTES + FRAME_BOOKKEEPING_BYTES;
    assert(per_frame == 145408);
    assert(replay <= 32);
    let staging = (replay as usize + 1) * per_frame;
    if retained_bytes.saturating_add(staging) > HISTORY_BYTES_LIMIT {
        return Err(TopologyRefusal::HistoryBytes);
    }
    Ok(replay)
}

/// The diagnostic of a refusal as reported by reconciliation, naming the
/// session's activation and command sequence.
pub open spec fn refusal_text(refusal: TopologyRefusal, active: bool, sequence: u64) -> Seq<char> {
    let head = match refusal {
        TopologyRefusal::WorkBudget {
            predicted,
            incoming,
            revision,
            replay,
            work_replay,
            work_predicted,
            unstarted,
        } => "topology replay exceeds frame work budget: predicted="@ + decimal(predicted as nat)
            + " incoming="@ + decimal(incoming as nat) + " revision="@ + decimal(revision as nat)
            + " replay="@ + decimal(replay as nat) + " work_replay="@ + decimal(work_replay as nat)
            + " work_predicted="@ + decimal(work_predicted as nat) + " unstarted="@ + boolean(
            unstarted,
        ),
        TopologyRefusal::HistoryBytes => "topology replay exceeds aggregate history bytes"@,
    };
    head + "; active="@ + boolean(active) + " sequence="@ + decimal(sequence as nat)
}

impl TopologyRefusal {
    /// Renders the refusal as reconciliation reports it.
    pub fn message(&self, active: bool, sequence: u64) -> (result: String)
        ensures
            result@ == refusal_text(*self, active, sequence),
    {
        let mut s = String::new();
        match *self {
            TopologyRefusal::WorkBudget {
                predicted,
                incoming,
                revision,
                replay,
                work_replay,
                work_predicted,
                unstarted,
            } => {
                s.append("topology replay exceeds frame work budget: predicted=");
                push_decimal(&mut s, predicted);
                s.append(" incoming=");
                push_decimal(&mut s, incoming);
                s.append(" revision=");
                push_decimal(&mut s, revision);
                s.append(" replay=");
                push_decimal(&mut s, replay);
                s.append(" work_replay=");
                push_decimal(&mut s, work_replay as u64);
                s.append(" work_predicted=");
                push_decimal(&mut s, work_predicted as u64);
                s.append(" unstarted=");
                push_bool(&mut s, unstarted);
            },
            TopologyRefusal::HistoryBytes => {
                s.append("topology replay exceeds aggregate history bytes");
            },
        }
        s.append("; active=");
        push_bool(&mut s, active);
        s.append(" sequence=");
        push_decimal(&mut s, sequence);
        assert(s@ =~= refusal_text(*self, active, sequence));
        s
    }
}


/// The identity the current owner prediction was initialized from.
pub struct PredictionIdentity {
    /// Whether its binding equals the session's current binding.
    pub binding_current: bool,
    pub revision: u64,
    /// Its admitted scopes, in ascending order.
    pub scopes: Vec<ScopeIdentity>,
}

/// A complete owner group publication.
pub struct PublishedGroup {
    pub end_tick: u64,
    pub revision: u64,
    pub manifest: Vec<ScopeIdentity>,
}

/// The first scope of `entity` in `scopes`, if any.
pub open spec fn first_scope(scopes: Seq<ScopeIdentity>, entity: EntityId) -> Option<ScopeIdentity>
    decreases scopes.len(),
{
    if scopes.len() == 0 {
        None
    } else if scopes[0].entity == entity {
        Some(scopes[0])
    } else {
        first_scope(scopes.drop_first(), entity)
    }
}

/// The publication repeats exactly the identity prediction started from.
pub open spec fn same_identity_spec(identity: &PredictionIdentity, publication: &PublishedGroup) -> bool {
    &&& identity.binding_current
    &&& identity.revision == publication.revision
    &&& identity.scopes@.to_set() == publication.manifest@.to_set()
}

/// The publication is a later revision of the same binding that keeps the
/// global, owner and collision scopes: only the optional topology moved.
pub open spec fn advanced_topology_spec(
    identity: &PredictionIdentity,
    publication: &PublishedGroup,
    mandatory: [EntityId; 3],
) -> bool {
    &&& identity.binding_current
    &&& publication.revision > identity.revision
    &&& forall|m: int|
        0 <= m < 3 ==> first_scope(identity.scopes@, #[trigger] mandatory@[m]) == first_scope(
            publication.manifest@,
            mandatory@[m],
        )
}

fn find_scope(scopes: &Vec<ScopeIdentity>, entity: EntityId) -> (result: Option<ScopeIdentity>)
    ensures
        result == first_scope(scopes@, entity),
{
    let mut i: usize = 0;
    assert(scopes@.subrange(0, scopes@.len() as int) =~= scopes@);
    while i < scopes.len()
        invariant
            i <= scopes.len(),
            first_scope(scopes@, entity) == first_scope(scopes@.subrange(i as int, scopes@.len() as int), entity),
        decreases scopes.len() - i,
    {
        let ghost rest = scopes@.subrange(i as int, scopes@.len() as int);
        assert(rest[0] == scopes@[i as int]);
        if scopes[i].entity == entity {
            return Some(scopes[i]);
        }
        assert(rest.drop_first() =~= scopes@.subrange(i + 1, scopes@.len() as int));
        i = i + 1;
    }
    assert(scopes@.subrange(i as int, scopes@.len() as int) =~= Seq::<ScopeIdentity>::empty());
    None
}

fn contains_scope(scopes: &Vec<ScopeIdentity>, scope: &ScopeIdentity) -> (result: bool)
    ensures
        result == scopes@.contains(*scope),
{
    for i in 0..scopes.len()
        invariant
            forall|j: int| 0 <= j < i ==> scopes@[j] != *scope,
    {
        if scopes[i] == *scope {
            return true;
        }
    }
    false
}

fn includes_all(a: &Vec<ScopeIdentity>, b: &Vec<ScopeIdentity>) -> (result: bool)
    ensures
        result == (forall|x: ScopeIdentity| a@.contains(x) ==> b@.contains(x)),
{
    for i in 0..a.len()
        invariant
            forall|j: int| 0 <= j < i ==> b@.contains(#[trigger] a@[j]),
    {
        if !contains_scope(b, &a[i]) {
            return false;
        }
    }
    proof {
        assert forall|x: ScopeIdentity| a@.contains(x) implies b@.contains(x) by {
            let j = choose|j: int| 0 <= j < a@.len() && a@[j] == x;
            assert(b@.contains(a@[j]));
        }
    }
    true
}

/// Whether the publication repeats the identity prediction started from.
pub fn same_identity(identity: &PredictionIdentity, publication: &PublishedGroup) -> (result: bool)
    ensures
        result == same_identity_spec(identity, publication),
{
    if !identity.binding_current || identity.revision != publication.revision {
        return false;
    }
    let forward = includes_all(&identity.scopes, &publication.manifest);
    let backward = includes_all(&publication.manifest, &identity.scopes);
    proof {
        let a = identity.scopes@.to_set();
        let b = publication.manifest@.to_set();
        if forward && backward {
            assert(a =~= b);
        } else if a == b {
            if !forward {
                let x = choose|x: ScopeIdentity| identity.scopes@.contains(x) && !publication.manifest@.contains(x);
                assert(a.contains(x));
            } else {
                let x = choose|x: ScopeIdentity| publication.manifest@.contains(x) && !identity.scopes@.contains(x);
                assert(b.contains(x));
            }
        }
    }
    forward && backward
}

/// Whether the publication only advanced the optional topology.
pub fn advanced_topology(
    identity: &PredictionIdentity,
    publication: &PublishedGroup,
    mandatory: [EntityId; 3],
) -> (result: bool)
    ensures
        result == advanced_topology_spec(identity, publication, mandatory),
{
    if !identity.binding_current || publication.revision <= identity.revision {
        return false;
    }
    let mut m: usize = 0;
    while m < 3
        invariant
            m <= 3,
            forall|j: int|
                0 <= j < m ==> first_scope(identity.scopes@, #[trigger] mandatory@[j]) == first_scope(
                    publication.manifest@,
                    mandatory@[j],
                ),
        decreases 3 - m,
    {
        let entity = mandatory[m];
        if find_scope(&identity.scopes, entity) != find_scope(&publication.manifest, entity) {
            return false;
        }
        m = m + 1;
    }
    true
}

/// What reconciliation does with the current owner publication.
#[derive(Clone, Copy, Debug, PartialEq, Eq, Structural)]
pub enum ReconcilePlan {
    /// Recovery is pending or no complete owner publication exists.
    Idle,
    /// Start prediction from the publication, first discarding an inactive
    /// owner prediction when no command was issued yet.
    Initialize { discard: bool },
    /// The publication is newer than finalized commands; keep it until the
    /// reliable finalization publication catches up.
    AwaitFinalization,
    /// Replace only the topology, replaying retained input.
    ReplaceTopology,
    /// Adopt a complete checkpoint slightly ahead of prediction without replay.
    AdoptCheckpoint,
    /// Reconcile prediction against the publication by replay.
    Replay,
}

/// Why no plan could be made.
#[derive(Clone, Copy, Debug, PartialEq, Eq, Structural)]
pub enum ReconcileError {
    MissingPredictionHistory,
}

/// What reconciliation reads of the session.
#[derive(Clone, Copy, Debug, PartialEq, Eq, Structural)]
pub struct ReconcileState {
    pub recovering: bool,
    pub active: bool,
    /// The last issued command sequence; zero before the first command.
    pub sequence: u64,
    /// Whether an owner prediction group exists.
    pub predicting: bool,
    pub finalized: u64,
    pub predicted: Option<u64>,
    /// Prediction exists but never consumed input and sits on its checkpoint.
    pub unstarted: bool,
}

/// The plan for publication `proof_end`, given whether it repeats or only
/// advances the prediction identity.
pub open spec fn plan_spec(
    state: ReconcileState,
    proof_end: Option<u64>,
    same: bool,
    advanced: bool,
) -> Result<ReconcilePlan, ReconcileError> {
    if state.recovering || proof_end is None {
        Ok(ReconcilePlan::Idle)
    } else if !state.active && state.sequence == 0 {
        Ok(ReconcilePlan::Initialize { discard: state.predicting })
    } else if !state.predicting {
        Ok(ReconcilePlan::Initialize { discard: false })
    } else if proof_end->0 > state.finalized {
        Ok(ReconcilePlan::AwaitFinalization)
    } else if state.predicted is None {
        Err(ReconcileError::MissingPredictionHistory)
    } else if advanced {
        Ok(ReconcilePlan::ReplaceTopology)
    } else if proof_end->0 > state.predicted->0 && (proof_end->0 - state.predicted->0
        <= CHECKPOINT_ADVANCE_LIMIT || state.unstarted) && same {
        Ok(ReconcilePlan::AdoptCheckpoint)
    } else {
        Ok(ReconcilePlan::Replay)
    }
}

pub open spec fn end_of(publication: Option<&PublishedGroup>) -> Option<u64> {
    match publication {
        Some(p) => Some(p.end_tick),
        None => None,
    }
}

pub open spec fn same_of(identity: Option<&PredictionIdentity>, publication: Option<&PublishedGroup>) -> bool {
    match (identity, publication) {
        (Some(i), Some(p)) => same_identity_spec(i, p),
        _ => false,
    }
}

pub open spec fn advanced_of(
    identity: Option<&PredictionIdentity>,
    publication: Option<&PublishedGroup>,
    mandatory: [EntityId; 3],
) -> bool {
    match (identity, publication) {
        (Some(i), Some(p)) => advanced_topology_spec(i, p, mandatory),
        _ => false,
    }
}

/// Chooses what reconciliation does with the current owner publication.
pub fn plan_reconcile(
    state: &ReconcileState,
    publication: Option<&PublishedGroup>,
    identity: Option<&PredictionIdentity>,
    mandatory: [EntityId; 3],
) -> (result: Result<ReconcilePlan, ReconcileError>)
    ensures
        result == plan_spec(
            *state,
            end_of(publication),
            same_of(identity, publication),
            advanced_of(identity, publication, mandatory),
        ),
        result == Ok::<ReconcilePlan, ReconcileError>(ReconcilePlan::AdoptCheckpoint) ==> {
            &&& identity matches Some(i)
            &&& publication matches Some(p)
            &&& i.binding_current
            &&& i.revision == p.revision
            &&& i.scopes@.to_set() == p.manifest@.to_set()
            &&& state.predicted matches Some(t)
            &&& t < p.end_tick <= state.finalized
        },
        result == Ok::<ReconcilePlan, ReconcileError>(ReconcilePlan::Idle) <==> (publication is None
            || state.recovering),
        result == Ok::<ReconcilePlan, ReconcileError>(ReconcilePlan::AwaitFinalization) ==> (
        publication matches Some(p) && p.end_tick > state.finalized && state.predicting),
        result == Ok::<ReconcilePlan, ReconcileError>(ReconcilePlan::ReplaceTopology) ==> {
            &&& identity matches Some(i)
            &&& publication matches Some(p)
            &&& i.binding_current
            &&& p.revision > i.revision
            &&& p.end_tick <= state.finalized
        },
        result == Ok::<ReconcilePlan, ReconcileError>(ReconcilePlan::Replay) ==> (publication matches Some(
            p,
        ) && p.end_tick <= state.finalized && state.predicted is Some),
{
    if publication.is_none() {
        return Ok(ReconcilePlan::Idle);
    }
    let publication = publication.unwrap();
    if state.recovering {
        return Ok(ReconcilePlan::Idle);
    }
    if !state.active && state.sequence == 0 {
        return Ok(ReconcilePlan::Initialize { discard: state.predicting });
    }
    if !state.predicting {
        return Ok(ReconcilePlan::Initialize { discard: false });
    }
    if publication.end_tick > state.finalized {
        return Ok(ReconcilePlan::AwaitFinalization);
    }
    if state.predicted.is_none() {
        return Err(ReconcileError::MissingPredictionHistory);
    }
    let predicted = state.predicted.unwrap();
    let (same, advanced) = match identity {
        Some(i) => (same_identity(i, publication), advanced_topology(i, publication, mandatory)),
        None => (false, false),
    };
    if advanced {
        return Ok(ReconcilePlan::ReplaceTopology);
    }
    if publication.end_tick > predicted && (publication.end_tick - predicted <= CHECKPOINT_ADVANCE_LIMIT
        || state.unstarted) && same {
        return Ok(ReconcilePlan::AdoptCheckpoint);
    }
    Ok(ReconcilePlan::Replay)
}

// ---------------------------------------------------------------- laws

/// A checkpoint is adopted without replay only when it repeats exactly the
/// identity prediction started from (the current binding, the same revision
/// and the same scopes) and lies ahead of the prediction frontier yet within
/// finalization; a publication of any other identity is reconciled another
/// way.
pub proof fn law_adoption_requires_same_identity(
    state: ReconcileState,
    publication: Option<&PublishedGroup>,
    identity: Option<&PredictionIdentity>,
    mandatory: [EntityId; 3],
)
    ensures
        plan_spec(
            state,
            end_of(publication),
            same_of(identity, publication),
            advanced_of(identity, publication, mandatory),
        ) == Ok::<ReconcilePlan, ReconcileError>(ReconcilePlan::AdoptCheckpoint) ==> {
            &&& identity matches Some(i)
            &&& publication matches Some(p)
            &&& i.binding_current
            &&& i.revision == p.revision
            &&& i.scopes@.to_set() == p.manifest@.to_set()
            &&& state.predicted matches Some(t)
            &&& t < p.end_tick <= state.finalized
        },
{
}

/// A started prediction never adopts a topology more than twelve ticks
/// past its frontier, while one exactly twelve ticks ahead fits when no work
/// was spent; an accepted replacement replays at most 32 ticks.
pub proof fn law_topology_advance_is_bounded(
    predicted: u64,
    incoming: u64,
    work_replay: usize,
    work_predicted: usize,
)
    ensures
        incoming > predicted + CHECKPOINT_ADVANCE_LIMIT ==> exceeds_work_budget(
            predicted,
            incoming,
            work_replay,
            work_predicted,
            false,
        ),
        incoming == predicted + CHECKPOINT_ADVANCE_LIMIT ==> !exceeds_work_budget(
            predicted,
            incoming,
            0,
            0,
            false,
        ),
        !exceeds_work_budget(predicted, incoming, work_replay, work_predicted, false) ==> sat_sub(
            predicted,
            incoming,
        ) <= TOPOLOGY_REPLAY_LIMIT && incoming <= predicted + CHECKPOINT_ADVANCE_LIMIT,
{
}

} // verus!
