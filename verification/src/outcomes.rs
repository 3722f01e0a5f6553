//! Bounded local action tracking that survives transport reconnects and is
//! looked up only by the owning player.
use vstd::prelude::*;
use crate::ids::{ActionKey, CombatViewStamp, key_less, key_lt, lemma_key_order, sat_sub};

verus! {

broadcast use vstd::seq_lib::group_seq_properties;

/// Records older than thirty seconds are forgotten.
pub const RETENTION_NANOS: u64 = 30_000_000_000;
/// At most this many action records are tracked at once.
pub const CAPACITY: usize = 16_384;
/// Lookups are sent at most every 250 ms.
pub const LOOKUP_INTERVAL_NANOS: u64 = 250_000_000;
/// One record is asked for again after a full second.
pub const LOOKUP_REPEAT_NANOS: u64 = 1_000_000_000;
/// One lookup names at most eight actions.
pub const LOOKUP_BATCH: usize = 8;
/// A trace never reports more than 128 records.
pub const TRACE_LIMIT: usize = 128;

/// Why an outcome operation was refused.
#[derive(Clone, Copy, Debug, PartialEq, Eq, Structural)]
pub enum OutcomeError {
    /// Tracking the command would exceed `CAPACITY` records.
    Capacity,
    /// An outcome differs from the one already recorded, or names a record of
    /// another owner inside a batch.
    ConflictingOutcome,
    /// Two records of one batch name the same action with different outcomes.
    ConflictingBatch,
    /// A single outcome names a record of another owner.
    OwnerMismatch,
}

impl OutcomeError {
    /// The diagnostic text of this refusal.
    pub fn message(&self) -> (result: &'static str)
        ensures
            result@ == match *self {
                OutcomeError::Capacity => "Local action outcome capacity"@,
                OutcomeError::ConflictingOutcome => "Conflicting terminal action outcome"@,
                OutcomeError::ConflictingBatch => "Conflicting terminal action batch"@,
                OutcomeError::OwnerMismatch => "Action outcome owner mismatch"@,
            },
    {
        match self {
            OutcomeError::Capacity => "Local action outcome capacity",
            OutcomeError::ConflictingOutcome => "Conflicting terminal action outcome",
            OutcomeError::ConflictingBatch => "Conflicting terminal action batch",
            OutcomeError::OwnerMismatch => "Action outcome owner mismatch",
        }
    }
}

/// What an action edge asked for, as reported in traces.
#[derive(Clone, Copy, Debug, PartialEq, Eq, Structural)]
pub enum ActionKind {
    Ray,
    BeamBegin,
    BeamStop,
    ChargeBegin,
    ChargeRelease,
    ChargeCancel,
    Dash,
    Cast,
    Invalid,
}

impl ActionKind {
    /// The label a trace reports for this kind.
    pub fn name(&self) -> (result: &'static str)
        ensures
            result@ == match *self {
                ActionKind::Ray => "ray"@,
                ActionKind::BeamBegin => "beam_begin"@,
                ActionKind::BeamStop => "beam_stop"@,
                ActionKind::ChargeBegin => "charge_begin"@,
                ActionKind::ChargeRelease => "charge_release"@,
                ActionKind::ChargeCancel => "charge_cancel"@,
                ActionKind::Dash => "dash"@,
                ActionKind::Cast => "cast"@,
                ActionKind::Invalid => "invalid"@,
            },
    {
        match self {
            ActionKind::Ray => "ray",
            ActionKind::BeamBegin => "beam_begin",
            ActionKind::BeamStop => "beam_stop",
            ActionKind::ChargeBegin => "charge_begin",
            ActionKind::ChargeRelease => "charge_release",
            ActionKind::ChargeCancel => "charge_cancel",
            ActionKind::Dash => "dash",
            ActionKind::Cast => "cast",
            ActionKind::Invalid => "invalid",
        }
    }
}

/// A server tick observed at a local time (nanoseconds since start).
#[derive(Clone, Copy, Debug, PartialEq, Eq, Structural)]
pub struct TraceObservation {
    pub tick: u64,
    pub at: u64,
}

/// A terminal outcome of one action. `payload` holds the remaining fields of
/// the server's record in canonical byte form: two outcomes are the same
/// exactly when all four fields are equal.
#[derive(Debug, PartialEq, Eq)]
pub struct ActionOutcome {
    pub sequence: u64,
    pub key: ActionKey,
    pub execution_tick: u64,
    pub payload: Vec<u8>,
}

/// The mathematical value of an outcome.
pub struct OutcomeView {
    pub sequence: u64,
    pub key: ActionKey,
    pub execution_tick: u64,
    pub payload: Seq<u8>,
}

impl View for ActionOutcome {
    type V = OutcomeView;

    open spec fn view(&self) -> OutcomeView {
        OutcomeView {
            sequence: self.sequence,
            key: self.key,
            execution_tick: self.execution_tick,
            payload: self.payload@,
        }
    }
}

pub(crate) fn copy_bytes(bytes: &Vec<u8>) -> (result: Vec<u8>)
    ensures
        result@ == bytes@,
{
    let mut result: Vec<u8> = Vec::new();
    for i in 0..bytes.len()
        invariant
            result@ == bytes@.take(i as int),
    {
        result.push(bytes[i]);
        assert(result@ =~= bytes@.take(i + 1));
    }
    assert(result@ =~= bytes@);
    result
}

impl ActionOutcome {
    /// Whether two outcomes are the same record.
    pub fn same(&self, other: &ActionOutcome) -> (result: bool)
        ensures
            result == (self@ == other@),
    {
        if self.sequence != other.sequence || self.key != other.key
            || self.execution_tick != other.execution_tick
            || self.payload.len() != other.payload.len() {
            return false;
        }
        for i in 0..self.payload.len()
            invariant
                self.payload.len() == other.payload.len(),
                forall|j: int| 0 <= j < i ==> self.payload@[j] == other.payload@[j],
        {
            if self.payload[i] != other.payload[i] {
                return false;
            }
        }
        assert(self.payload@ =~= other.payload@);
        true
    }

    /// An equal copy of this outcome.
    pub fn duplicate(&self) -> (result: ActionOutcome)
        ensures
            result@ == self@,
    {
        ActionOutcome {
            sequence: self.sequence,
            key: self.key,
            execution_tick: self.execution_tick,
            payload: copy_bytes(&self.payload),
        }
    }
}

/// One action edge of a command, reduced to what tracking reads.
#[derive(Clone, Copy, Debug, PartialEq, Eq, Structural)]
pub struct ActionEdge {
    pub slot: u8,
    pub kind: ActionKind,
    pub view: Option<CombatViewStamp>,
}

/// An issued command: owner stream, sequence, target tick and action edges.
pub struct IssuedCommand {
    pub connection: u64,
    pub stream: u64,
    pub sequence: u64,
    pub target: u64,
    pub actions: Vec<ActionEdge>,
}

impl IssuedCommand {
    pub open spec fn key_of(&self, slot: u8) -> ActionKey {
        ActionKey { connection: self.connection, stream: self.stream, command: self.sequence, slot }
    }

    /// The identity of the action in `slot` of this command.
    pub fn action_key(&self, slot: u8) -> (result: ActionKey)
        ensures
            result == self.key_of(slot),
    {
        ActionKey { connection: self.connection, stream: self.stream, command: self.sequence, slot }
    }
}

struct Record {
    owner: u64,
    target: u64,
    created: u64,
    looked_up: u64,
    outcome: Option<ActionOutcome>,
    unavailable: bool,
    kind: ActionKind,
    view: Option<CombatViewStamp>,
    first_enqueued: Option<u64>,
    received: Option<u64>,
    checkpoint: Option<TraceObservation>,
    presented: Option<TraceObservation>,
    graphics_seen: Option<TraceObservation>,
    graphics_id: Option<u64>,
    observing: bool,
}

/// The mathematical value of one tracked action. `observing` holds while the
/// record still waits for a checkpoint or presentation observation.
pub struct TrackedView {
    pub owner: u64,
    pub target: u64,
    pub created: u64,
    pub looked_up: u64,
    pub outcome: Option<OutcomeView>,
    pub unavailable: bool,
    pub kind: ActionKind,
    pub view: Option<CombatViewStamp>,
    pub first_enqueued: Option<u64>,
    pub received: Option<u64>,
    pub checkpoint: Option<TraceObservation>,
    pub presented: Option<TraceObservation>,
    pub graphics_seen: Option<TraceObservation>,
    pub graphics_id: Option<u64>,
    pub observing: bool,
}

pub open spec fn option_view(o: Option<ActionOutcome>) -> Option<OutcomeView> {
    match o {
        Some(v) => Some(v@),
        None => None,
    }
}

impl View for Record {
    type V = TrackedView;

    closed spec fn view(&self) -> TrackedView {
        TrackedView {
            owner: self.owner,
            target: self.target,
            created: self.created,
            looked_up: self.looked_up,
            outcome: option_view(self.outcome),
            unavailable: self.unavailable,
            kind: self.kind,
            view: self.view,
            first_enqueued: self.first_enqueued,
            received: self.received,
            checkpoint: self.checkpoint,
            presented: self.presented,
            graphics_seen: self.graphics_seen,
            graphics_id: self.graphics_id,
            observing: self.observing,
        }
    }
}

struct Entry {
    key: ActionKey,
    state: Record,
}

/// One record, keyed by its action.
pub struct EntryView {
    pub key: ActionKey,
    pub state: TrackedView,
}

impl View for Entry {
    type V = EntryView;

    closed spec fn view(&self) -> EntryView {
        EntryView { key: self.key, state: self.state@ }
    }
}

/// The action records of the bound server instance, ordered by key.
pub struct ClientOutcomes {
    server_instance: Option<u64>,
    entries: Vec<Entry>,
    last_lookup: u64,
}

/// The mathematical value of the tracker.
pub struct OutcomesView {
    pub instance: Option<u64>,
    pub entries: Seq<EntryView>,
    pub last_lookup: u64,
}

spec fn entries_view(s: Seq<Entry>) -> Seq<EntryView> {
    s.map_values(|e: Entry| e@)
}

impl View for ClientOutcomes {
    type V = OutcomesView;

    closed spec fn view(&self) -> OutcomesView {
        OutcomesView {
            instance: self.server_instance,
            entries: entries_view(self.entries@),
            last_lookup: self.last_lookup,
        }
    }
}


/// What is known about one tracked action, for diagnostics.
#[derive(Debug)]
pub struct ClientActionTrace {
    pub server_instance: u64,
    pub owner: u64,
    pub key: ActionKey,
    pub kind: ActionKind,
    pub view: Option<CombatViewStamp>,
    pub target_c: u64,
    pub created_at: u64,
    /// First enqueue on the authenticated command lane, not a physical send.
    pub first_enqueued_at: Option<u64>,
    pub outcome: Option<ActionOutcome>,
    pub outcome_received_at: Option<u64>,
    pub checkpoint: Option<TraceObservation>,
    /// A timeline observation only; it does not prove a visual appeared.
    pub presented_timeline: Option<TraceObservation>,
    pub graphics_seen: Option<TraceObservation>,
    pub graphics_id: Option<u64>,
    pub lookup_unavailable: bool,
}

/// The mathematical value of a trace.
pub struct TraceView {
    pub server_instance: u64,
    pub owner: u64,
    pub key: ActionKey,
    pub kind: ActionKind,
    pub view: Option<CombatViewStamp>,
    pub target_c: u64,
    pub created_at: u64,
    pub first_enqueued_at: Option<u64>,
    pub outcome: Option<OutcomeView>,
    pub outcome_received_at: Option<u64>,
    pub checkpoint: Option<TraceObservation>,
    pub presented_timeline: Option<TraceObservation>,
    pub graphics_seen: Option<TraceObservation>,
    pub graphics_id: Option<u64>,
    pub lookup_unavailable: bool,
}

impl View for ClientActionTrace {
    type V = TraceView;

    open spec fn view(&self) -> TraceView {
        TraceView {
            server_instance: self.server_instance,
            owner: self.owner,
            key: self.key,
            kind: self.kind,
            view: self.view,
            target_c: self.target_c,
            created_at: self.created_at,
            first_enqueued_at: self.first_enqueued_at,
            outcome: option_view(self.outcome),
            outcome_received_at: self.outcome_received_at,
            checkpoint: self.checkpoint,
            presented_timeline: self.presented_timeline,
            graphics_seen: self.graphics_seen,
            graphics_id: self.graphics_id,
            lookup_unavailable: self.lookup_unavailable,
        }
    }
}

/// The trace of one record; an unbound tracker reports instance zero.
pub open spec fn trace_of(instance: Option<u64>, e: EntryView) -> TraceView {
    TraceView {
        server_instance: match instance {
            Some(v) => v,
            None => 0,
        },
        owner: e.state.owner,
        key: e.key,
        kind: e.state.kind,
        view: e.state.view,
        target_c: e.state.target,
        created_at: e.state.created,
        first_enqueued_at: e.state.first_enqueued,
        outcome: e.state.outcome,
        outcome_received_at: e.state.received,
        checkpoint: e.state.checkpoint,
        presented_timeline: e.state.presented,
        graphics_seen: e.state.graphics_seen,
        graphics_id: e.state.graphics_id,
        lookup_unavailable: e.state.unavailable,
    }
}

pub open spec fn trace_views(traces: Seq<ClientActionTrace>) -> Seq<TraceView> {
    traces.map_values(|v: ClientActionTrace| v@)
}

pub open spec fn trace_at(instance: Option<u64>) -> spec_fn(EntryView) -> TraceView {
    |e: EntryView| trace_of(instance, e)
}

/// Record `i` holds the owner's most recent outcome by sequence; among equal
/// sequences the record with the greatest key.
pub open spec fn is_latest(s: Seq<EntryView>, owner: u64, i: int) -> bool {
    &&& 0 <= i < s.len()
    &&& s[i].state.owner == owner
    &&& s[i].state.outcome is Some
    &&& forall|j: int|
        0 <= j < i && s[j].state.owner == owner && s[j].state.outcome is Some ==> (
        #[trigger] s[j].state.outcome->0.sequence) <= s[i].state.outcome->0.sequence
    &&& forall|j: int|
        i < j < s.len() && s[j].state.owner == owner && s[j].state.outcome is Some ==> (
        #[trigger] s[j].state.outcome->0.sequence) < s[i].state.outcome->0.sequence
}

// ---------------------------------------------------------------- model

/// Keys strictly increase along the sequence.
pub open spec fn sorted(s: Seq<EntryView>) -> bool {
    forall|i: int, j: int| 0 <= i < j < s.len() ==> key_lt(#[trigger] s[i].key, #[trigger] s[j].key)
}

pub open spec fn has_key(s: Seq<EntryView>, k: ActionKey) -> bool {
    exists|i: int| 0 <= i < s.len() && s[i].key == k
}

/// The position of key `k`, if it is tracked.
pub open spec fn index_of(s: Seq<EntryView>, k: ActionKey) -> int
    recommends
        has_key(s, k),
{
    choose|i: int| 0 <= i < s.len() && s[i].key == k
}

/// Where a new key `k` goes in a sorted sequence: after every smaller key.
pub open spec fn insert_position(s: Seq<EntryView>, k: ActionKey) -> int
    decreases s.len(),
{
    if s.len() == 0 {
        0
    } else if key_lt(s.last().key, k) {
        s.len() as int
    } else {
        insert_position(s.drop_last(), k)
    }
}

pub open spec fn fresh(e: EntryView, now: u64) -> bool {
    sat_sub(now, e.state.created) < RETENTION_NANOS
}

pub open spec fn fresh_at(now: u64) -> spec_fn(EntryView) -> bool {
    |e: EntryView| fresh(e, now)
}

/// The records younger than the retention window at `now`.
pub open spec fn retained(s: Seq<EntryView>, now: u64) -> Seq<EntryView> {
    s.filter(fresh_at(now))
}

/// A fresh record for one action edge of a command.
pub open spec fn new_tracked(owner: u64, target: u64, now: u64, edge: ActionEdge) -> TrackedView {
    TrackedView {
        owner,
        target,
        created: now,
        looked_up: now,
        outcome: None,
        unavailable: false,
        kind: edge.kind,
        view: edge.view,
        first_enqueued: None,
        received: None,
        checkpoint: None,
        presented: None,
        graphics_seen: None,
        graphics_id: None,
        observing: true,
    }
}

/// Tracking one edge: an existing record only starts observing again; a new
/// key gets a fresh record in key order.
pub open spec fn track_edge(
    s: Seq<EntryView>,
    owner: u64,
    cmd: &IssuedCommand,
    edge: ActionEdge,
    now: u64,
) -> Seq<EntryView> {
    let k = cmd.key_of(edge.slot);
    if has_key(s, k) {
        let i = index_of(s, k);
        s.update(i, EntryView { key: k, state: TrackedView { observing: true, ..s[i].state } })
    } else {
        s.insert(
            insert_position(s, k),
            EntryView { key: k, state: new_tracked(owner, cmd.target, now, edge) },
        )
    }
}

/// Tracking the first `n` edges of a command in order.
pub open spec fn track_edges(
    s: Seq<EntryView>,
    owner: u64,
    cmd: &IssuedCommand,
    now: u64,
    n: int,
) -> Seq<EntryView>
    decreases n,
{
    if n <= 0 {
        s
    } else {
        track_edge(track_edges(s, owner, cmd, now, n - 1), owner, cmd, cmd.actions@[n - 1], now)
    }
}


/// The values of a list of outcomes.
pub open spec fn outcome_views(records: Seq<ActionOutcome>) -> Seq<OutcomeView> {
    records.map_values(|o: ActionOutcome| o@)
}

/// The verdict on one outcome: unknown actions are ignored, other owners'
/// records and differing repeats are refused.
pub open spec fn receive_result(s: Seq<EntryView>, owner: u64, o: OutcomeView) -> Result<
    (),
    OutcomeError,
> {
    if !has_key(s, o.key) {
        Ok(())
    } else {
        let e = s[index_of(s, o.key)].state;
        if e.owner != owner {
            Err(OutcomeError::OwnerMismatch)
        } else if e.outcome matches Some(previous) && previous != o {
            Err(OutcomeError::ConflictingOutcome)
        } else {
            Ok(())
        }
    }
}

/// The records after one outcome: the first outcome of a known action is
/// kept together with its arrival time; everything else is unchanged.
pub open spec fn receive_entries(s: Seq<EntryView>, owner: u64, o: OutcomeView, now: u64) -> Seq<
    EntryView,
> {
    if receive_result(s, owner, o) is Ok && has_key(s, o.key) && s[index_of(
        s,
        o.key,
    )].state.outcome is None {
        let i = index_of(s, o.key);
        s.update(
            i,
            EntryView {
                key: o.key,
                state: TrackedView { outcome: Some(o), received: Some(now), ..s[i].state },
            },
        )
    } else {
        s
    }
}

/// Whether `o` disagrees with the record already kept for its action.
pub open spec fn existing_conflict(s: Seq<EntryView>, owner: u64, o: OutcomeView) -> bool {
    has_key(s, o.key) && (s[index_of(s, o.key)].state.owner != owner || (s[index_of(
        s,
        o.key,
    )].state.outcome matches Some(previous) && previous != o))
}

/// Why record `i` of a batch is refused, if it is.
pub open spec fn batch_error_at(s: Seq<EntryView>, owner: u64, recs: Seq<OutcomeView>, i: int) -> Option<
    OutcomeError,
> {
    let o = recs[i];
    if existing_conflict(s, owner, o) {
        Some(OutcomeError::ConflictingOutcome)
    } else if exists|j: int| 0 <= j < i && recs[j].key == o.key && recs[j] != o {
        Some(OutcomeError::ConflictingBatch)
    } else {
        None
    }
}

/// The first refusal among the first `n` records of a batch.
pub open spec fn batch_check(s: Seq<EntryView>, owner: u64, recs: Seq<OutcomeView>, n: int) -> Option<
    OutcomeError,
>
    decreases n,
{
    if n <= 0 {
        None
    } else {
        match batch_check(s, owner, recs, n - 1) {
            Some(e) => Some(e),
            None => batch_error_at(s, owner, recs, n - 1),
        }
    }
}

/// Receiving the first `n` outcomes in order.
pub open spec fn receive_all(
    s: Seq<EntryView>,
    owner: u64,
    recs: Seq<OutcomeView>,
    now: u64,
    n: int,
) -> Seq<EntryView>
    decreases n,
{
    if n <= 0 {
        s
    } else {
        receive_entries(receive_all(s, owner, recs, now, n - 1), owner, recs[n - 1], now)
    }
}

/// Marks as unavailable the owner's records named by `keys`: the server no
/// longer knows them. This is never a gameplay rejection.
pub open spec fn mark_unavailable(s: Seq<EntryView>, owner: u64, keys: Seq<ActionKey>) -> Seq<
    EntryView,
> {
    s.map_values(
        |e: EntryView|
            if keys.contains(e.key) && e.state.owner == owner {
                EntryView { key: e.key, state: TrackedView { unavailable: true, ..e.state } }
            } else {
                e
            },
    )
}

/// Notes the first enqueue time of every record named by `keys`.
pub open spec fn mark_enqueued(s: Seq<EntryView>, keys: Seq<ActionKey>, now: u64) -> Seq<EntryView> {
    s.map_values(
        |e: EntryView|
            if keys.contains(e.key) && e.state.first_enqueued is None {
                EntryView { key: e.key, state: TrackedView { first_enqueued: Some(now), ..e.state } }
            } else {
                e
            },
    )
}

/// One observation of an owner checkpoint (`presented` false) or of a
/// presented timeline (`presented` true) at `tick`.
pub open spec fn observe_entry(
    e: EntryView,
    owner: u64,
    connection: u64,
    tick: u64,
    now: u64,
    presented: bool,
) -> EntryView {
    if !e.state.observing {
        e
    } else {
        let covers = e.state.owner == owner && e.key.connection == connection && e.state.target
            <= tick;
        let obs = TraceObservation { tick, at: now };
        let checkpoint = if covers && !presented && e.state.checkpoint is None {
            Some(obs)
        } else {
            e.state.checkpoint
        };
        let shown = if covers && presented && e.state.presented is None {
            Some(obs)
        } else {
            e.state.presented
        };
        EntryView {
            key: e.key,
            state: TrackedView {
                checkpoint,
                presented: shown,
                observing: checkpoint is None || shown is None,
                ..e.state
            },
        }
    }
}


/// Notes the first graphics observation of the owner's record `key`.
pub open spec fn mark_graphics(
    s: Seq<EntryView>,
    owner: u64,
    key: ActionKey,
    graphics_id: u64,
    tick: u64,
    now: u64,
) -> Seq<EntryView> {
    if has_key(s, key) && s[index_of(s, key)].state.owner == owner {
        let i = index_of(s, key);
        let e = s[i].state;
        s.update(
            i,
            EntryView {
                key,
                state: TrackedView {
                    graphics_seen: if e.graphics_seen is None {
                        Some(TraceObservation { tick, at: now })
                    } else {
                        e.graphics_seen
                    },
                    graphics_id: if e.graphics_id is None {
                        Some(graphics_id)
                    } else {
                        e.graphics_id
                    },
                    ..e
                },
            },
        )
    } else {
        s
    }
}

/// A record the owner may ask about again: no outcome yet, not known to be
/// unavailable, no longer speculative on this connection, and not asked
/// about within the last second.
pub open spec fn lookup_eligible(
    e: EntryView,
    owner: u64,
    connection: u64,
    finalized: u64,
    now: u64,
) -> bool {
    &&& e.state.owner == owner
    &&& e.state.outcome is None
    &&& !e.state.unavailable
    &&& (e.key.connection != connection || e.state.target <= finalized)
    &&& sat_sub(now, e.state.looked_up) >= LOOKUP_REPEAT_NANOS
}

pub open spec fn eligible_at(owner: u64, connection: u64, finalized: u64, now: u64) -> spec_fn(
    EntryView,
) -> bool {
    |e: EntryView| lookup_eligible(e, owner, connection, finalized, now)
}

pub open spec fn key_of_entry() -> spec_fn(EntryView) -> ActionKey {
    |e: EntryView| e.key
}

/// The keys one lookup names: the first eight eligible records in key order.
pub open spec fn lookup_keys(s: Seq<EntryView>, p: spec_fn(EntryView) -> bool) -> Seq<ActionKey> {
    let f = s.filter(p);
    f.take(if f.len() < LOOKUP_BATCH { f.len() as int } else { LOOKUP_BATCH as int }).map_values(
        key_of_entry(),
    )
}

/// The records after a lookup: every named record was asked about `now`.
pub open spec fn lookup_entries(s: Seq<EntryView>, p: spec_fn(EntryView) -> bool, now: u64) -> Seq<
    EntryView,
> {
    Seq::new(
        s.len(),
        |i: int|
            if p(s[i]) && s.take(i).filter(p).len() < LOOKUP_BATCH {
                EntryView { key: s[i].key, state: TrackedView { looked_up: now, ..s[i].state } }
            } else {
                s[i]
            },
    )
}

pub open spec fn owned_by(owner: u64) -> spec_fn(EntryView) -> bool {
    |e: EntryView| e.state.owner == owner
}

/// The owner's records, newest key first.
pub open spec fn owner_desc(s: Seq<EntryView>, owner: u64) -> Seq<EntryView> {
    s.reverse().filter(owned_by(owner))
}

// ---------------------------------------------------------------- lemmas

proof fn lemma_insert_position(s: Seq<EntryView>, k: ActionKey)
    requires
        sorted(s),
    ensures
        0 <= insert_position(s, k) <= s.len(),
        forall|i: int| 0 <= i < insert_position(s, k) ==> key_lt(#[trigger] s[i].key, k),
        forall|i: int| insert_position(s, k) <= i < s.len() ==> !key_lt(#[trigger] s[i].key, k),
    decreases s.len(),
{
    if s.len() > 0 {
        if key_lt(s.last().key, k) {
            assert forall|i: int| 0 <= i < s.len() implies key_lt(#[trigger] s[i].key, k) by {
                if i < s.len() - 1 {
                    lemma_key_order(s[i].key, s.last().key, k);
                }
            }
        } else {
            let t = s.drop_last();
            assert(sorted(t));
            lemma_insert_position(t, k);
            assert forall|i: int| insert_position(s, k) <= i < s.len() implies !key_lt(
                #[trigger] s[i].key,
                k,
            ) by {
                if i < s.len() - 1 {
                    assert(t[i] == s[i]);
                }
            }
            assert forall|i: int| 0 <= i < insert_position(s, k) implies key_lt(
                #[trigger] s[i].key,
                k,
            ) by {
                assert(t[i] == s[i]);
            }
        }
    }
}

proof fn lemma_index_of(s: Seq<EntryView>, i: int)
    requires
        sorted(s),
        0 <= i < s.len(),
    ensures
        has_key(s, s[i].key),
        index_of(s, s[i].key) == i,
{
    let j = index_of(s, s[i].key);
    assert(s[j].key == s[i].key);
    if j < i {
        assert(key_lt(s[j].key, s[i].key));
        lemma_key_order(s[j].key, s[i].key, s[i].key);
    } else if i < j {
        assert(key_lt(s[i].key, s[j].key));
        lemma_key_order(s[j].key, s[i].key, s[i].key);
    }
}

proof fn lemma_sorted_insert(s: Seq<EntryView>, e: EntryView)
    requires
        sorted(s),
        !has_key(s, e.key),
    ensures
        sorted(s.insert(insert_position(s, e.key), e)),
{
    lemma_insert_position(s, e.key);
    let p = insert_position(s, e.key);
    let t = s.insert(p, e);
    assert forall|i: int, j: int| 0 <= i < j < t.len() implies key_lt(
        #[trigger] t[i].key,
        #[trigger] t[j].key,
    ) by {
        if j < p {
        } else if j == p {
        } else if i < p {
            assert(t[j] == s[j - 1]);
            assert(!key_lt(s[j - 1].key, e.key));
            assert(s[j - 1].key != e.key);
            lemma_key_order(s[j - 1].key, e.key, e.key);
            lemma_key_order(s[i].key, e.key, s[j - 1].key);
        } else if i == p {
            assert(t[j] == s[j - 1]);
            assert(!key_lt(s[j - 1].key, e.key));
            assert(s[j - 1].key != e.key);
            lemma_key_order(s[j - 1].key, e.key, e.key);
        } else {
            assert(t[i] == s[i - 1]);
            assert(t[j] == s[j - 1]);
        }
    }
}

proof fn lemma_sorted_filter(s: Seq<EntryView>, p: spec_fn(EntryView) -> bool)
    requires
        sorted(s),
    ensures
        sorted(s.filter(p)),
        forall|x: EntryView| #[trigger] s.filter(p).contains(x) ==> s.contains(x),
    decreases s.len(),
{
    reveal(Seq::filter);
    if s.len() > 0 {
        let t = s.drop_last();
        assert(sorted(t));
        lemma_sorted_filter(t, p);
        let f = t.filter(p);
        let g = s.filter(p);
        if p(s.last()) {
            assert(g == f.push(s.last()));
        } else {
            assert(g == f);
        }
        assert forall|x: EntryView| g.contains(x) implies s.contains(x) by {
            let k = choose|k: int| 0 <= k < g.len() && g[k] == x;
            if k < f.len() {
                assert(f[k] == x);
                assert(f.contains(x));
                let j = choose|j: int| 0 <= j < t.len() && t[j] == x;
                assert(s[j] == x);
            } else {
                assert(s[s.len() - 1] == x);
            }
        }
        if p(s.last()) {
            let g = f.push(s.last());
            assert forall|i: int, j: int| 0 <= i < j < g.len() implies key_lt(
                #[trigger] g[i].key,
                #[trigger] g[j].key,
            ) by {
                if j == g.len() - 1 {
                    assert(f.contains(g[i]));
                    let m = choose|m: int| 0 <= m < t.len() && t[m] == g[i];
                    assert(s[m] == g[i]);
                } else {
                    assert(g[i] == f[i] && g[j] == f[j]);
                }
            }
        }
    }
}

proof fn lemma_same_keys_sorted(a: Seq<EntryView>, b: Seq<EntryView>)
    requires
        sorted(a),
        a.len() == b.len(),
        forall|i: int| 0 <= i < a.len() ==> (#[trigger] a[i]).key == b[i].key,
    ensures
        sorted(b),
{
    assert forall|i: int, j: int| 0 <= i < j < b.len() implies key_lt(
        #[trigger] b[i].key,
        #[trigger] b[j].key,
    ) by {
        assert(a[i].key == b[i].key);
        assert(a[j].key == b[j].key);
    }
}

proof fn lemma_batch_check_extends(
    s: Seq<EntryView>,
    owner: u64,
    recs: Seq<OutcomeView>,
    i: int,
    n: int,
)
    requires
        0 <= i <= n,
        batch_check(s, owner, recs, i) is Some,
    ensures
        batch_check(s, owner, recs, n) == batch_check(s, owner, recs, i),
    decreases n - i,
{
    if i < n {
        lemma_batch_check_extends(s, owner, recs, i, n - 1);
    }
}

// ---------------------------------------------------------------- tracker

impl ClientOutcomes {
    /// Keys strictly increase and at most `CAPACITY` records are kept.
    pub closed spec fn wf(&self) -> bool {
        &&& sorted(self@.entries)
        &&& self.entries.len() <= CAPACITY
    }

    /// No server instance bound and nothing tracked.
    pub fn new() -> (result: ClientOutcomes)
        ensures
            result.wf(),
            result@.instance is None,
            result@.entries == Seq::<EntryView>::empty(),
            result@.last_lookup == 0,
    {
        let result = ClientOutcomes { server_instance: None, entries: Vec::new(), last_lookup: 0 };
        assert(result@.entries =~= Seq::<EntryView>::empty());
        result
    }

    /// An authenticated restart of the server forgets everything, before any
    /// action key of the new instance can be reused; the same instance keeps all.
    pub fn bind_instance(&mut self, instance: u64)
        requires
            old(self).wf(),
        ensures
            final(self).wf(),
            final(self)@.instance == Some(instance),
            old(self)@.instance == Some(instance) ==> final(self)@ == old(self)@,
            old(self)@.instance != Some(instance) ==> {
                &&& final(self)@.entries == Seq::<EntryView>::empty()
                &&& final(self)@.last_lookup == 0
            },
    {
        let same = match self.server_instance {
            Some(current) => current == instance,
            None => false,
        };
        if !same {
            self.entries = Vec::new();
            self.last_lookup = 0;
            self.server_instance = Some(instance);
            assert(self@.entries =~= Seq::<EntryView>::empty());
        }
    }

    fn retain_fresh(&mut self, now: u64)
        requires
            old(self).wf(),
        ensures
            final(self).wf(),
            final(self)@.entries == retained(old(self)@.entries, now),
            final(self)@.instance == old(self)@.instance,
            final(self)@.last_lookup == old(self)@.last_lookup,
    {
        let ghost s = self@.entries;
        let ghost p = fresh_at(now);
        let mut old_entries: Vec<Entry> = Vec::new();
        std::mem::swap(&mut old_entries, &mut self.entries);
        proof {
            assert forall|j: int| 0 <= j < old_entries.len() implies (#[trigger] old_entries@[j])@ == s[j] by {
                assert(entries_view(old_entries@)[j] == old_entries@[j]@);
            }
        }
        let mut kept: Vec<Entry> = Vec::new();
        let mut remaining: Vec<Entry> = Vec::new();
        let n = old_entries.len();
        while old_entries.len() > 0
            invariant
                n == s.len(),
                old_entries.len() + remaining.len() == n,
                forall|j: int| 0 <= j < old_entries.len() ==> (#[trigger] old_entries@[j])@ == s[j],
                forall|j: int| 0 <= j < remaining.len() ==> (#[trigger] remaining@[j])@ == s[n - 1 - j],
            decreases old_entries.len(),
        {
            let e = old_entries.pop().unwrap();
            remaining.push(e);
        }
        proof {
            lemma_sorted_filter(s, p);
        }
        let mut i: usize = 0;
        while i < n
            invariant
                n == s.len(),
                i <= n,
                remaining.len() == n - i,
                forall|j: int| 0 <= j < remaining.len() ==> (#[trigger] remaining@[j])@ == s[n - 1 - j],
                entries_view(kept@) == s.take(i as int).filter(p),
                p == fresh_at(now),
                sorted(s),
            decreases n - i,
        {
            let e = remaining.pop().unwrap();
            assert(e@ == s[i as int]);
            let ghost before = kept@;
            let keep = now.saturating_sub(e.state.created) < RETENTION_NANOS;
            proof {
                reveal(Seq::filter);
                let t1 = s.take(i + 1);
                assert(t1.drop_last() =~= s.take(i as int));
                assert(t1.last() == s[i as int]);
                assert(e.state.created == s[i as int].state.created);
                assert(p(s[i as int]) == fresh(s[i as int], now));
                assert(keep == p(s[i as int]));
                if keep {
                    assert(t1.filter(p) == s.take(i as int).filter(p).push(s[i as int]));
                } else {
                    assert(t1.filter(p) == s.take(i as int).filter(p));
                }
            }
            if keep {
                kept.push(e);
                assert(entries_view(kept@) =~= entries_view(before).push(s[i as int]));
            } else {
                assert(entries_view(kept@) =~= entries_view(before));
            }
            i = i + 1;
        }
        assert(s.take(n as int) =~= s);
        proof {
            s.lemma_filter_len(p);
        }
        self.entries = kept;
    }

    /// How many records are tracked.
    pub fn len(&self) -> (result: usize)
        ensures
            result == self@.entries.len(),
    {
        self.entries.len()
    }

    /// Whether the action `key` is tracked and holds an outcome.
    pub fn has_outcome(&self, key: &ActionKey) -> (result: bool)
        requires
            self.wf(),
        ensures
            result == (has_key(self@.entries, *key) && self@.entries[index_of(
                self@.entries,
                *key,
            )].state.outcome is Some),
    {
        let (found, i) = self.locate(key);
        if found {
            assert(self.entries@[i as int]@ == self@.entries[i as int]);
            self.entries[i].state.outcome.is_some()
        } else {
            false
        }
    }

    fn locate(&self, k: &ActionKey) -> (result: (bool, usize))
        requires
            self.wf(),
        ensures
            result.0 == has_key(self@.entries, *k),
            result.0 ==> result.1 < self@.entries.len() && result.1 == index_of(self@.entries, *k),
            !result.0 ==> result.1 == insert_position(self@.entries, *k),
    {
        let ghost s = self@.entries;
        let mut i: usize = 0;
        while i < self.entries.len() && key_less(&self.entries[i].key, k)
            invariant
                s == self@.entries,
                i <= s.len(),
                forall|j: int| 0 <= j < i ==> key_lt(#[trigger] s[j].key, *k),
            decreases s.len() - i,
        {
            i = i + 1;
        }
        proof {
            lemma_insert_position(s, *k);
            let p = insert_position(s, *k);
            if i < p {
                assert(key_lt(s[i as int].key, *k));
            }
            if p < i {
                assert(key_lt(s[p].key, *k));
            }
            assert(i == p);
        }
        let found = i < self.entries.len() && self.entries[i].key == *k;
        proof {
            if found {
                lemma_index_of(s, i as int);
            } else if has_key(s, *k) {
                let m = choose|m: int| 0 <= m < s.len() && s[m].key == *k;
                lemma_key_order(*k, *k, *k);
                if m < i {
                    assert(key_lt(s[m].key, *k));
                } else if m > i {
                    assert(key_lt(s[i as int].key, s[m].key));
                }
            }
        }
        (found, i)
    }

    #[verifier::rlimit(40)]
    /// Tracks every action edge of a newly issued command. Expired records
    /// are forgotten first; a command that does not fit is refused whole.
    pub fn track(&mut self, owner: u64, command: &IssuedCommand, now: u64) -> (result: Result<
        (),
        OutcomeError,
    >)
        requires
            old(self).wf(),
        ensures
            final(self).wf(),
            final(self)@.instance == old(self)@.instance,
            final(self)@.last_lookup == old(self)@.last_lookup,
            ({
                let r = retained(old(self)@.entries, now);
                if r.len() + command.actions.len() > CAPACITY {
                    result == Err::<(), OutcomeError>(OutcomeError::Capacity) && final(self)@.entries == r
                } else {
                    result is Ok && final(self)@.entries == track_edges(
                        r,
                        owner,
                        command,
                        now,
                        command.actions.len() as int,
                    )
                }
            }),
    {
        self.retain_fresh(now);
        let ghost r = self@.entries;
        if self.entries.len().saturating_add(command.actions.len()) > CAPACITY {
            return Err(OutcomeError::Capacity);
        }
        for j in 0..command.actions.len()
            invariant
                self.wf(),
                self@.instance == old(self)@.instance,
                self@.last_lookup == old(self)@.last_lookup,
                r.len() + command.actions.len() <= CAPACITY,
                self@.entries.len() <= r.len() + j,
                self@.entries == track_edges(r, owner, command, now, j as int),
        {
            let edge = command.actions[j];
            let k = command.action_key(edge.slot);
            let ghost s = self@.entries;
            let (found, i) = self.locate(&k);
            if found {
                self.entries[i].state.observing = true;
                proof {
                    lemma_index_of(s, i as int);
                    assert(self@.entries =~= s.update(
                        i as int,
                        EntryView { key: k, state: TrackedView { observing: true, ..s[i as int].state } },
                    ));
                }
            } else {
                let record = Record {
                    owner,
                    target: command.target,
                    created: now,
                    looked_up: now,
                    outcome: None,
                    unavailable: false,
                    kind: edge.kind,
                    view: edge.view,
                    first_enqueued: None,
                    received: None,
                    checkpoint: None,
                    presented: None,
                    graphics_seen: None,
                    graphics_id: None,
                    observing: true,
                };
                let entry = Entry { key: k, state: record };
                proof {
                    lemma_insert_position(s, k);
                    lemma_sorted_insert(s, entry@);
                }
                self.entries.insert(i, entry);
                assert(self@.entries =~= s.insert(i as int, entry@));
            }
            assert(command.actions@[j as int] == edge);
            assert(self@.entries == track_edge(s, owner, command, edge, now));
        }
        Ok(())
    }

    /// Records one terminal outcome for a known action of `owner`.
    pub fn receive(&mut self, owner: u64, outcome: ActionOutcome, now: u64) -> (result: Result<
        (),
        OutcomeError,
    >)
        requires
            old(self).wf(),
        ensures
            final(self).wf(),
            final(self)@.instance == old(self)@.instance,
            final(self)@.last_lookup == old(self)@.last_lookup,
            result == receive_result(old(self)@.entries, owner, outcome@),
            final(self)@.entries == receive_entries(old(self)@.entries, owner, outcome@, now),
    {
        let ghost s = self@.entries;
        let ghost o = outcome@;
        let (found, i) = self.locate(&outcome.key);
        if !found {
            return Ok(());
        }
        proof {
            lemma_index_of(s, i as int);
        }
        if self.entries[i].state.owner != owner {
            return Err(OutcomeError::OwnerMismatch);
        }
        let conflict = match &self.entries[i].state.outcome {
            Some(previous) => !previous.same(&outcome),
            None => false,
        };
        if conflict {
            return Err(OutcomeError::ConflictingOutcome);
        }
        if self.entries[i].state.outcome.is_none() {
            self.entries[i].state.outcome = Some(outcome);
            self.entries[i].state.received = Some(now);
            proof {
                let e = EntryView {
                    key: o.key,
                    state: TrackedView { outcome: Some(o), received: Some(now), ..s[i as int].state },
                };
                assert(self@.entries =~= s.update(i as int, e));
                lemma_same_keys_sorted(s, self@.entries);
            }
        }
        Ok(())
    }

    /// Records a batch of outcomes atomically: either every record is
    /// consistent with what is known and with the rest of the batch, or
    /// nothing changes.
    pub fn receive_batch(&mut self, owner: u64, records: &Vec<ActionOutcome>, now: u64) -> (result:
        Result<(), OutcomeError>)
        requires
            old(self).wf(),
        ensures
            final(self).wf(),
            final(self)@.instance == old(self)@.instance,
            final(self)@.last_lookup == old(self)@.last_lookup,
            ({
                let recs = outcome_views(records@);
                match batch_check(old(self)@.entries, owner, recs, recs.len() as int) {
                    Some(e) => result == Err::<(), OutcomeError>(e) && final(self)@ == old(self)@,
                    None => result is Ok && final(self)@.entries == receive_all(
                        old(self)@.entries,
                        owner,
                        recs,
                        now,
                        recs.len() as int,
                    ),
                }
            }),
    {
        let ghost s = self@.entries;
        let ghost recs = outcome_views(records@);
        for i in 0..records.len()
            invariant
                self.wf(),
                self@ == old(self)@,
                s == old(self)@.entries,
                recs == outcome_views(records@),
                batch_check(s, owner, recs, i as int) is None,
        {
            let outcome = &records[i];
            assert(recs[i as int] == outcome@);
            let (found, idx) = self.locate(&outcome.key);
            if found {
                proof {
                    lemma_index_of(s, idx as int);
                }
                let conflict = self.entries[idx].state.owner != owner || match &self.entries[idx].state.outcome {
                    Some(previous) => !previous.same(outcome),
                    None => false,
                };
                if conflict {
                    proof {
                        assert(existing_conflict(s, owner, recs[i as int]));
                        lemma_batch_check_extends(s, owner, recs, i + 1, recs.len() as int);
                    }
                    return Err(OutcomeError::ConflictingOutcome);
                }
            }
            assert(!existing_conflict(s, owner, recs[i as int]));
            let mut j: usize = 0;
            while j < i
                invariant
                    j <= i,
                    i < records.len(),
                    self.wf(),
                    self@ == old(self)@,
                    s == old(self)@.entries,
                    recs == outcome_views(records@),
                    batch_check(s, owner, recs, i as int) is None,
                    !existing_conflict(s, owner, recs[i as int]),
                    outcome@ == recs[i as int],
                    forall|m: int| 0 <= m < j ==> !(recs[m].key == recs[i as int].key && recs[m] != recs[i as int]),
                decreases i - j,
            {
                let previous = &records[j];
                assert(recs[j as int] == previous@);
                if previous.key == outcome.key && !previous.same(outcome) {
                    proof {
                        assert(recs[j as int].key == recs[i as int].key && recs[j as int] != recs[i as int]);
                        assert(batch_error_at(s, owner, recs, i as int) == Some(OutcomeError::ConflictingBatch));
                        lemma_batch_check_extends(s, owner, recs, i + 1, recs.len() as int);
                    }
                    return Err(OutcomeError::ConflictingBatch);
                }
                j = j + 1;
            }
            assert(batch_error_at(s, owner, recs, i as int) is None);
        }
        for i in 0..records.len()
            invariant
                self.wf(),
                self@.instance == old(self)@.instance,
                self@.last_lookup == old(self)@.last_lookup,
                recs == outcome_views(records@),
                batch_check(s, owner, recs, recs.len() as int) is None,
                self@.entries == receive_all(s, owner, recs, now, i as int),
        {
            let outcome = records[i].duplicate();
            assert(recs[i as int] == outcome@);
            let _ = self.receive(owner, outcome, now);
        }
        Ok(())
    }

    /// Marks the owner's named records as unknown to the server's lookup
    /// window; this never becomes a gameplay rejection.
    pub fn unavailable(&mut self, owner: u64, keys: &Vec<ActionKey>)
        requires
            old(self).wf(),
        ensures
            final(self).wf(),
            final(self)@.instance == old(self)@.instance,
            final(self)@.last_lookup == old(self)@.last_lookup,
            final(self)@.entries == mark_unavailable(old(self)@.entries, owner, keys@),
    {
        let ghost s = self@.entries;
        for j in 0..keys.len()
            invariant
                self.wf(),
                self@.instance == old(self)@.instance,
                self@.last_lookup == old(self)@.last_lookup,
                self@.entries == mark_unavailable(s, owner, keys@.take(j as int)),
        {
            let key = keys[j];
            let ghost before = self@.entries;
            let (found, i) = self.locate(&key);
            if found && self.entries[i].state.owner == owner {
                self.entries[i].state.unavailable = true;
                proof {
                    lemma_same_keys_sorted(before, self@.entries);
                }
            }
            proof {
                let ks = keys@.take(j + 1);
                assert(keys@.take(j as int).push(key) =~= ks);
                assert forall|m: int| 0 <= m < s.len() implies ks.contains(#[trigger] s[m].key) == (
                keys@.take(j as int).contains(s[m].key) || s[m].key == key) by {
                    if ks.contains(s[m].key) && s[m].key != key {
                        let w = choose|w: int| 0 <= w < ks.len() && ks[w] == s[m].key;
                        assert(keys@.take(j as int)[w] == s[m].key);
                    }
                    if keys@.take(j as int).contains(s[m].key) {
                        let w = choose|w: int| 0 <= w < j && keys@.take(j as int)[w] == s[m].key;
                        assert(ks[w] == s[m].key);
                    }
                    if s[m].key == key {
                        assert(ks[j as int] == key);
                    }
                }
                if found {
                    lemma_index_of(before, i as int);
                }
                assert forall|m: int| 0 <= m < s.len() implies #[trigger] self@.entries[m] == mark_unavailable(s, owner, ks)[m] by {
                    if found && m == i {
                    } else {
                        if before[m].key == key {
                            lemma_index_of(before, m);
                        }
                    }
                }
                assert(self@.entries =~= mark_unavailable(s, owner, ks));
            }
        }
        assert(keys@.take(keys.len() as int) =~= keys@);
    }

    /// Notes the first enqueue time of each named record.
    pub fn enqueued(&mut self, keys: &Vec<ActionKey>, now: u64)
        requires
            old(self).wf(),
        ensures
            final(self).wf(),
            final(self)@.instance == old(self)@.instance,
            final(self)@.last_lookup == old(self)@.last_lookup,
            final(self)@.entries == mark_enqueued(old(self)@.entries, keys@, now),
    {
        let ghost s = self@.entries;
        for j in 0..keys.len()
            invariant
                self.wf(),
                self@.instance == old(self)@.instance,
                self@.last_lookup == old(self)@.last_lookup,
                self@.entries == mark_enqueued(s, keys@.take(j as int), now),
        {
            let key = keys[j];
            let ghost before = self@.entries;
            let (found, i) = self.locate(&key);
            if found && self.entries[i].state.first_enqueued.is_none() {
                self.entries[i].state.first_enqueued = Some(now);
                proof {
                    lemma_same_keys_sorted(before, self@.entries);
                }
            }
            proof {
                let ks = keys@.take(j + 1);
                assert(keys@.take(j as int).push(key) =~= ks);
                assert forall|m: int| 0 <= m < s.len() implies ks.contains(#[trigger] s[m].key) == (
                keys@.take(j as int).contains(s[m].key) || s[m].key == key) by {
                    if ks.contains(s[m].key) && s[m].key != key {
                        let w = choose|w: int| 0 <= w < ks.len() && ks[w] == s[m].key;
                        assert(keys@.take(j as int)[w] == s[m].key);
                    }
                    if keys@.take(j as int).contains(s[m].key) {
                        let w = choose|w: int| 0 <= w < j && keys@.take(j as int)[w] == s[m].key;
                        assert(ks[w] == s[m].key);
                    }
                    if s[m].key == key {
                        assert(ks[j as int] == key);
                    }
                }
                if found {
                    lemma_index_of(before, i as int);
                }
                assert forall|m: int| 0 <= m < s.len() implies #[trigger] self@.entries[m] == mark_enqueued(s, ks, now)[m] by {
                    if found && m == i {
                    } else {
                        if before[m].key == key {
                            lemma_index_of(before, m);
                        }
                    }
                }
                assert(self@.entries =~= mark_enqueued(s, ks, now));
            }
        }
        assert(keys@.take(keys.len() as int) =~= keys@);
    }

    /// Notes the first time the owner's action was seen as graphics.
    pub fn graphics_seen(&mut self, owner: u64, key: ActionKey, graphics_id: u64, tick: u64, now: u64)
        requires
            old(self).wf(),
        ensures
            final(self).wf(),
            final(self)@.instance == old(self)@.instance,
            final(self)@.last_lookup == old(self)@.last_lookup,
            final(self)@.entries == mark_graphics(old(self)@.entries, owner, key, graphics_id, tick, now),
    {
        let ghost s = self@.entries;
        let (found, i) = self.locate(&key);
        if found && self.entries[i].state.owner == owner {
            proof {
                lemma_index_of(s, i as int);
            }
            if self.entries[i].state.graphics_seen.is_none() {
                self.entries[i].state.graphics_seen = Some(TraceObservation { tick, at: now });
            }
            if self.entries[i].state.graphics_id.is_none() {
                self.entries[i].state.graphics_id = Some(graphics_id);
            }
            proof {
                assert(self@.entries =~= mark_graphics(s, owner, key, graphics_id, tick, now));
                lemma_same_keys_sorted(s, self@.entries);
            }
        }
    }

    /// Notes which records an owner checkpoint (`presented` false) or a
    /// presented timeline (`presented` true) at `tick` covers. A timeline
    /// observation is never evidence that graphics appeared.
    pub fn observe(&mut self, owner: u64, connection: u64, tick: u64, now: u64, presented: bool)
        requires
            old(self).wf(),
        ensures
            final(self).wf(),
            final(self)@.instance == old(self)@.instance,
            final(self)@.last_lookup == old(self)@.last_lookup,
            final(self)@.entries == old(self)@.entries.map_values(
                |e: EntryView| observe_entry(e, owner, connection, tick, now, presented),
            ),
    {
        let ghost s = self@.entries;
        let n = self.entries.len();
        let mut i: usize = 0;
        while i < n
            invariant
                n == s.len(),
                self.entries@.len() == n,
                i <= n,
                self@.instance == old(self)@.instance,
                self@.last_lookup == old(self)@.last_lookup,
                self.entries.len() <= CAPACITY,
                self@.entries.len() == s.len(),
                sorted(s),
                forall|m: int| 0 <= m < i ==> #[trigger] self@.entries[m] == observe_entry(s[m], owner, connection, tick, now, presented),
                forall|m: int| i <= m < s.len() ==> #[trigger] self@.entries[m] == s[m],
            decreases n - i,
        {
            let ghost before = self@.entries;
            assert(before[i as int] == s[i as int]);
            assert(self.entries@[i as int]@ == s[i as int]);
            if self.entries[i].state.observing {
                let covers = self.entries[i].state.owner == owner && self.entries[i].key.connection
                    == connection && self.entries[i].state.target <= tick;
                if covers {
                    if presented {
                        if self.entries[i].state.presented.is_none() {
                            self.entries[i].state.presented = Some(TraceObservation { tick, at: now });
                        }
                    } else {
                        if self.entries[i].state.checkpoint.is_none() {
                            self.entries[i].state.checkpoint = Some(TraceObservation { tick, at: now });
                        }
                    }
                }
                let waiting = self.entries[i].state.checkpoint.is_none()
                    || self.entries[i].state.presented.is_none();
                self.entries[i].state.observing = waiting;
            }
            assert(self.entries@[i as int]@ == observe_entry(s[i as int], owner, connection, tick, now, presented));
            assert(self@.entries =~= before.update(i as int, observe_entry(s[i as int], owner, connection, tick, now, presented)));
            i = i + 1;
        }
        proof {
            let target = s.map_values(|e: EntryView| observe_entry(e, owner, connection, tick, now, presented));
            assert(self@.entries =~= target);
            lemma_same_keys_sorted(s, self@.entries);
        }
    }

    /// Chooses the owner's records to ask the server about, at most every
    /// 250 ms and at most eight at once. Expired records are forgotten first.
    pub fn lookup(&mut self, owner: u64, connection: u64, finalized: u64, now: u64) -> (result:
        Option<Vec<ActionKey>>)
        requires
            old(self).wf(),
        ensures
            final(self).wf(),
            final(self)@.instance == old(self)@.instance,
            ({
                let r = retained(old(self)@.entries, now);
                let p = eligible_at(owner, connection, finalized, now);
                if sat_sub(now, old(self)@.last_lookup) < LOOKUP_INTERVAL_NANOS {
                    &&& result is None
                    &&& final(self)@.entries == r
                    &&& final(self)@.last_lookup == old(self)@.last_lookup
                } else {
                    &&& final(self)@.entries == lookup_entries(r, p, now)
                    &&& lookup_keys(r, p).len() == 0 ==> result is None && final(self)@.last_lookup == old(self)@.last_lookup
                    &&& lookup_keys(r, p).len() > 0 ==> (result matches Some(keys) && keys@ == lookup_keys(r, p) && final(self)@.last_lookup == now)
                }
            }),
            ({
                let r = retained(old(self)@.entries, now);
                forall|i: int|
                    0 <= i < r.len() && sat_sub(now, old(self)@.last_lookup) >= LOOKUP_INTERVAL_NANOS
                        && (#[trigger] r[i]).state.owner == owner && r[i].state.outcome is None
                        && !r[i].state.unavailable && r[i].state.target <= finalized && sat_sub(
                        now,
                        r[i].state.looked_up,
                    ) >= LOOKUP_REPEAT_NANOS && r.take(i).filter(
                        eligible_at(owner, connection, finalized, now),
                    ).len() < LOOKUP_BATCH ==> (result matches Some(keys) && keys@.contains(r[i].key))
            }),
    {
        self.retain_fresh(now);
        if now.saturating_sub(self.last_lookup) < LOOKUP_INTERVAL_NANOS {
            return None;
        }
        let ghost r = self@.entries;
        let ghost p = eligible_at(owner, connection, finalized, now);
        let mut keys: Vec<ActionKey> = Vec::new();
        let n = self.entries.len();
        let mut i: usize = 0;
        while i < n
            invariant
                n == r.len(),
                self.entries@.len() == n,
                i <= n,
                p == eligible_at(owner, connection, finalized, now),
                self@.instance == old(self)@.instance,
                self@.last_lookup == old(self)@.last_lookup,
                self.entries.len() <= CAPACITY,
                self@.entries.len() == r.len(),
                sorted(r),
                keys@.len() <= LOOKUP_BATCH,
                keys@.len() == (if r.take(i as int).filter(p).len() < LOOKUP_BATCH { r.take(i as int).filter(p).len() } else { LOOKUP_BATCH as nat }),
                keys@ == r.take(i as int).filter(p).take(keys@.len() as int).map_values(key_of_entry()),
                forall|m: int| 0 <= m < i ==> #[trigger] self@.entries[m] == lookup_entries(r, p, now)[m],
                forall|m: int| i <= m < r.len() ==> #[trigger] self@.entries[m] == r[m],
            decreases n - i,
        {
            let ghost before = self@.entries;
            let ghost f = r.take(i as int).filter(p);
            let ghost e = r[i as int];
            assert(before[i as int] == r[i as int]);
            assert(self.entries@[i as int]@ == e);
            let eligible = self.entries[i].state.owner == owner && self.entries[i].state.outcome.is_none()
                && !self.entries[i].state.unavailable && (self.entries[i].key.connection != connection
                || self.entries[i].state.target <= finalized) && now.saturating_sub(
                self.entries[i].state.looked_up,
            ) >= LOOKUP_REPEAT_NANOS;
            proof {
                reveal(Seq::filter);
                let t1 = r.take(i + 1);
                assert(t1.drop_last() =~= r.take(i as int));
                assert(t1.last() == e);
                assert(eligible == p(e));
                if eligible {
                    assert(t1.filter(p) == f.push(e));
                } else {
                    assert(t1.filter(p) == f);
                }
            }
            if eligible && keys.len() < LOOKUP_BATCH {
                self.entries[i].state.looked_up = now;
                keys.push(self.entries[i].key);
                proof {
                    assert(keys@ =~= f.push(e).take(keys@.len() as int).map_values(key_of_entry()));
                }
            } else if eligible {
                assert(f.push(e).take(keys@.len() as int) =~= f.take(keys@.len() as int));
            }
            assert(self@.entries =~= before.update(i as int, lookup_entries(r, p, now)[i as int]));
            i = i + 1;
        }
        proof {
            assert(r.take(r.len() as int) =~= r);
            assert(self@.entries =~= lookup_entries(r, p, now));
            lemma_same_keys_sorted(r, self@.entries);
            r.lemma_filter_len(p);
            assert forall|i: int|
                0 <= i < r.len() && (#[trigger] r[i]).state.owner == owner && r[i].state.outcome is None
                    && !r[i].state.unavailable && r[i].state.target <= finalized && sat_sub(
                    now,
                    r[i].state.looked_up,
                ) >= LOOKUP_REPEAT_NANOS && r.take(i).filter(p).len() < LOOKUP_BATCH implies keys@.contains(
                r[i].key,
            ) by {
                law_finalized_records_are_looked_up(r, owner, connection, finalized, now, i);
            }
        }
        if keys.len() == 0 {
            return None;
        }
        self.last_lookup = now;
        Some(keys)
    }

    fn trace_entry(&self, i: usize) -> (result: ClientActionTrace)
        requires
            i < self.entries.len(),
        ensures
            result@ == trace_of(self@.instance, self@.entries[i as int]),
    {
        let e = &self.entries[i];
        assert(self@.entries[i as int] == e@);
        let outcome = match &e.state.outcome {
            Some(o) => Some(o.duplicate()),
            None => None,
        };
        ClientActionTrace {
            server_instance: match self.server_instance {
                Some(v) => v,
                None => 0,
            },
            owner: e.state.owner,
            key: e.key,
            kind: e.state.kind,
            view: e.state.view,
            target_c: e.state.target,
            created_at: e.state.created,
            first_enqueued_at: e.state.first_enqueued,
            outcome,
            outcome_received_at: e.state.received,
            checkpoint: e.state.checkpoint,
            presented_timeline: e.state.presented,
            graphics_seen: e.state.graphics_seen,
            graphics_id: e.state.graphics_id,
            lookup_unavailable: e.state.unavailable,
        }
    }

    /// The owner's records, greatest key first, at most `limit` and at most
    /// 128 of them.
    pub fn trace(&self, owner: u64, limit: usize) -> (result: Vec<ClientActionTrace>)
        requires
            self.wf(),
        ensures
            ({
                let d = owner_desc(self@.entries, owner);
                let cap = if limit < TRACE_LIMIT { limit as int } else { TRACE_LIMIT as int };
                let n = if d.len() < cap { d.len() as int } else { cap };
                trace_views(result@) == d.take(n).map_values(trace_at(self@.instance))
            }),
    {
        let cap = if limit < TRACE_LIMIT { limit } else { TRACE_LIMIT };
        let ghost s = self@.entries;
        let ghost rev = s.reverse();
        let ghost own = owned_by(owner);
        let ghost f = trace_at(self@.instance);
        let n = self.entries.len();
        assert(n == s.len());
        let mut result: Vec<ClientActionTrace> = Vec::new();
        let mut k: usize = 0;
        while k < n
            invariant
                n == s.len(),
                s == self@.entries,
                rev == s.reverse(),
                own == owned_by(owner),
                f == trace_at(self@.instance),
                self.entries@.len() == n,
                k <= n,
                result@.len() == (if rev.take(k as int).filter(own).len() < cap { rev.take(k as int).filter(own).len() as int } else { cap as int }),
                trace_views(result@) == rev.take(k as int).filter(own).take(result@.len() as int).map_values(f),
            decreases n - k,
        {
            let i = n - 1 - k;
            let ghost g = rev.take(k as int).filter(own);
            let ghost e = rev[k as int];
            assert(e == s[i as int]);
            assert(self.entries@[i as int]@ == e);
            let mine = self.entries[i].state.owner == owner;
            proof {
                reveal(Seq::filter);
                let t1 = rev.take(k + 1);
                assert(t1.drop_last() =~= rev.take(k as int));
                assert(t1.last() == e);
                assert(mine == own(e));
                if mine {
                    assert(t1.filter(own) == g.push(e));
                } else {
                    assert(t1.filter(own) == g);
                }
            }
            if mine && result.len() < cap {
                let entry = self.trace_entry(i);
                let ghost before = result@;
                result.push(entry);
                proof {
                    assert(trace_views(result@) =~= trace_views(before).push(f(e)));
                    assert(trace_views(result@) =~= g.push(e).take(result@.len() as int).map_values(f));
                }
            } else if mine {
                assert(g.push(e).take(result@.len() as int) =~= g.take(result@.len() as int));
            }
            k = k + 1;
        }
        proof {
            assert(rev.take(n as int) =~= rev);
            rev.lemma_filter_len(own);
        }
        result
    }

    /// The owner's record with the greatest key, if any.
    pub fn latest_trace(&self, owner: u64) -> (result: Option<ClientActionTrace>)
        requires
            self.wf(),
        ensures
            ({
                let d = owner_desc(self@.entries, owner);
                if d.len() == 0 {
                    result is None
                } else {
                    result matches Some(t) && t@ == trace_of(self@.instance, d[0])
                }
            }),
    {
        let mut traces = self.trace(owner, 1);
        let ghost d = owner_desc(self@.entries, owner);
        let ghost n = if d.len() < 1 { d.len() as int } else { 1 };
        assert(trace_views(traces@).len() == traces@.len());
        assert(trace_views(traces@) == d.take(n).map_values(trace_at(self@.instance)));
        assert(traces@.len() == n);
        proof {
            if d.len() > 0 {
                assert(trace_views(traces@)[0] == traces@[0]@);
                assert(d.take(n).map_values(trace_at(self@.instance))[0] == trace_of(self@.instance, d[0]));
            }
        }
        traces.pop()
    }

    /// The owner's outcome with the greatest sequence; among equal sequences,
    /// the one with the greatest key.
    pub fn latest(&self, owner: u64) -> (result: Option<ActionOutcome>)
        requires
            self.wf(),
        ensures
            (exists|i: int| is_latest(self@.entries, owner, i)) <==> (exists|i: int|
                0 <= i < self@.entries.len() && self@.entries[i].state.owner == owner
                    && self@.entries[i].state.outcome is Some),
            result is None <==> !(exists|i: int| is_latest(self@.entries, owner, i)),
            result matches Some(o) ==> exists|i: int|
                is_latest(self@.entries, owner, i) && self@.entries[i].state.outcome == Some(o@),
    {
        let ghost s = self@.entries;
        let n = self.entries.len();
        assert(n == s.len());
        let mut best: Option<usize> = None;
        let mut i: usize = 0;
        while i < n
            invariant
                n == s.len(),
                s == self@.entries,
                self.entries@.len() == n,
                i <= n,
                best is None ==> forall|j: int| 0 <= j < i ==> !(s[j].state.owner == owner && s[j].state.outcome is Some),
                best matches Some(b) ==> {
                    &&& b < i
                    &&& s[b as int].state.owner == owner
                    &&& s[b as int].state.outcome is Some
                    &&& forall|j: int| 0 <= j < b && s[j].state.owner == owner && s[j].state.outcome is Some ==> (#[trigger] s[j].state.outcome->0.sequence) <= s[b as int].state.outcome->0.sequence
                    &&& forall|j: int| b < j < i && s[j].state.owner == owner && s[j].state.outcome is Some ==> (#[trigger] s[j].state.outcome->0.sequence) < s[b as int].state.outcome->0.sequence
                },
            decreases n - i,
        {
            assert(self.entries@[i as int]@ == s[i as int]);
            if self.entries[i].state.owner == owner {
                if let Some(o) = &self.entries[i].state.outcome {
                    let better = match best {
                        Some(b) => match &self.entries[b].state.outcome {
                            Some(c) => {
                                assert(self.entries@[b as int]@ == s[b as int]);
                                o.sequence >= c.sequence
                            },
                            None => true,
                        },
                        None => true,
                    };
                    if better {
                        best = Some(i);
                    }
                }
            }
            i = i + 1;
        }
        match best {
            Some(b) => {
                assert(self.entries@[b as int]@ == s[b as int]);
                assert(is_latest(s, owner, b as int));
                match &self.entries[b].state.outcome {
                    Some(o) => Some(o.duplicate()),
                    None => None,
                }
            },
            None => {
                proof {
                    if exists|i: int| is_latest(s, owner, i) {
                        let w = choose|i: int| is_latest(s, owner, i);
                        assert(!(s[w].state.owner == owner && s[w].state.outcome is Some));
                    }
                }
                None
            },
        }
    }
}


// ---------------------------------------------------------------- laws

/// Receiving the same outcome twice is the same as receiving it once, and the
/// repeat is accepted.
pub proof fn law_receive_idempotent(s: Seq<EntryView>, owner: u64, o: OutcomeView, now: u64, later: u64)
    requires
        sorted(s),
        receive_result(s, owner, o) is Ok,
    ensures
        receive_result(receive_entries(s, owner, o, now), owner, o) is Ok,
        receive_entries(receive_entries(s, owner, o, now), owner, o, later) == receive_entries(
            s,
            owner,
            o,
            now,
        ),
{
    let t = receive_entries(s, owner, o, now);
    if has_key(s, o.key) {
        let i = index_of(s, o.key);
        lemma_index_of(s, i);
        assert(t[i].key == o.key);
        lemma_same_keys_sorted(s, t);
        lemma_index_of(t, i);
    } else {
        assert(t == s);
    }
}

/// Once an action holds an outcome, a different outcome for it is refused
/// and changes nothing.
pub proof fn law_conflicting_outcome_refused(
    s: Seq<EntryView>,
    owner: u64,
    first: OutcomeView,
    second: OutcomeView,
    now: u64,
    later: u64,
)
    requires
        sorted(s),
        receive_result(s, owner, first) is Ok,
        has_key(s, first.key),
        second.key == first.key,
        second != first,
    ensures
        ({
            let t = receive_entries(s, owner, first, now);
            &&& receive_result(t, owner, second) == Err::<(), OutcomeError>(OutcomeError::ConflictingOutcome)
            &&& receive_entries(t, owner, second, later) == t
        }),
{
    let t = receive_entries(s, owner, first, now);
    let i = index_of(s, first.key);
    lemma_index_of(s, i);
    lemma_same_keys_sorted(s, t);
    assert(t[i].key == first.key);
    lemma_index_of(t, i);
}

/// What a prefix keeps is a prefix of what the whole sequence keeps.
proof fn lemma_filter_take_prefix(s: Seq<EntryView>, p: spec_fn(EntryView) -> bool, i: int)
    requires
        0 <= i <= s.len(),
    ensures
        s.take(i).filter(p).len() <= s.filter(p).len(),
        s.filter(p).take(s.take(i).filter(p).len() as int) == s.take(i).filter(p),
    decreases s.len(),
{
    reveal(Seq::filter);
    let a = s.take(i).filter(p);
    let b = s.filter(p);
    if i == s.len() {
        assert(s.take(i) =~= s);
        assert(b.take(b.len() as int) =~= b);
    } else {
        assert(s.take(i) =~= s.drop_last().take(i));
        lemma_filter_take_prefix(s.drop_last(), p, i);
        let r = s.drop_last().filter(p);
        if p(s.last()) {
            assert(b.take(a.len() as int) =~= r.take(a.len() as int));
        }
    }
}

/// A finalized record is looked up whatever connection it was issued on: a
/// record of the owner with no outcome, not known to be unavailable, not
/// asked about within the last second and targeting a finalized tick is
/// named by the lookup when fewer than eight eligible records precede it.
pub proof fn law_finalized_records_are_looked_up(
    s: Seq<EntryView>,
    owner: u64,
    connection: u64,
    finalized: u64,
    now: u64,
    i: int,
)
    requires
        0 <= i < s.len(),
        s[i].state.owner == owner,
        s[i].state.outcome is None,
        !s[i].state.unavailable,
        s[i].state.target <= finalized,
        sat_sub(now, s[i].state.looked_up) >= LOOKUP_REPEAT_NANOS,
        s.take(i).filter(eligible_at(owner, connection, finalized, now)).len() < LOOKUP_BATCH,
    ensures
        lookup_keys(s, eligible_at(owner, connection, finalized, now)).contains(s[i].key),
{
    let p = eligible_at(owner, connection, finalized, now);
    reveal(Seq::filter);
    let before = s.take(i).filter(p);
    let t = s.take(i + 1);
    assert(t.drop_last() =~= s.take(i));
    assert(t.last() == s[i]);
    assert(p(s[i]));
    assert(t.filter(p) == before.push(s[i]));
    lemma_filter_take_prefix(s, p, i + 1);
    let f = s.filter(p);
    let j = before.len() as int;
    assert(f[j] == t.filter(p)[j]);
    let keys = lookup_keys(s, p);
    assert(keys[j] == s[i].key);
}

/// A lookup names only the owner's records that have no outcome and are not
/// known to be unavailable, at most eight, in increasing key order.
pub proof fn law_lookup_names_pending_owner_records(
    s: Seq<EntryView>,
    owner: u64,
    connection: u64,
    finalized: u64,
    now: u64,
)
    requires
        sorted(s),
    ensures
        ({
            let keys = lookup_keys(s, eligible_at(owner, connection, finalized, now));
            &&& keys.len() <= LOOKUP_BATCH
            &&& forall|i: int|
                0 <= i < keys.len() ==> {
                    let k = #[trigger] keys[i];
                    &&& has_key(s, k)
                    &&& s[index_of(s, k)].state.owner == owner
                    &&& s[index_of(s, k)].state.outcome is None
                    &&& !s[index_of(s, k)].state.unavailable
                    &&& (k.connection != connection || s[index_of(s, k)].state.target <= finalized)
                    &&& sat_sub(now, s[index_of(s, k)].state.looked_up) >= LOOKUP_REPEAT_NANOS
                }
            &&& forall|i: int, j: int| 0 <= i < j < keys.len() ==> key_lt(#[trigger] keys[i], #[trigger] keys[j])
        }),
{
    let p = eligible_at(owner, connection, finalized, now);
    let f = s.filter(p);
    lemma_sorted_filter(s, p);
    s.lemma_filter_len(p);
    let keys = lookup_keys(s, p);
    assert(keys.len() <= LOOKUP_BATCH);
    assert forall|i: int| 0 <= i < keys.len() implies {
        let k = #[trigger] keys[i];
        &&& has_key(s, k)
        &&& s[index_of(s, k)].state.owner == owner
        &&& s[index_of(s, k)].state.outcome is None
        &&& !s[index_of(s, k)].state.unavailable
        &&& (k.connection != connection || s[index_of(s, k)].state.target <= finalized)
        &&& sat_sub(now, s[index_of(s, k)].state.looked_up) >= LOOKUP_REPEAT_NANOS
    } by {
        assert(keys[i] == f[i].key);
        s.lemma_filter_pred(p, i);
        assert(f.contains(f[i]));
        let j = choose|j: int| 0 <= j < s.len() && s[j] == f[i];
        assert(s[j].key == keys[i]);
        lemma_index_of(s, j);
    }
    assert forall|i: int, j: int| 0 <= i < j < keys.len() implies key_lt(#[trigger] keys[i], #[trigger] keys[j]) by {
        assert(keys[i] == f[i].key);
        assert(keys[j] == f[j].key);
    }
}

/// Expiry and unavailability never create an outcome: marking records
/// unavailable leaves every outcome as it was.
pub proof fn law_unavailable_keeps_outcomes(s: Seq<EntryView>, owner: u64, keys: Seq<ActionKey>)
    ensures
        mark_unavailable(s, owner, keys).len() == s.len(),
        forall|i: int|
            0 <= i < s.len() ==> (#[trigger] mark_unavailable(s, owner, keys)[i]).state.outcome
                == s[i].state.outcome,
{
}

/// After retention, every record is younger than thirty seconds.
pub proof fn law_retained_records_are_fresh(s: Seq<EntryView>, now: u64)
    ensures
        forall|i: int|
            0 <= i < retained(s, now).len() ==> sat_sub(now, (#[trigger] retained(s, now)[i]).state.created)
                < RETENTION_NANOS,
{
    assert forall|i: int| 0 <= i < retained(s, now).len() implies sat_sub(
        now,
        (#[trigger] retained(s, now)[i]).state.created,
    ) < RETENTION_NANOS by {
        s.lemma_filter_pred(fresh_at(now), i);
    }
}

/// A timeline or checkpoint observation is never evidence of graphics: it
/// changes no graphics observation, outcome or key.
pub proof fn law_observation_is_not_graphics(
    s: Seq<EntryView>,
    owner: u64,
    connection: u64,
    tick: u64,
    now: u64,
    presented: bool,
)
    ensures
        forall|i: int|
            0 <= i < s.len() ==> {
                let e = #[trigger] observe_entry(s[i], owner, connection, tick, now, presented);
                &&& e.key == s[i].key
                &&& e.state.graphics_seen == s[i].state.graphics_seen
                &&& e.state.graphics_id == s[i].state.graphics_id
                &&& e.state.outcome == s[i].state.outcome
            },
{
}

} // verus!
