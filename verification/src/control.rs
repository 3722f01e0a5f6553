//! Decisions on the reliable control lane: finalization, acknowledgements,
//! welcomes, owner baseline resets, menu actions and paced requests.
use vstd::prelude::*;
use crate::ids::{EntityId, GroupRevision};
use crate::arrival::{
    accept_spec, feedback_refused, ArrivalBook, ArrivalFeedback, ArrivalView, FeedbackError, FeedbackVerdict,
};
use crate::commands::{retain_unfinalized, unfinalized_spec, PendingCommand};

verus! {

/// Resynchronization requests are sent at most once a second.
pub const RESYNC_INTERVAL_NANOS: u64 = 1_000_000_000;
/// Clock probes are sent every 250 ms.
pub const PROBE_INTERVAL_NANOS: u64 = 250_000_000;

/// A finalization publication skipped committed ticks.
#[derive(Clone, Copy, Debug, PartialEq, Eq, Structural)]
pub enum FinalizeError {
    ReceiptGap,
}

impl FinalizeError {
    pub fn message(&self) -> (result: &'static str)
        ensures
            result@ == match *self {
                FinalizeError::ReceiptGap => "Finalization receipt gap"@,
            },
    {
        "Finalization receipt gap"
    }
}

/// What finalization tracks on the control lane.
#[derive(Clone, Copy, Debug, PartialEq, Eq, Structural)]
pub struct Finalization {
    /// Every command target through this tick is finalized.
    pub finalized: u64,
    /// The greatest finalized tick not yet acknowledged.
    pub ack_pending: Option<u64>,
    /// The menu action sent and not yet applied.
    pub in_flight_action: Option<u64>,
}

/// A publication that advances finalization must start its receipts right
/// after the finalized tick.
pub open spec fn receipt_gap(finalized: u64, through: u64, first_receipt: Option<u64>) -> bool {
    through > finalized && match first_receipt {
        None => true,
        Some(tick) => tick > finalized + 1,
    }
}

/// `a` or `b`, whichever is greater; an empty `a` gives `b`.
pub open spec fn max_pending(a: Option<u64>, b: u64) -> Option<u64> {
    match a {
        Some(x) => Some(if x >= b { x } else { b }),
        None => Some(b),
    }
}

impl Finalization {
    /// Checks a finalization publication through `through` whose first
    /// receipt covers `first_receipt`, and advances the finalized tick.
    /// Returns whether it advanced: only then may its arrival feedback tune
    /// the command lead, so that a duplicate or older publication never
    /// tunes it twice.
    pub fn advance(&mut self, through: u64, first_receipt: Option<u64>) -> (result: Result<
        bool,
        FinalizeError,
    >)
        ensures
            receipt_gap(old(self).finalized, through, first_receipt) ==> {
                &&& result == Err::<bool, FinalizeError>(FinalizeError::ReceiptGap)
                &&& *final(self) == *old(self)
            },
            !receipt_gap(old(self).finalized, through, first_receipt) ==> {
                &&& result == Ok::<bool, FinalizeError>(through > old(self).finalized)
                &&& final(self).finalized == if through > old(self).finalized {
                    through
                } else {
                    old(self).finalized
                }
                &&& final(self).ack_pending == old(self).ack_pending
                &&& final(self).in_flight_action == old(self).in_flight_action
            },
    {
        if through > self.finalized {
            let gap = match first_receipt {
                None => true,
                Some(tick) => tick > self.finalized.saturating_add(1),
            };
            if gap {
                return Err(FinalizeError::ReceiptGap);
            }
            self.finalized = through;
            return Ok(true);
        }
        Ok(false)
    }

    /// Completes a finalization publication: a menu action the server
    /// applied leaves flight, and the greatest finalized tick awaits
    /// acknowledgement.
    pub fn complete(&mut self, through: u64, menu_applied: Option<u64>)
        ensures
            final(self).finalized == old(self).finalized,
            final(self).ack_pending == max_pending(old(self).ack_pending, through),
            final(self).in_flight_action == match (old(self).in_flight_action, menu_applied) {
                (Some(s), Some(applied)) => if s <= applied {
                    None
                } else {
                    Some(s)
                },
                (other, _) => other,
            },
    {
        if let Some(s) = self.in_flight_action {
            if let Some(applied) = menu_applied {
                if s <= applied {
                    self.in_flight_action = None;
                }
            }
        }
        self.ack_pending = Some(
            match self.ack_pending {
                Some(previous) => if previous >= through {
                    previous
                } else {
                    through
                },
                None => through,
            },
        );
    }

    /// Takes the pending acknowledgement for sending.
    pub fn take_ack(&mut self) -> (result: Option<u64>)
        ensures
            result == old(self).ack_pending,
            final(self).ack_pending is None,
            final(self).finalized == old(self).finalized,
            final(self).in_flight_action == old(self).in_flight_action,
    {
        let result = self.ack_pending;
        self.ack_pending = None;
        result
    }

    /// Restores an acknowledgement that could not be sent.
    pub fn restore_ack(&mut self, through: u64)
        ensures
            final(self).ack_pending == Some(through),
            final(self).finalized == old(self).finalized,
            final(self).in_flight_action == old(self).in_flight_action,
    {
        self.ack_pending = Some(through);
    }

    /// The server activated the session through `through`.
    pub fn activate(&mut self, through: u64)
        ensures
            final(self).finalized == if through > old(self).finalized {
                through
            } else {
                old(self).finalized
            },
            final(self).ack_pending == old(self).ack_pending,
            final(self).in_flight_action == old(self).in_flight_action,
    {
        if through > self.finalized {
            self.finalized = through;
        }
    }
}

/// Coalesces an outcome batch acknowledgement with a pending one.
pub fn coalesce_ack(pending: Option<u64>, batch: u64) -> (result: Option<u64>)
    ensures
        result == max_pending(pending, batch),
{
    match pending {
        Some(previous) => Some(
            if previous >= batch {
                previous
            } else {
                batch
            },
        ),
        None => Some(batch),
    }
}

/// What a decoded welcome does to the running session.
#[derive(Clone, Copy, Debug, PartialEq, Eq, Structural)]
pub enum WelcomeDecision {
    /// A repeated or older welcome of the running session.
    Ignore,
    /// Start a new session from this welcome.
    Start,
}

/// A welcome for another transport peer or another player.
#[derive(Clone, Copy, Debug, PartialEq, Eq, Structural)]
pub enum WelcomeError {
    Incompatible,
}

/// Decides on a welcome for `(instance, epoch)`; `current` is the running
/// session's, if any.
pub fn welcome_decision(
    compatible: bool,
    player_matches: bool,
    current: Option<(u64, u64)>,
    instance: u64,
    epoch: u64,
) -> (result: Result<WelcomeDecision, WelcomeError>)
    ensures
        !(compatible && player_matches) ==> result == Err::<WelcomeDecision, WelcomeError>(
            WelcomeError::Incompatible,
        ),
        compatible && player_matches ==> result == Ok::<WelcomeDecision, WelcomeError>(
            match current {
                Some((i, e)) => if i == instance && epoch <= e {
                    WelcomeDecision::Ignore
                } else {
                    WelcomeDecision::Start
                },
                None => WelcomeDecision::Start,
            },
        ),
{
    if !compatible || !player_matches {
        return Err(WelcomeError::Incompatible);
    }
    match current {
        Some((i, e)) => if i == instance && epoch <= e {
            Ok(WelcomeDecision::Ignore)
        } else {
            Ok(WelcomeDecision::Start)
        },
        None => Ok(WelcomeDecision::Start),
    }
}

/// One owner baseline reset, reduced to what its batch check reads.
#[derive(Clone, Copy, Debug, PartialEq, Eq, Structural)]
pub struct ResetTarget {
    pub entity: EntityId,
    pub connection: u64,
    /// Owner group identity and revision, if the reset names one.
    pub group: Option<GroupRevision>,
}

/// A valid owner reset batch has a valid member count, names every entity
/// once, covers the global, owner and collision entities, names one group
/// and belongs to the session's connection.
pub open spec fn reset_batch_valid(
    resets: Seq<ResetTarget>,
    count_valid: bool,
    mandatory: [EntityId; 3],
    connection: u64,
) -> bool {
    &&& count_valid
    &&& forall|i: int, j: int| 0 <= i < j < resets.len() ==> (#[trigger] resets[i]).entity != (#[trigger] resets[j]).entity
    &&& forall|m: int| 0 <= m < 3 ==> exists|i: int| 0 <= i < resets.len() && resets[i].entity == #[trigger] mandatory@[m]
    &&& forall|i: int| 0 <= i < resets.len() ==> (#[trigger] resets[i]).group == resets[0].group
    &&& forall|i: int| 0 <= i < resets.len() ==> (#[trigger] resets[i]).connection == connection
}

/// Checks an owner baseline reset batch before any cache is touched.
/// `count_valid` is the protocol's member-count check of the batch length.
pub fn check_reset_batch(
    resets: &Vec<ResetTarget>,
    count_valid: bool,
    mandatory: [EntityId; 3],
    connection: u64,
) -> (result: bool)
    ensures
        result == reset_batch_valid(resets@, count_valid, mandatory, connection),
{
    if !count_valid {
        return false;
    }
    let n = resets.len();
    for i in 0..n
        invariant
            n == resets@.len(),
            forall|a: int, b: int| 0 <= a < b < i ==> (#[trigger] resets@[a]).entity != (#[trigger] resets@[b]).entity,
            forall|a: int| 0 <= a < i ==> (#[trigger] resets@[a]).group == resets@[0].group,
            forall|a: int| 0 <= a < i ==> (#[trigger] resets@[a]).connection == connection,
    {
        if resets[i].connection != connection || resets[i].group != resets[0].group {
            return false;
        }
        for j in 0..i
            invariant
                i < n,
                n == resets@.len(),
                forall|a: int| 0 <= a < j ==> resets@[a].entity != resets@[i as int].entity,
        {
            if resets[j].entity == resets[i].entity {
                return false;
            }
        }
    }
    let mut m: usize = 0;
    while m < 3
        invariant
            m <= 3,
            n == resets@.len(),
            forall|k: int| 0 <= k < m ==> exists|i: int| 0 <= i < resets@.len() && resets@[i].entity == #[trigger] mandatory@[k],
        decreases 3 - m,
    {
        let entity = mandatory[m];
        let mut found = false;
        for i in 0..n
            invariant
                n == resets@.len(),
                m < 3,
                entity == mandatory@[m as int],
                found ==> exists|w: int| 0 <= w < resets@.len() && resets@[w].entity == entity,
                !found ==> forall|w: int| 0 <= w < i ==> resets@[w].entity != entity,
        {
            if resets[i].entity == entity {
                found = true;
            }
        }
        if !found {
            return false;
        }
        m = m + 1;
    }
    true
}

/// What sending a menu action amounts to.
#[derive(Clone, Copy, Debug, PartialEq, Eq, Structural)]
pub enum MenuDecision {
    /// Not sent: it belongs to the input lane, or the session cannot take it.
    Drop,
    /// The menu sequence is exhausted: the connection must end.
    Disconnect,
    /// Send it with this menu sequence.
    Send(u64),
}

/// Whether a menu action is sent. Cast and dash travel as input edges; a
/// session that is not active and connected takes none; while an action is
/// in flight only a pause may follow it.
pub fn menu_decision(
    input_edge: bool,
    pause: bool,
    connected: bool,
    active: bool,
    in_flight: Option<u64>,
    sequence: u64,
) -> (result: MenuDecision)
    ensures
        result == if input_edge || !connected || !active || (in_flight is Some && !pause) {
            MenuDecision::Drop
        } else if sequence == u64::MAX {
            MenuDecision::Disconnect
        } else {
            MenuDecision::Send((sequence + 1) as u64)
        },
{
    if input_edge || !connected || !active {
        return MenuDecision::Drop;
    }
    if in_flight.is_some() && !pause {
        return MenuDecision::Drop;
    }
    if sequence == u64::MAX {
        return MenuDecision::Disconnect;
    }
    MenuDecision::Send(sequence + 1)
}

/// Whether a paced request may be sent at `now`, `interval` after `last`.
pub open spec fn due(now: u64, last: u64, interval: u64) -> bool {
    crate::ids::sat_sub(now, last) >= interval
}

/// Whether a resynchronization request is sent at `now`: at most one a second.
pub fn resync_due(now: u64, last_resync: u64) -> (result: bool)
    ensures
        result == due(now, last_resync, RESYNC_INTERVAL_NANOS),
{
    now.saturating_sub(last_resync) >= RESYNC_INTERVAL_NANOS
}

/// Whether a clock probe is sent at `now`: one every 250 ms.
pub fn probe_due(now: u64, last_probe: u64) -> (result: bool)
    ensures
        result == due(now, last_probe, PROBE_INTERVAL_NANOS),
{
    now.saturating_sub(last_probe) >= PROBE_INTERVAL_NANOS
}

/// Why the connection ends this frame.
#[derive(Clone, Copy, Debug, PartialEq, Eq, Structural)]
pub enum DisconnectCause {
    /// The transport reports the connection closed.
    Transport,
    /// Nothing arrived for longer than the receive limit.
    Timeout,
}

/// A closed transport is reported before a receive timeout.
pub fn disconnect_cause(disconnected: bool, timed_out: bool) -> (result: Option<DisconnectCause>)
    ensures
        result == if disconnected {
            Some(DisconnectCause::Transport)
        } else if timed_out {
            Some(DisconnectCause::Timeout)
        } else {
            None
        },
{
    if disconnected {
        Some(DisconnectCause::Transport)
    } else if timed_out {
        Some(DisconnectCause::Timeout)
    } else {
        None
    }
}

impl DisconnectCause {
    /// The status shown to the player, which says whether the server's
    /// welcome had arrived.
    pub fn status(&self, before_welcome: bool) -> (result: &'static str)
        ensures
            result@ == match (*self, before_welcome) {
                (DisconnectCause::Transport, true) =>
                    "Connection ended before the server welcome. Try joining again."@,
                (DisconnectCause::Transport, false) =>
                    "Disconnected. Join again to reconnect with the same Traveler ID."@,
                (DisconnectCause::Timeout, true) =>
                    "Timed out waiting for the server welcome. Try joining again."@,
                (DisconnectCause::Timeout, false) =>
                    "Timed out waiting for server updates. Join again to reconnect."@,
            },
    {
        match (self, before_welcome) {
            (DisconnectCause::Transport, true) =>
                "Connection ended before the server welcome. Try joining again.",
            (DisconnectCause::Transport, false) =>
                "Disconnected. Join again to reconnect with the same Traveler ID.",
            (DisconnectCause::Timeout, true) =>
                "Timed out waiting for the server welcome. Try joining again.",
            (DisconnectCause::Timeout, false) =>
                "Timed out waiting for server updates. Join again to reconnect.",
        }
    }
}

/// How the client was started.
#[derive(Clone, Copy, Debug, PartialEq, Eq, Structural)]
pub struct NetworkOptions {
    pub seed: u64,
    pub auto_connect: bool,
    pub auto_host: bool,
    pub expected_party: usize,
    pub hosted: bool,
    pub max_clients: u16,
}

/// What the client does on startup.
#[derive(Clone, Copy, Debug, PartialEq, Eq, Structural)]
pub enum StartupAction {
    /// Launch a local server and join it.
    Host,
    /// Join the configured server with one attempt.
    Connect { attempts: u32 },
}

impl NetworkOptions {
    /// Hosting wins over joining; otherwise the client waits for the player.
    pub fn startup_action(&self) -> (result: Option<StartupAction>)
        ensures
            result == if self.auto_host {
                Some(StartupAction::Host)
            } else if self.auto_connect {
                Some(StartupAction::Connect { attempts: 1 })
            } else {
                None
            },
    {
        if self.auto_host {
            Some(StartupAction::Host)
        } else if self.auto_connect {
            Some(StartupAction::Connect { attempts: 1 })
        } else {
            None
        }
    }
}

/// What a requested connection does once the profile may be read.
#[derive(Clone, Copy, Debug, PartialEq, Eq, Structural)]
pub enum ProfileConnect {
    /// The profile is still being saved or loaded; keep the request.
    Wait,
    /// Nothing was requested.
    Idle,
    /// The profile cannot be stored: report it instead of connecting.
    StorageFailed,
    /// Connect with this many attempts.
    Connect(u32),
}

/// A request waits for a pending profile, and is consumed otherwise.
pub fn profile_connect(pending: bool, requested: Option<u32>, storage_failed: bool) -> (result:
    ProfileConnect)
    ensures
        result == if pending {
            ProfileConnect::Wait
        } else {
            match requested {
                None => ProfileConnect::Idle,
                Some(attempts) => if storage_failed {
                    ProfileConnect::StorageFailed
                } else {
                    ProfileConnect::Connect(attempts)
                },
            }
        },
{
    if pending {
        return ProfileConnect::Wait;
    }
    match requested {
        None => ProfileConnect::Idle,
        Some(attempts) => if storage_failed {
            ProfileConnect::StorageFailed
        } else {
            ProfileConnect::Connect(attempts)
        },
    }
}

/// How a connection request proceeds.
#[derive(Clone, Copy, Debug, PartialEq, Eq, Structural)]
pub enum ConnectGate {
    /// The profile refused the requested server: report its error.
    ServerRefused,
    /// The profile is being saved: keep the request with its attempts.
    AwaitProfile { attempts: u32 },
    /// The profile could not be locked for this connection: report it.
    LockRefused,
    /// Start connecting, trying this many times.
    Start { tries: u32 },
}

/// A request needs the profile to accept the server, to be idle, and to
/// lock its credential; it then tries at least once.
pub fn connect_gate(server_ok: bool, pending: bool, lock_ok: bool, attempts: u32) -> (result:
    ConnectGate)
    ensures
        result == if !server_ok {
            ConnectGate::ServerRefused
        } else if pending {
            ConnectGate::AwaitProfile { attempts }
        } else if !lock_ok {
            ConnectGate::LockRefused
        } else {
            ConnectGate::Start {
                tries: if attempts >= 1 {
                    attempts
                } else {
                    1
                },
            }
        },
{
    if !server_ok {
        ConnectGate::ServerRefused
    } else if pending {
        ConnectGate::AwaitProfile { attempts }
    } else if !lock_ok {
        ConnectGate::LockRefused
    } else {
        ConnectGate::Start {
            tries: if attempts >= 1 {
                attempts
            } else {
                1
            },
        }
    }
}

/// Whether a failed attempt `attempt` (counted from zero) waits and tries
/// again.
pub fn retry_connect(attempt: u32, attempts: u32) -> (result: bool)
    ensures
        result == (attempt + 1 < attempts),
{
    attempt < u32::MAX && attempt + 1 < attempts
}

/// Why a finalization publication is refused.
#[derive(Clone, Copy, Debug, PartialEq, Eq, Structural)]
pub enum FinalizedError {
    /// It skipped committed ticks.
    ReceiptGap,
    /// Its arrival feedback contradicts what was issued or accepted before,
    /// or a changed lead cannot start a new policy.
    Feedback(FeedbackError),
    /// The lead controller refused the accepted slack and asks for
    /// resynchronization.
    LeadRefused,
}

/// The menu action in flight after a publication that applied menu actions
/// through `applied`.
pub open spec fn in_flight_after(in_flight: Option<u64>, applied: Option<u64>) -> Option<u64> {
    match (in_flight, applied) {
        (Some(s), Some(a)) => if s <= a {
            None
        } else {
            Some(s)
        },
        (other, _) => other,
    }
}

/// The first part of a finalization publication through `through` whose
/// first receipt covers `first_receipt`: a receipt gap refuses it; a
/// publication that advances finalization moves the finalized tick and hands
/// its arrival feedback (with the protocol's verdict `valid`) to the arrival
/// book, whose refusal refuses the publication. A duplicate or older
/// publication never reaches the feedback, so it cannot tune the lead twice.
/// `Ok(Some(..))` is the accepted feedback's verdict for the lead controller.
/// Nothing here touches the acknowledgement, the in-flight menu action or
/// the pending commands: that bookkeeping waits for the lead step
/// (`settle_finalized`).
pub fn apply_finalized(
    state: &mut Finalization,
    book: &mut ArrivalBook,
    through: u64,
    first_receipt: Option<u64>,
    feedback: ArrivalFeedback,
    valid: bool,
    current_sequence: u64,
) -> (result: Result<Option<FeedbackVerdict>, FinalizedError>)
    requires
        old(book).wf(),
    ensures
        final(book).wf(),
        final(state).ack_pending == old(state).ack_pending,
        final(state).in_flight_action == old(state).in_flight_action,
        receipt_gap(old(state).finalized, through, first_receipt) ==> {
            &&& result == Err::<Option<FeedbackVerdict>, FinalizedError>(FinalizedError::ReceiptGap)
            &&& *final(state) == *old(state)
            &&& final(book)@ == old(book)@
        },
        !receipt_gap(old(state).finalized, through, first_receipt) ==> final(state).finalized == if through
            > old(state).finalized {
            through
        } else {
            old(state).finalized
        },
        !receipt_gap(old(state).finalized, through, first_receipt) && through <= old(state).finalized ==> {
            &&& result == Ok::<Option<FeedbackVerdict>, FinalizedError>(None)
            &&& final(book)@ == old(book)@
        },
        !receipt_gap(old(state).finalized, through, first_receipt) && through > old(state).finalized ==> {
            &&& feedback_refused(old(book)@, feedback, valid, current_sequence) ==> {
                &&& result == Err::<Option<FeedbackVerdict>, FinalizedError>(
                    FinalizedError::Feedback(FeedbackError::InvalidSample),
                )
                &&& final(book)@ == old(book)@
            }
            &&& !feedback_refused(old(book)@, feedback, valid, current_sequence) ==> {
                &&& result == Ok::<Option<FeedbackVerdict>, FinalizedError>(
                    Some(accept_spec(old(book)@, feedback).1),
                )
                &&& final(book)@ == accept_spec(old(book)@, feedback).0
            }
        },
{
    let advanced = match state.advance(through, first_receipt) {
        Ok(a) => a,
        Err(_) => return Err(FinalizedError::ReceiptGap),
    };
    if advanced {
        match book.observe_feedback(feedback, valid, current_sequence) {
            Ok(v) => Ok(Some(v)),
            Err(e) => Err(FinalizedError::Feedback(e)),
        }
    } else {
        Ok(None)
    }
}

/// What the lead controller did with an applied verdict's slack. Without an
/// applied verdict there is no lead step, and the caller reports `Kept`.
#[derive(Clone, Copy, Debug, PartialEq, Eq, Structural)]
pub enum LeadStep {
    /// The lead stayed as it was.
    Kept,
    /// The lead moved: a new lead policy starts.
    Changed,
    /// The controller refused the slack and asks for resynchronization.
    Refused,
}

/// The second part of a finalization publication, once the lead step is
/// known: a refused lead step refuses the publication, and a changed lead
/// starts a new policy in the arrival book (whose exhaustion refuses it);
/// only then do finalized commands leave `pending`, an applied menu action
/// leave flight and the finalized tick await acknowledgement. A refusal
/// leaves the acknowledgement, the in-flight action and `pending` unchanged.
pub fn settle_finalized(
    state: &mut Finalization,
    book: &mut ArrivalBook,
    pending: &mut Vec<PendingCommand>,
    through: u64,
    menu_applied: Option<u64>,
    lead: LeadStep,
) -> (result: Result<(), FinalizedError>)
    requires
        old(book).wf(),
    ensures
        final(book).wf(),
        final(state).finalized == old(state).finalized,
        lead is Refused ==> {
            &&& result == Err::<(), FinalizedError>(FinalizedError::LeadRefused)
            &&& final(book)@ == old(book)@
        },
        lead is Changed && old(book)@.policy == u64::MAX ==> {
            &&& result == Err::<(), FinalizedError>(FinalizedError::Feedback(FeedbackError::TimeRange))
            &&& final(book)@ == old(book)@
        },
        lead is Changed && old(book)@.policy < u64::MAX ==> final(book)@ == (ArrivalView {
            policy: (old(book)@.policy + 1) as u64,
            policy_head: None,
            ..old(book)@
        }),
        lead is Kept ==> final(book)@ == old(book)@,
        result is Err ==> {
            &&& *final(state) == *old(state)
            &&& final(pending)@ == old(pending)@
        },
        !(lead is Refused) && !(lead is Changed && old(book)@.policy == u64::MAX) ==> {
            &&& result is Ok
            &&& final(state).ack_pending == max_pending(old(state).ack_pending, through)
            &&& final(state).in_flight_action == in_flight_after(
                old(state).in_flight_action,
                menu_applied,
            )
            &&& final(pending)@ == unfinalized_spec(old(pending)@, through)
        },
{
    match lead {
        LeadStep::Refused => return Err(FinalizedError::LeadRefused),
        LeadStep::Changed => {
            if let Err(e) = book.lead_changed() {
                return Err(FinalizedError::Feedback(e));
            }
        },
        LeadStep::Kept => {},
    }
    *pending = retain_unfinalized(pending, through);
    state.complete(through, menu_applied);
    Ok(())
}

// ---------------------------------------------------------------- laws

/// Finalization never moves backwards, and a duplicate or older publication
/// does not advance it (so its feedback cannot tune the lead twice).
pub proof fn law_finalization_is_monotone(finalized: u64, through: u64, first_receipt: Option<u64>)
    requires
        !receipt_gap(finalized, through, first_receipt),
    ensures
        through <= finalized ==> !(through > finalized),
        (if through > finalized { through } else { finalized }) >= finalized,
{
}

/// The pending acknowledgement only grows until it is taken.
pub proof fn law_ack_only_grows(a: Option<u64>, b: u64)
    ensures
        max_pending(a, b)->0 >= b,
        a matches Some(x) ==> max_pending(a, b)->0 >= x,
{
}

} // verus!
