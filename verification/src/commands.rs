//! Command generation decisions: when a fresh command head may be assigned,
//! which ticks are forecast and which author input, where hardware capture
//! stops, and which pending commands a retry sends again.
use vstd::prelude::*;
use crate::ids::sat_sub;

verus! {

/// Pending commands plus a frame's new ticks never exceed this many.
pub const PREDICTION_HISTORY: usize = 256;

/// A command bundle carries at most this many records.
pub const BUNDLE_RECORDS: usize = 8;

/// Why a frame cannot generate commands.
#[derive(Clone, Copy, Debug, PartialEq, Eq, Structural)]
pub enum CommandError {
    ClockRange,
    MissingOwnerPrediction,
    HistoryDiscontinuity,
    TargetOrdering,
    InputClockRange,
    RetryClockRange,
    SequenceExhausted,
}

impl CommandError {
    /// The diagnostic text of this refusal.
    pub fn message(&self) -> (result: &'static str)
        ensures
            result@ == match *self {
                CommandError::ClockRange => "clock range"@,
                CommandError::MissingOwnerPrediction => "missing owner prediction"@,
                CommandError::HistoryDiscontinuity => "prediction history discontinuity"@,
                CommandError::TargetOrdering => "input target ordering"@,
                CommandError::InputClockRange => "input clock range"@,
                CommandError::RetryClockRange => "input retry clock range"@,
                CommandError::SequenceExhausted => "input sequence exhausted"@,
            },
    {
        match self {
            CommandError::ClockRange => "clock range",
            CommandError::MissingOwnerPrediction => "missing owner prediction",
            CommandError::HistoryDiscontinuity => "prediction history discontinuity",
            CommandError::TargetOrdering => "input target ordering",
            CommandError::InputClockRange => "input clock range",
            CommandError::RetryClockRange => "input retry clock range",
            CommandError::SequenceExhausted => "input sequence exhausted",
        }
    }
}

/// Allocates the sequence of the next authored command: the one after
/// `sequence`, or a refusal once the sequence space is used up.
pub fn next_sequence(sequence: u64) -> (result: Result<u64, CommandError>)
    ensures
        sequence < u64::MAX ==> result == Ok::<u64, CommandError>((sequence + 1) as u64),
        sequence == u64::MAX ==> result == Err::<u64, CommandError>(CommandError::SequenceExhausted),
{
    match sequence.checked_add(1) {
        Some(next) => Ok(next),
        None => Err(CommandError::SequenceExhausted),
    }
}

/// Prediction has not started: no command was issued, and the predicted
/// frontier is the admitted checkpoint itself, with no replayable input.
pub open spec fn unstarted_spec(
    sequence: u64,
    predicted: Option<u64>,
    input_at_frontier: bool,
    checkpoint_tick: Option<u64>,
) -> bool {
    &&& sequence == 0
    &&& match predicted {
        Some(tick) => !input_at_frontier && checkpoint_tick == Some(tick),
        None => false,
    }
}

/// Whether owner prediction is still its unstarted checkpoint. `sequence` is
/// the last issued command, `predicted` the owner frontier,
/// `input_at_frontier` whether replay input is kept for that tick, and
/// `checkpoint_tick` the server tick stamped on the owner state.
pub fn unstarted_prediction(
    sequence: u64,
    predicted: Option<u64>,
    input_at_frontier: bool,
    checkpoint_tick: Option<u64>,
) -> (result: bool)
    ensures
        result == unstarted_spec(sequence, predicted, input_at_frontier, checkpoint_tick),
{
    if sequence != 0 {
        return false;
    }
    match predicted {
        Some(tick) => !input_at_frontier && checkpoint_tick == Some(tick),
        None => false,
    }
}

/// Whether the first command must wait for a fresher checkpoint: prediction
/// has not started and the target that `lead` ticks ahead of `estimated`
/// would need more prediction ticks than the frame has left. Assigning a
/// target then would tune the lead controller although no command fits.
pub fn defer_assignment(
    unstarted: bool,
    current: u64,
    estimated: u64,
    lead: u8,
    remaining: Option<usize>,
) -> (result: Result<bool, CommandError>)
    ensures
        !unstarted ==> result == Ok::<bool, CommandError>(false),
        unstarted && estimated + lead > u64::MAX ==> result == Err::<bool, CommandError>(
            CommandError::ClockRange,
        ),
        unstarted && estimated + lead <= u64::MAX && remaining is None ==> result == Err::<
            bool,
            CommandError,
        >(CommandError::MissingOwnerPrediction),
        unstarted && estimated + lead <= u64::MAX && remaining is Some ==> result == Ok::<
            bool,
            CommandError,
        >(sat_sub((estimated + lead) as u64, current) > remaining->0),
{
    if !unstarted {
        return Ok(false);
    }
    let target = match estimated.checked_add(lead as u64) {
        Some(t) => t,
        None => return Err(CommandError::ClockRange),
    };
    let remaining = match remaining {
        Some(r) => r,
        None => return Err(CommandError::MissingOwnerPrediction),
    };
    let gap = if target >= current {
        target - current
    } else {
        0
    };
    Ok(gap > remaining as u64)
}

/// A forecast gap: bootstrap, or a predicted frontier behind the estimated
/// simulation tick.
pub open spec fn forecast_gap_spec(sequence: u64, predicted: Option<u64>, estimated: u64) -> bool {
    ||| sequence == 0
    ||| match predicted {
        Some(tick) => tick < estimated,
        None => false,
    }
}

/// Whether the ticks before the fresh head are forecast with substitutes
/// instead of consuming hardware samples.
pub fn forecast_gap(sequence: u64, predicted: Option<u64>, estimated: u64) -> (result: bool)
    ensures
        result == forecast_gap_spec(sequence, predicted, estimated),
{
    if sequence == 0 {
        return true;
    }
    match predicted {
        Some(tick) => tick < estimated,
        None => false,
    }
}

/// What one predicted tick of a frame does.
#[derive(Clone, Copy, Debug, PartialEq, Eq, Structural)]
pub enum TickStep {
    /// Predict a server-style substitute; no input is drained and no command
    /// or action identity is allocated.
    Forecast(u64),
    /// Drain the hardware sample for this tick into a new command.
    Author(u64),
}

/// What a frame does after its target was assigned.
#[derive(Debug, PartialEq, Eq)]
pub enum CommandPlan {
    /// The frontier already reached the target: only retry pending commands.
    RetryOnly,
    /// Predict these ticks in order, then retry pending commands.
    Ticks(Vec<TickStep>),
}

/// The step for `tick` of a frame whose head is `target`.
pub open spec fn step_spec(tick: u64, target: u64, forecast_gap: bool) -> TickStep {
    if forecast_gap && tick < target {
        TickStep::Forecast(tick)
    } else {
        TickStep::Author(tick)
    }
}

/// Every tick after `current` through `target`, in order.
pub open spec fn steps_spec(current: u64, target: u64, forecast_gap: bool) -> Seq<TickStep> {
    Seq::new(
        sat_sub(target, current) as nat,
        |i: int| step_spec((current + 1 + i) as u64, target, forecast_gap),
    )
}

/// Whether a frame's new ticks fit: the gap to the target fits the frame's
/// remaining prediction work and, with the pending commands, the history.
pub open spec fn preflight_spec(
    pending: usize,
    current: u64,
    target: u64,
    remaining: Option<usize>,
) -> Result<(), CommandError> {
    let gap = sat_sub(target, current);
    if gap > usize::MAX {
        Err(CommandError::HistoryDiscontinuity)
    } else {
        match remaining {
            None => Err(CommandError::MissingOwnerPrediction),
            Some(r) => if gap > r || pending + gap > PREDICTION_HISTORY {
                Err(CommandError::HistoryDiscontinuity)
            } else {
                Ok(())
            },
        }
    }
}

/// The plan of a frame whose assigned head is `target`; `current` is the
/// owner's predicted frontier, `pending` the commands awaiting the server,
/// `remaining` the frame's prediction work left.
pub open spec fn plan_spec(
    target: u64,
    current: Option<u64>,
    pending: usize,
    remaining: Option<usize>,
    forecast_gap: bool,
) -> Result<Seq<TickStep>, CommandError> {
    match current {
        None => Err(CommandError::MissingOwnerPrediction),
        Some(c) => if target <= c {
            Ok(Seq::empty())
        } else {
            match preflight_spec(pending, c, target, remaining) {
                Err(e) => Err(e),
                Ok(_) => Ok(steps_spec(c, target, forecast_gap)),
            }
        },
    }
}

/// Plans the frame's predicted ticks. Only the head of a forecast gap
/// authors input; every other tick of the gap is a substitute.
pub fn plan_commands(
    target: u64,
    current: Option<u64>,
    pending: usize,
    remaining: Option<usize>,
    forecast_gap: bool,
) -> (result: Result<CommandPlan, CommandError>)
    ensures
        match plan_spec(target, current, pending, remaining, forecast_gap) {
            Err(e) => result == Err::<CommandPlan, CommandError>(e),
            Ok(steps) => if steps.len() == 0 {
                result == Ok::<CommandPlan, CommandError>(CommandPlan::RetryOnly)
            } else {
                result matches Ok(CommandPlan::Ticks(v)) && v@ == steps
            },
        },
{
    let current = match current {
        Some(c) => c,
        None => return Err(CommandError::MissingOwnerPrediction),
    };
    if target <= current {
        return Ok(CommandPlan::RetryOnly);
    }
    let gap = target - current;
    if gap > usize::MAX as u64 {
        return Err(CommandError::HistoryDiscontinuity);
    }
    let remaining = match remaining {
        Some(r) => r,
        None => return Err(CommandError::MissingOwnerPrediction),
    };
    if pending > PREDICTION_HISTORY || gap > remaining as u64 || gap > (PREDICTION_HISTORY
        - pending) as u64 {
        return Err(CommandError::HistoryDiscontinuity);
    }
    let ghost expected = steps_spec(current, target, forecast_gap);
    let mut steps: Vec<TickStep> = Vec::new();
    let mut i: u64 = 0;
    while i < gap
        invariant
            current < target,
            gap == target - current,
            gap <= PREDICTION_HISTORY,
            i <= gap,
            expected == steps_spec(current, target, forecast_gap),
            steps@.len() == i,
            forall|k: int| 0 <= k < steps@.len() ==> steps@[k] == expected[k],
        decreases gap - i,
    {
        let tick = current + 1 + i;
        if forecast_gap && tick < target {
            steps.push(TickStep::Forecast(tick));
        } else {
            steps.push(TickStep::Author(tick));
        }
        i = i + 1;
    }
    assert(steps@ =~= expected);
    Ok(CommandPlan::Ticks(steps))
}

/// How many ticks `tick` lies behind the frame's newest target.
pub fn ticks_behind(tick: u64, newest: u64) -> (result: Result<u64, CommandError>)
    ensures
        tick <= newest ==> result == Ok::<u64, CommandError>((newest - tick) as u64),
        tick > newest ==> result == Err::<u64, CommandError>(CommandError::TargetOrdering),
{
    if tick > newest {
        Err(CommandError::TargetOrdering)
    } else {
        Ok(newest - tick)
    }
}

/// The capture deadline of a tick: `offset` (the duration of the ticks it
/// lies behind the newest target, if representable) before `now`, but never
/// before the previous deadline. Times are nanoseconds.
pub open spec fn capture_deadline_spec(now: u64, offset: u64, previous: Option<u64>) -> u64 {
    let floor = match previous {
        Some(p) => p,
        None => 0,
    };
    let back = sat_sub(now, offset);
    if back >= floor {
        back
    } else {
        floor
    }
}

/// Where hardware capture stops for a tick.
pub fn capture_deadline(now: u64, offset: Option<u64>, previous: Option<u64>) -> (result: Result<
    u64,
    CommandError,
>)
    ensures
        offset is None ==> result == Err::<u64, CommandError>(CommandError::InputClockRange),
        offset is Some ==> result == Ok::<u64, CommandError>(
            capture_deadline_spec(now, offset->0, previous),
        ),
{
    let offset = match offset {
        Some(o) => o,
        None => return Err(CommandError::InputClockRange),
    };
    let back = now.saturating_sub(offset);
    let floor = match previous {
        Some(p) => p,
        None => 0,
    };
    Ok(if back >= floor {
        back
    } else {
        floor
    })
}

/// The owner stream a command was issued on.
#[derive(Clone, Copy, Debug, PartialEq, Eq, Structural)]
pub struct CommandOwner {
    pub epoch: u64,
    pub stream: u64,
    pub ownership: u64,
}

/// An immutable command still awaiting the server.
#[derive(Clone, Copy, Debug, PartialEq, Eq, Structural)]
pub struct PendingCommand {
    pub owner: CommandOwner,
    pub sequence: u64,
    pub target: u64,
}

/// The last target a retry may resend after committed progress reached
/// `committed`; `None` when progress has not advanced since the last retry,
/// so that same-tick replies never replenish the retry budget.
pub open spec fn retry_window_spec(committed: u64, last_retry: Option<u64>, future_ticks: u16) -> Result<
    Option<u64>,
    CommandError,
> {
    if last_retry matches Some(p) && committed <= p {
        Ok(None)
    } else if committed + future_ticks > u64::MAX {
        Err(CommandError::RetryClockRange)
    } else {
        Ok(Some((committed + future_ticks) as u64))
    }
}

/// Opens the retry window for this committed progress.
pub fn retry_window(committed: u64, last_retry: Option<u64>, future_ticks: u16) -> (result: Result<
    Option<u64>,
    CommandError,
>)
    ensures
        result == retry_window_spec(committed, last_retry, future_ticks),
{
    if let Some(previous) = last_retry {
        if committed <= previous {
            return Ok(None);
        }
    }
    match committed.checked_add(future_ticks as u64) {
        Some(through) => Ok(Some(through)),
        None => Err(CommandError::RetryClockRange),
    }
}

/// A pending command a retry may send: the current owner's, with a target
/// after committed progress and inside the window, not already sent in
/// this frame.
pub open spec fn retry_keep(
    c: PendingCommand,
    owner: CommandOwner,
    committed: u64,
    through: u64,
    covered: Seq<u64>,
) -> bool {
    &&& c.owner == owner
    &&& committed < c.target <= through
    &&& !covered.contains(c.sequence)
}

/// The pending commands a retry may send, oldest first.
pub open spec fn retry_all(
    s: Seq<PendingCommand>,
    owner: CommandOwner,
    committed: u64,
    through: u64,
    covered: Seq<u64>,
) -> Seq<PendingCommand> {
    s.filter(|c: PendingCommand| retry_keep(c, owner, committed, through, covered))
}

/// The first `limit` of them.
pub open spec fn retry_spec(
    s: Seq<PendingCommand>,
    owner: CommandOwner,
    committed: u64,
    through: u64,
    covered: Seq<u64>,
    limit: usize,
) -> Seq<PendingCommand> {
    let all = retry_all(s, owner, committed, through, covered);
    if all.len() <= limit {
        all
    } else {
        all.take(limit as int)
    }
}

/// What a prefix of the pending commands selects is a prefix of what all
/// of them select, and everything selected is kept by the filter.
pub proof fn lemma_retry_prefix(
    s: Seq<PendingCommand>,
    i: int,
    owner: CommandOwner,
    committed: u64,
    through: u64,
    covered: Seq<u64>,
)
    requires
        0 <= i <= s.len(),
    ensures
        retry_all(s.take(i), owner, committed, through, covered).len() <= retry_all(
            s,
            owner,
            committed,
            through,
            covered,
        ).len(),
        retry_all(s, owner, committed, through, covered).take(
            retry_all(s.take(i), owner, committed, through, covered).len() as int,
        ) == retry_all(s.take(i), owner, committed, through, covered),
    decreases s.len(),
{
    reveal(Seq::filter);
    let a = retry_all(s.take(i), owner, committed, through, covered);
    let b = retry_all(s, owner, committed, through, covered);
    if i == s.len() {
        assert(s.take(i) =~= s);
        assert(b.take(b.len() as int) =~= b);
    } else {
        assert(s.take(i) =~= s.drop_last().take(i));
        lemma_retry_prefix(s.drop_last(), i, owner, committed, through, covered);
        let r = retry_all(s.drop_last(), owner, committed, through, covered);
        if retry_keep(s.last(), owner, committed, through, covered) {
            assert(b.take(a.len() as int) =~= r.take(a.len() as int));
        }
    }
}

/// Everything selected is kept by the filter.
pub proof fn lemma_retry_kept(
    s: Seq<PendingCommand>,
    owner: CommandOwner,
    committed: u64,
    through: u64,
    covered: Seq<u64>,
)
    ensures
        forall|k: int|
            0 <= k < retry_all(s, owner, committed, through, covered).len() ==> retry_keep(
                #[trigger] retry_all(s, owner, committed, through, covered)[k],
                owner,
                committed,
                through,
                covered,
            ),
    decreases s.len(),
{
    reveal(Seq::filter);
    if s.len() > 0 {
        lemma_retry_kept(s.drop_last(), owner, committed, through, covered);
        let r = retry_all(s.drop_last(), owner, committed, through, covered);
        let b = retry_all(s, owner, committed, through, covered);
        assert forall|k: int| 0 <= k < b.len() implies retry_keep(
            #[trigger] b[k],
            owner,
            committed,
            through,
            covered,
        ) by {
            if k < r.len() {
                assert(b[k] == r[k]);
            }
        }
    }
}

/// Whether `values` holds `x`.
fn holds(values: &Vec<u64>, x: u64) -> (result: bool)
    ensures
        result == values@.contains(x),
{
    let n = values.len();
    for i in 0..n
        invariant
            n == values@.len(),
            forall|k: int| 0 <= k < i ==> values@[k] != x,
    {
        if values[i] == x {
            assert(values@[i as int] == x);
            return true;
        }
    }
    false
}

/// Selects, oldest first, at most `limit` pending commands to send again.
pub fn retry_eligible(
    pending: &Vec<PendingCommand>,
    owner: CommandOwner,
    committed: u64,
    through: u64,
    covered: &Vec<u64>,
    limit: usize,
) -> (result: Vec<PendingCommand>)
    ensures
        result@ == retry_spec(pending@, owner, committed, through, covered@, limit),
{
    let n = pending.len();
    let mut out: Vec<PendingCommand> = Vec::new();
    let mut i: usize = 0;
    while i < n && out.len() < limit
        invariant
            n == pending@.len(),
            i <= n,
            out@.len() <= limit,
            out@ == retry_all(pending@.take(i as int), owner, committed, through, covered@),
        decreases n - i,
    {
        let c = pending[i];
        proof {
            reveal(Seq::filter);
            assert(pending@.take(i as int + 1).drop_last() =~= pending@.take(i as int));
            assert(pending@.take(i as int + 1).last() == c);
        }
        if c.owner == owner && committed < c.target && c.target <= through && !holds(
            covered,
            c.sequence,
        ) {
            out.push(c);
        }
        i = i + 1;
    }
    proof {
        lemma_retry_prefix(pending@, i as int, owner, committed, through, covered@);
        let all = retry_all(pending@, owner, committed, through, covered@);
        if i == n {
            assert(pending@.take(i as int) =~= pending@);
        } else {
            assert(out@.len() == limit);
            assert(all.take(limit as int) == out@);
        }
    }
    out
}

/// One retry frame of a batch of eligible commands: the newest of the first
/// `BUNDLE_RECORDS` with the rest of them, newest first.
pub open spec fn frame_spec(eligible: Seq<PendingCommand>) -> Option<(PendingCommand, Seq<PendingCommand>)> {
    if eligible.len() == 0 {
        None
    } else {
        let k = if eligible.len() < BUNDLE_RECORDS {
            eligible.len() as int
        } else {
            BUNDLE_RECORDS as int
        };
        Some((eligible[k - 1], Seq::new((k - 1) as nat, |j: int| eligible[k - 2 - j])))
    }
}

/// The next retry frame, so that the oldest eligible records are offered
/// first.
pub fn retry_frame(eligible: &Vec<PendingCommand>) -> (result: Option<(PendingCommand, Vec<PendingCommand>)>)
    ensures
        match frame_spec(eligible@) {
            None => result is None,
            Some((newest, older)) => result matches Some((n, o)) && n == newest && o@ == older,
        },
{
    if eligible.len() == 0 {
        return None;
    }
    let k = if eligible.len() < BUNDLE_RECORDS {
        eligible.len()
    } else {
        BUNDLE_RECORDS
    };
    let newest = eligible[k - 1];
    let mut older: Vec<PendingCommand> = Vec::new();
    let mut j: usize = 0;
    while j + 1 < k
        invariant
            1 <= k <= eligible@.len(),
            j + 1 <= k,
            older@.len() == j,
            forall|m: int| 0 <= m < j ==> older@[m] == eligible@[k - 2 - m],
        decreases k - j,
    {
        older.push(eligible[k - 2 - j]);
        j = j + 1;
    }
    proof {
        let spec_k = if eligible@.len() < BUNDLE_RECORDS {
            eligible@.len() as int
        } else {
            BUNDLE_RECORDS as int
        };
        assert(spec_k == k);
        assert(older@ =~= Seq::new((k - 1) as nat, |m: int| eligible@[k - 2 - m]));
    }
    Some((newest, older))
}

/// The commands whose sequence is not in `included`, in order.
pub open spec fn unsent_spec(s: Seq<PendingCommand>, included: Seq<u64>) -> Seq<PendingCommand> {
    s.filter(|c: PendingCommand| !included.contains(c.sequence))
}

/// Removes the commands a frame included from the eligible batch.
pub fn drop_included(eligible: &Vec<PendingCommand>, included: &Vec<u64>) -> (result: Vec<PendingCommand>)
    ensures
        result@ == unsent_spec(eligible@, included@),
{
    let n = eligible.len();
    let mut out: Vec<PendingCommand> = Vec::new();
    for i in 0..n
        invariant
            n == eligible@.len(),
            out@ == unsent_spec(eligible@.take(i as int), included@),
    {
        let c = eligible[i];
        proof {
            reveal(Seq::filter);
            assert(eligible@.take(i as int + 1).drop_last() =~= eligible@.take(i as int));
            assert(eligible@.take(i as int + 1).last() == c);
        }
        if !holds(included, c.sequence) {
            out.push(c);
        }
    }
    assert(eligible@.take(n as int) =~= eligible@);
    out
}

/// The pending commands whose target is after the finalized tick, in order.
pub open spec fn unfinalized_spec(s: Seq<PendingCommand>, through: u64) -> Seq<PendingCommand> {
    s.filter(|c: PendingCommand| c.target > through)
}

/// Finalization through `through` settles every command targeting it or an
/// earlier tick; the others keep waiting, in order.
pub fn retain_unfinalized(pending: &Vec<PendingCommand>, through: u64) -> (result: Vec<PendingCommand>)
    ensures
        result@ == unfinalized_spec(pending@, through),
{
    let n = pending.len();
    let mut out: Vec<PendingCommand> = Vec::new();
    for i in 0..n
        invariant
            n == pending@.len(),
            out@ == unfinalized_spec(pending@.take(i as int), through),
    {
        let c = pending[i];
        proof {
            reveal(Seq::filter);
            assert(pending@.take(i as int + 1).drop_last() =~= pending@.take(i as int));
            assert(pending@.take(i as int + 1).last() == c);
        }
        if c.target > through {
            out.push(c);
        }
    }
    assert(pending@.take(n as int) =~= pending@);
    out
}

/// The tick a planned step is for.
pub open spec fn step_tick(s: TickStep) -> u64 {
    match s {
        TickStep::Forecast(t) => t,
        TickStep::Author(t) => t,
    }
}

/// The steps of a plan that author a command, in order.
pub open spec fn authored_steps(steps: Seq<TickStep>) -> Seq<TickStep> {
    steps.filter(|s: TickStep| s is Author)
}

/// The commands authored for `authored`, in order: the first takes the
/// sequence after `sequence`, each next one the sequence after that.
pub open spec fn authored_commands(owner: CommandOwner, sequence: u64, authored: Seq<TickStep>) -> Seq<
    PendingCommand,
> {
    Seq::new(
        authored.len(),
        |k: int|
            PendingCommand {
                owner,
                sequence: (sequence + 1 + k) as u64,
                target: step_tick(authored[k]),
            },
    )
}

/// What the first `i` steps author is what all the steps author, cut short.
proof fn lemma_authored_prefix(s: Seq<TickStep>, i: int)
    requires
        0 <= i <= s.len(),
    ensures
        authored_steps(s.take(i)).len() <= authored_steps(s).len(),
        authored_steps(s).take(authored_steps(s.take(i)).len() as int) == authored_steps(s.take(i)),
    decreases s.len(),
{
    reveal(Seq::filter);
    let a = authored_steps(s.take(i));
    let b = authored_steps(s);
    if i == s.len() {
        assert(s.take(i) =~= s);
        assert(b.take(b.len() as int) =~= b);
    } else {
        assert(s.take(i) =~= s.drop_last().take(i));
        lemma_authored_prefix(s.drop_last(), i);
        let r = authored_steps(s.drop_last());
        if s.last() is Author {
            assert(b.take(a.len() as int) =~= r.take(a.len() as int));
        }
    }
}

/// Authoring keeps the plan's order: authored ticks rise strictly, each is
/// one of the plan's ticks, and all lie above a bound the plan's ticks do.
proof fn lemma_authored_sorted(s: Seq<TickStep>, lo: u64)
    requires
        forall|i: int, j: int| 0 <= i < j < s.len() ==> step_tick(s[i]) < step_tick(s[j]),
        forall|i: int| 0 <= i < s.len() ==> step_tick(#[trigger] s[i]) > lo,
    ensures
        forall|i: int, j: int|
            0 <= i < j < authored_steps(s).len() ==> step_tick(authored_steps(s)[i]) < step_tick(
                authored_steps(s)[j],
            ),
        forall|i: int|
            0 <= i < authored_steps(s).len() ==> exists|j: int|
                0 <= j < s.len() && #[trigger] authored_steps(s)[i] == s[j],
        forall|i: int|
            0 <= i < authored_steps(s).len() ==> step_tick(#[trigger] authored_steps(s)[i]) > lo,
    decreases s.len(),
{
    reveal(Seq::filter);
    if s.len() > 0 {
        let t = s.drop_last();
        lemma_authored_sorted(t, lo);
        let r = authored_steps(t);
        let a = authored_steps(s);
        assert forall|i: int| 0 <= i < r.len() implies exists|j: int|
            0 <= j < s.len() && #[trigger] r[i] == s[j] by {
            let j = choose|j: int| 0 <= j < t.len() && #[trigger] r[i] == t[j];
            assert(r[i] == s[j]);
        }
        if s.last() is Author {
            assert forall|i: int| 0 <= i < r.len() implies step_tick(#[trigger] r[i]) < step_tick(
                s.last(),
            ) by {
                let j = choose|j: int| 0 <= j < s.len() && #[trigger] r[i] == s[j];
                assert(j < s.len() - 1) by {
                    let k = choose|k: int| 0 <= k < t.len() && #[trigger] r[i] == t[k];
                    assert(t[k] == s[k]);
                    assert(step_tick(s[k]) < step_tick(s[s.len() - 1]));
                }
            }
            assert forall|i: int| 0 <= i < a.len() implies exists|j: int|
                0 <= j < s.len() && #[trigger] a[i] == s[j] by {
                if i == a.len() - 1 {
                    assert(a[i] == s[s.len() - 1]);
                } else {
                    assert(a[i] == r[i]);
                }
            }
        } else {
            assert(a == r);
        }
    }
}

/// Authors a frame's commands from its planned steps, in order: each
/// authored step takes the next command sequence and joins the pending
/// commands; a forecast step allocates nothing. When the sequence space runs
/// out, the commands authored before stay pending and the frame is refused.
pub fn author_frame(
    pending: &mut Vec<PendingCommand>,
    sequence: &mut u64,
    owner: CommandOwner,
    steps: &Vec<TickStep>,
) -> (result: Result<(), CommandError>)
    ensures
        authored_steps(steps@).len() <= u64::MAX - *old(sequence) ==> {
            &&& result is Ok
            &&& final(pending)@ == old(pending)@ + authored_commands(
                owner,
                *old(sequence),
                authored_steps(steps@),
            )
            &&& *final(sequence) == *old(sequence) + authored_steps(steps@).len()
        },
        authored_steps(steps@).len() > u64::MAX - *old(sequence) ==> {
            &&& result == Err::<(), CommandError>(CommandError::SequenceExhausted)
            &&& final(pending)@ == old(pending)@ + authored_commands(
                owner,
                *old(sequence),
                authored_steps(steps@).take(u64::MAX - *old(sequence)),
            )
            &&& *final(sequence) == u64::MAX
        },
{
    let ghost start = pending@;
    let ghost s0 = *sequence;
    let n = steps.len();
    for i in 0..n
        invariant
            n == steps@.len(),
            start == old(pending)@,
            s0 == *old(sequence),
            pending@ == start + authored_commands(owner, s0, authored_steps(steps@.take(i as int))),
            *sequence == s0 + authored_steps(steps@.take(i as int)).len(),
    {
        let step = steps[i];
        let ghost done = authored_steps(steps@.take(i as int));
        proof {
            reveal(Seq::filter);
            assert(steps@.take(i as int + 1).drop_last() =~= steps@.take(i as int));
            assert(steps@.take(i as int + 1).last() == step);
        }
        match step {
            TickStep::Forecast(_) => {},
            TickStep::Author(tick) => {
                match next_sequence(*sequence) {
                    Ok(next) => {
                        pending.push(PendingCommand { owner, sequence: next, target: tick });
                        *sequence = next;
                        proof {
                            assert(start + authored_commands(owner, s0, done.push(step)) =~= (start
                                + authored_commands(owner, s0, done)).push(
                                PendingCommand { owner, sequence: next, target: tick },
                            ));
                        }
                    },
                    Err(e) => {
                        proof {
                            lemma_authored_prefix(steps@, i as int);
                            lemma_authored_prefix(steps@, i as int + 1);
                            assert(authored_steps(steps@.take(i as int + 1)) == done.push(step));
                        }
                        return Err(e);
                    },
                }
            },
        }
    }
    assert(steps@.take(n as int) =~= steps@);
    Ok(())
}

// ---------------------------------------------------------------- laws

/// A forecast gap authors intent only at its fresh head: every earlier tick
/// of the frame is a substitute, and the head is authored.
pub proof fn law_forecast_authors_only_head(current: u64, target: u64)
    requires
        current < target,
    ensures
        steps_spec(current, target, true).len() == target - current,
        forall|i: int|
            0 <= i < target - current - 1 ==> #[trigger] steps_spec(current, target, true)[i]
                == TickStep::Forecast((current + 1 + i) as u64),
        steps_spec(current, target, true)[target - current - 1] == TickStep::Author(target),
{
}

/// Without a forecast gap every new tick consumes its own hardware sample.
pub proof fn law_contiguous_ticks_are_authored(current: u64, target: u64)
    requires
        current < target,
    ensures
        forall|i: int|
            0 <= i < target - current ==> #[trigger] steps_spec(current, target, false)[i]
                == TickStep::Author((current + 1 + i) as u64),
{
}

/// A capture deadline never moves before the previous one.
pub proof fn law_capture_deadline_never_drains_backward(now: u64, offset: u64, previous: u64)
    ensures
        capture_deadline_spec(now, offset, Some(previous)) >= previous,
{
}

/// A retry happens at most once per committed progress: the same or older
/// progress opens no window, newer progress always asks for one.
pub proof fn law_retry_once_per_progress(committed: u64, last: u64, future_ticks: u16)
    ensures
        committed <= last ==> retry_window_spec(committed, Some(last), future_ticks) == Ok::<
            Option<u64>,
            CommandError,
        >(None),
        committed > last ==> !(retry_window_spec(committed, Some(last), future_ticks) == Ok::<
            Option<u64>,
            CommandError,
        >(None)),
{
}

/// A retry resends at most `limit` commands, each the current owner's,
/// inside the window and not already sent this frame.
pub proof fn law_retry_stays_in_window(
    pending: Seq<PendingCommand>,
    owner: CommandOwner,
    committed: u64,
    through: u64,
    covered: Seq<u64>,
    limit: usize,
)
    ensures
        retry_spec(pending, owner, committed, through, covered, limit).len() <= limit,
        forall|k: int|
            0 <= k < retry_spec(pending, owner, committed, through, covered, limit).len()
                ==> retry_keep(
                #[trigger] retry_spec(pending, owner, committed, through, covered, limit)[k],
                owner,
                committed,
                through,
                covered,
            ),
{
    lemma_retry_kept(pending, owner, committed, through, covered);
    let all = retry_all(pending, owner, committed, through, covered);
    let r = retry_spec(pending, owner, committed, through, covered, limit);
    assert forall|k: int| 0 <= k < r.len() implies retry_keep(
        #[trigger] r[k],
        owner,
        committed,
        through,
        covered,
    ) by {
        assert(r[k] == all[k]);
    }
}

/// After finalization no pending command targets a finalized tick.
pub proof fn law_finalized_commands_leave_pending(s: Seq<PendingCommand>, through: u64)
    ensures
        forall|k: int|
            0 <= k < unfinalized_spec(s, through).len() ==> #[trigger] unfinalized_spec(
                s,
                through,
            )[k].target > through,
    decreases s.len(),
{
    reveal(Seq::filter);
    if s.len() > 0 {
        law_finalized_commands_leave_pending(s.drop_last(), through);
        let r = unfinalized_spec(s.drop_last(), through);
        let t = unfinalized_spec(s, through);
        assert forall|k: int| 0 <= k < t.len() implies #[trigger] t[k].target > through by {
            if k < r.len() {
                assert(t[k] == r[k]);
            }
        }
    }
}

/// A frame's generation keeps the pending commands and appends, in order,
/// the commands its plan authors: their sequences follow the last one issued
/// one by one, and their targets rise strictly, all after the owner's
/// predicted tick; forecast ticks take no sequence.
pub proof fn law_generation_appends_in_order(
    owner: CommandOwner,
    sequence: u64,
    current: u64,
    target: u64,
    forecast_gap: bool,
)
    ensures
        ({
            let authored = authored_steps(steps_spec(current, target, forecast_gap));
            let a = authored_commands(owner, sequence, authored);
            &&& forall|k: int| 0 <= k < a.len() ==> (#[trigger] a[k]).sequence == (sequence + 1 + k) as u64
            &&& forall|i: int, j: int| 0 <= i < j < a.len() ==> a[i].target < a[j].target
            &&& forall|k: int| 0 <= k < a.len() ==> (#[trigger] a[k]).target > current
        }),
{
    let s = steps_spec(current, target, forecast_gap);
    assert forall|i: int, j: int| 0 <= i < j < s.len() implies step_tick(s[i]) < step_tick(s[j]) by {}
    assert forall|i: int| 0 <= i < s.len() implies step_tick(#[trigger] s[i]) > current by {}
    lemma_authored_sorted(s, current);
    let authored = authored_steps(s);
    let a = authored_commands(owner, sequence, authored);
    assert forall|i: int, j: int| 0 <= i < j < a.len() implies a[i].target < a[j].target by {
        assert(a[i].target == step_tick(authored[i]));
        assert(a[j].target == step_tick(authored[j]));
    }
    assert forall|k: int| 0 <= k < a.len() implies (#[trigger] a[k]).target > current by {
        assert(a[k].target == step_tick(authored[k]));
    }
}

} // verus!
