use dreamwake_client::actions::{ActionQueue, EdgeAction};
use dreamwake_client::commands::{
    author_frame, capture_deadline, defer_assignment, drop_included, forecast_gap, next_sequence,
    plan_commands,
    retain_unfinalized, retry_eligible, retry_frame, retry_window, ticks_behind,
    unstarted_prediction, CommandError, CommandOwner, CommandPlan, PendingCommand, TickStep,
};

const OWNER: CommandOwner = CommandOwner { epoch: 1, stream: 1, ownership: 1 };

fn pending(sequence: u64, target: u64) -> PendingCommand {
    PendingCommand { owner: OWNER, sequence, target }
}

#[test]
fn unstarted_prediction_is_the_admitted_checkpoint_without_commands() {
    assert!(unstarted_prediction(0, Some(40), false, Some(40)));
    assert!(!unstarted_prediction(1, Some(40), false, Some(40)));
    assert!(!unstarted_prediction(0, Some(41), true, Some(40)));
    assert!(!unstarted_prediction(0, Some(41), false, Some(40)));
    assert!(!unstarted_prediction(0, None, false, Some(40)));
}

#[test]
fn stale_bootstrap_waits_instead_of_assigning_a_target() {
    // The head would be 13 ticks past the checkpoint with room for 8.
    assert_eq!(defer_assignment(true, 40, 50, 3, Some(8)), Ok(true));
    assert_eq!(defer_assignment(true, 45, 50, 3, Some(8)), Ok(false));
    assert_eq!(defer_assignment(false, 0, 50, 3, None), Ok(false));
    assert_eq!(defer_assignment(true, 40, u64::MAX, 3, Some(8)), Err(CommandError::ClockRange));
    assert_eq!(defer_assignment(true, 40, 50, 3, None), Err(CommandError::MissingOwnerPrediction));
    assert_eq!(CommandError::ClockRange.message(), "clock range");
}

#[test]
fn forecast_gap_covers_bootstrap_and_frontiers_behind_the_estimate() {
    assert!(forecast_gap(0, Some(100), 50));
    assert!(forecast_gap(9, Some(49), 50));
    assert!(!forecast_gap(9, Some(50), 50));
    assert!(!forecast_gap(9, None, 50));
}

#[test]
fn forecast_gap_authors_only_the_fresh_head() {
    let plan = plan_commands(45, Some(40), 0, Some(16), true).unwrap();
    assert_eq!(
        plan,
        CommandPlan::Ticks(vec![
            TickStep::Forecast(41),
            TickStep::Forecast(42),
            TickStep::Forecast(43),
            TickStep::Forecast(44),
            TickStep::Author(45),
        ])
    );
    let contiguous = plan_commands(42, Some(40), 3, Some(16), false).unwrap();
    assert_eq!(contiguous, CommandPlan::Ticks(vec![TickStep::Author(41), TickStep::Author(42)]));
}

#[test]
fn frames_at_the_head_only_retry_and_oversized_gaps_are_discontinuities() {
    assert_eq!(plan_commands(40, Some(40), 0, Some(16), false), Ok(CommandPlan::RetryOnly));
    assert_eq!(plan_commands(39, Some(40), 0, None, false), Ok(CommandPlan::RetryOnly));
    assert_eq!(
        plan_commands(60, Some(40), 0, Some(16), false),
        Err(CommandError::HistoryDiscontinuity)
    );
    assert_eq!(
        plan_commands(50, Some(40), 250, Some(16), false),
        Err(CommandError::HistoryDiscontinuity)
    );
    assert_eq!(plan_commands(50, Some(40), 246, Some(16), false).map(|_| ()), Ok(()));
    assert_eq!(
        plan_commands(50, Some(40), 0, None, false),
        Err(CommandError::MissingOwnerPrediction)
    );
    assert_eq!(plan_commands(50, None, 0, Some(16), false), Err(CommandError::MissingOwnerPrediction));
}

#[test]
fn capture_deadlines_follow_the_tick_but_never_drain_backward() {
    assert_eq!(ticks_behind(41, 45), Ok(4));
    assert_eq!(ticks_behind(46, 45), Err(CommandError::TargetOrdering));
    let first = capture_deadline(1_000_000_000, Some(66_666_664), None).unwrap();
    assert_eq!(first, 933_333_336);
    // A raised lead would put this tick's deadline earlier: it pauses instead.
    assert_eq!(capture_deadline(1_010_000_000, Some(100_000_000), Some(first)), Ok(first));
    assert_eq!(capture_deadline(10, Some(100), None), Ok(0));
    assert_eq!(capture_deadline(10, None, None), Err(CommandError::InputClockRange));
}

#[test]
fn retries_happen_once_per_committed_progress() {
    assert_eq!(retry_window(100, None, 64), Ok(Some(164)));
    assert_eq!(retry_window(100, Some(100), 64), Ok(None));
    assert_eq!(retry_window(99, Some(100), 64), Ok(None));
    assert_eq!(retry_window(101, Some(100), 64), Ok(Some(165)));
    assert_eq!(retry_window(u64::MAX, Some(1), 64), Err(CommandError::RetryClockRange));
}

#[test]
fn retry_selects_the_oldest_eligible_commands_of_the_current_owner() {
    let other = CommandOwner { stream: 2, ..OWNER };
    let queue = vec![
        pending(1, 100),
        pending(2, 101),
        PendingCommand { owner: other, sequence: 3, target: 102 },
        pending(4, 103),
        pending(5, 104),
        pending(6, 170),
        pending(7, 105),
    ];
    let selected = retry_eligible(&queue, OWNER, 100, 164, &vec![4], 64);
    assert_eq!(selected, vec![pending(2, 101), pending(5, 104), pending(7, 105)]);
    let limited = retry_eligible(&queue, OWNER, 100, 164, &vec![], 2);
    assert_eq!(limited, vec![pending(2, 101), pending(4, 103)]);
}

#[test]
fn retry_frames_offer_the_oldest_records_newest_first() {
    let eligible: Vec<PendingCommand> = (1..=10).map(|s| pending(s, 100 + s)).collect();
    let (newest, older) = retry_frame(&eligible).unwrap();
    assert_eq!(newest, pending(8, 108));
    assert_eq!(older.iter().map(|c| c.sequence).collect::<Vec<_>>(), vec![7, 6, 5, 4, 3, 2, 1]);
    // The frame carried only the newest five records.
    let rest = drop_included(&eligible, &vec![8, 7, 6, 5, 4]);
    assert_eq!(rest.iter().map(|c| c.sequence).collect::<Vec<_>>(), vec![1, 2, 3, 9, 10]);
    let (newest, older) = retry_frame(&rest).unwrap();
    assert_eq!(newest, pending(10, 110));
    assert_eq!(older.len(), 4);
    assert_eq!(retry_frame(&vec![]), None);
}

#[test]
fn finalization_settles_commands_through_its_tick() {
    let queue = vec![pending(1, 100), pending(2, 101), pending(3, 99), pending(4, 102)];
    let rest = retain_unfinalized(&queue, 100);
    assert_eq!(rest, vec![pending(2, 101), pending(4, 102)]);
    assert_eq!(retain_unfinalized(&queue, 200), vec![]);
}

#[test]
fn frontier_ahead_of_estimate_keeps_contiguous_historical_capture_deadlines() {
    // The first frame authored command 1 for tick 557 at 9200 ms.
    let mut sequence = 1u64;
    let mut deadline = Some(9_200_000_000u64);
    let mut queue = ActionQueue::new();
    // The frontier (557) is ahead of the estimate (555): no forecast gap.
    assert!(!forecast_gap(sequence, Some(557), 555));
    let plan = plan_commands(560, Some(557), 1, Some(20), false).unwrap();
    let CommandPlan::Ticks(steps) = plan else { panic!("ticks to predict") };
    assert_eq!(steps, vec![TickStep::Author(558), TickStep::Author(559), TickStep::Author(560)]);
    let now = 9_250_000_000u64;
    let tick_nanos = 1_000_000_000u64 / 60;
    let mut edges = vec![EdgeAction::Other(7)];
    let mut actions = Vec::new();
    for step in steps {
        let TickStep::Author(tick) = step else { panic!("authored tick") };
        let behind = ticks_behind(tick, 560).unwrap();
        let next = capture_deadline(now, Some(behind * tick_nanos), deadline).unwrap();
        assert!(next >= deadline.unwrap());
        deadline = Some(next);
        sequence += 1;
        actions.push(queue.next_action(&edges, sequence).unwrap());
        edges.clear();
    }
    assert_eq!(sequence, 4);
    assert_eq!(actions, vec![Some(EdgeAction::Other(7)), None, None]);
    assert_eq!(deadline, Some(now));
}

#[test]
fn authored_sequences_advance_by_one_until_exhausted() {
    assert_eq!(next_sequence(0), Ok(1));
    assert_eq!(next_sequence(41), Ok(42));
    assert_eq!(next_sequence(u64::MAX - 1), Ok(u64::MAX));
    assert_eq!(next_sequence(u64::MAX), Err(CommandError::SequenceExhausted));
    assert_eq!(CommandError::SequenceExhausted.message(), "input sequence exhausted");
}

/// Frames every `frame_millis` on a 30 Hz simulation whose committed ticks
/// reach the client 100 ms late, starting from an owner checkpoint at tick
/// 10: each frame reconciles the owner frontier to what is known committed,
/// plans its ticks, authors them and drops what finalization settled. No
/// authored command may target a tick already known to be committed.
fn assert_generation_causality(frame_millis: u64) {
    let tick_millis: u64 = 33;
    let lead: u64 = 2;
    let mut pending: Vec<PendingCommand> = Vec::new();
    let mut sequence: u64 = 0;
    let mut predicted: u64 = 10;
    let mut authored = 0;
    let mut millis: u64 = 200;
    while millis <= 3000 {
        let known_committed = ((millis - 100) / tick_millis).saturating_sub(2).max(10);
        pending = retain_unfinalized(&pending, known_committed);
        if predicted < known_committed {
            predicted = known_committed;
        }
        let estimated = millis / tick_millis;
        let gap = forecast_gap(sequence, Some(predicted), estimated);
        let before = sequence;
        match plan_commands(estimated + lead, Some(predicted), pending.len(), Some(64), gap).unwrap() {
            CommandPlan::RetryOnly => {},
            CommandPlan::Ticks(steps) => {
                author_frame(&mut pending, &mut sequence, OWNER, &steps).unwrap();
                predicted = estimated + lead;
            },
        }
        for command in pending.iter().filter(|c| c.sequence > before) {
            assert!(
                command.target > known_committed,
                "command {} authored into committed tick {} ({frame_millis} ms frames)",
                command.sequence,
                command.target
            );
            authored += 1;
        }
        millis += frame_millis;
    }
    assert!(authored > 0);
}

#[test]
fn delayed_owner_with_33_ms_frames_never_authors_committed_input() {
    assert_generation_causality(33);
}

#[test]
fn delayed_owner_with_50_ms_frames_never_authors_committed_input() {
    assert_generation_causality(50);
}

#[test]
fn delayed_owner_with_63_ms_frames_never_authors_committed_input() {
    assert_generation_causality(63);
}

#[test]
fn frame_generation_appends_authored_commands_with_consecutive_sequences() {
    let mut queue = vec![pending(4, 20)];
    let mut sequence = 4;
    let steps = vec![TickStep::Forecast(21), TickStep::Forecast(22), TickStep::Author(23)];
    assert_eq!(author_frame(&mut queue, &mut sequence, OWNER, &steps), Ok(()));
    assert_eq!(queue, vec![pending(4, 20), pending(5, 23)]);
    assert_eq!(sequence, 5);
    let steps = vec![TickStep::Author(24), TickStep::Author(25), TickStep::Author(26)];
    assert_eq!(author_frame(&mut queue, &mut sequence, OWNER, &steps), Ok(()));
    assert_eq!(queue, vec![pending(4, 20), pending(5, 23), pending(6, 24), pending(7, 25), pending(8, 26)]);
    assert_eq!(sequence, 8);
}

#[test]
fn frame_generation_keeps_commands_authored_before_sequence_exhaustion() {
    let mut queue = Vec::new();
    let mut sequence = u64::MAX - 1;
    let steps = vec![TickStep::Author(30), TickStep::Forecast(31), TickStep::Author(32)];
    assert_eq!(
        author_frame(&mut queue, &mut sequence, OWNER, &steps),
        Err(CommandError::SequenceExhausted)
    );
    assert_eq!(queue, vec![pending(u64::MAX, 30)]);
    assert_eq!(sequence, u64::MAX);
}
