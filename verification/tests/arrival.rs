use dreamwake_client::arrival::{
    ArrivalBook, ArrivalFeedback, ArrivalSample, FeedbackError, FeedbackVerdict,
};

/// Records an issuance the way a frame does after sending `sequence`.
fn issue(book: &mut ArrivalBook, current: &mut u64, sequence: u64, target: u64, newest: u64) {
    *current = sequence;
    book.record_issuance(sequence, target, newest);
}

fn late(sequence: u64, target: u64, count: u64) -> ArrivalFeedback {
    ArrivalFeedback {
        sample: Some(ArrivalSample { sequence, target, arrival_tick: target, slack: 0 }),
        observed_commands: count,
        late_commands: count,
    }
}

/// The lead controller answers a late command (no slack) by raising the
/// lead one tick; a raised lead starts a new policy in the book.
fn observe(
    book: &mut ArrivalBook,
    lead: &mut u8,
    feedback: ArrivalFeedback,
    current: u64,
) -> Result<FeedbackVerdict, FeedbackError> {
    let verdict = book.observe_feedback(feedback, true, current)?;
    if verdict == FeedbackVerdict::Apply(0) {
        *lead += 1;
        book.lead_changed().unwrap();
    }
    Ok(verdict)
}

#[test]
fn feedback_waits_for_commands_that_benefited_from_the_current_policy() {
    let mut book = ArrivalBook::new();
    let mut lead = 3u8;
    let mut current = 0u64;
    for sequence in 1..=4 {
        issue(&mut book, &mut current, sequence, sequence + 10, 11);
    }
    observe(&mut book, &mut lead, late(1, 11, 1), current).unwrap();
    assert_eq!(lead, 4);
    observe(&mut book, &mut lead, late(2, 12, 2), current).unwrap();
    // Old in-flight input cannot retune the new policy.
    assert_eq!(lead, 4);

    // A lead increase fills targets below its first new head. They remain valid
    // commands and their missed deadlines are counted, but are not new-policy proof.
    for (sequence, target) in [(5, 15), (6, 16), (7, 17)] {
        issue(&mut book, &mut current, sequence, target, 17);
    }
    observe(&mut book, &mut lead, late(6, 16, 3), current).unwrap();
    assert_eq!(lead, 4);
    observe(&mut book, &mut lead, late(7, 17, 4), current).unwrap();
    assert_eq!(lead, 5);
    assert_eq!(book.feedback().late_commands, 4);
    assert_eq!(book.feedback().observed_commands, 4);
    assert_eq!(book.applied(), 2);
    assert_eq!(book.ignored(), 2);
    assert_eq!(book.policy(), 2);
}

#[test]
fn impossible_arrival_identity_and_counters_are_rejected_without_tuning() {
    let mut book = ArrivalBook::new();
    let mut lead = 3u8;
    let mut current = 0u64;
    issue(&mut book, &mut current, 1, 11, 11);
    // Future sequence, a different immutable target, and a missing unretired
    // sequence are errors rather than vaguely classified old feedback.
    for invalid in [late(2, 12, 1), late(1, 12, 1)] {
        assert_eq!(
            observe(&mut book, &mut lead, invalid, current),
            Err(FeedbackError::InvalidSample)
        );
        assert_eq!(book.feedback(), ArrivalFeedback::initial());
    }
    current = 3;
    assert_eq!(
        observe(&mut book, &mut lead, late(2, 12, 1), current),
        Err(FeedbackError::InvalidSample)
    );
    observe(&mut book, &mut lead, late(1, 11, 1), current).unwrap();
    let committed_feedback = book.feedback();
    assert_eq!(
        observe(&mut book, &mut lead, late(1, 11, 2), current),
        Err(FeedbackError::InvalidSample)
    );
    assert_eq!(
        observe(&mut book, &mut lead, ArrivalFeedback::initial(), current),
        Err(FeedbackError::InvalidSample)
    );
    assert_eq!(book.feedback(), committed_feedback);
    assert_eq!(lead, 4);
}

#[test]
fn bounded_retired_history_and_recovery_ignore_only_proven_old_issuance() {
    let mut book = ArrivalBook::new();
    let mut lead = 3u8;
    let mut current = 0u64;
    for sequence in 1..=257 {
        issue(&mut book, &mut current, sequence, sequence + 10, 11);
    }
    observe(&mut book, &mut lead, late(1, 11, 1), current).unwrap();
    assert_eq!(lead, 3);
    assert_eq!(book.ignored(), 1);
    book.recover(current);
    observe(&mut book, &mut lead, late(257, 267, 2), current).unwrap();
    assert_eq!(book.ignored(), 2);
    assert_eq!(
        observe(&mut book, &mut lead, late(258, 268, 3), current),
        Err(FeedbackError::InvalidSample)
    );
    assert_eq!(book.feedback().late_commands, 2);
}

#[test]
fn feedback_without_sample_updates_counters_and_clears_slack() {
    let mut book = ArrivalBook::new();
    book.record_issuance(1, 11, 11);
    assert_eq!(book.observe_feedback(late(1, 11, 1), true, 1), Ok(FeedbackVerdict::Apply(0)));
    assert_eq!(book.slack(), Some(0));
    let counters = ArrivalFeedback { sample: None, observed_commands: 3, late_commands: 1 };
    assert_eq!(book.observe_feedback(counters, true, 1), Ok(FeedbackVerdict::NoSample));
    assert_eq!(book.slack(), None);
    assert_eq!(book.feedback(), counters);
}

#[test]
fn protocol_invalid_or_inconsistent_counters_are_refused() {
    let mut book = ArrivalBook::new();
    book.record_issuance(1, 11, 11);
    assert_eq!(
        book.observe_feedback(late(1, 11, 1), false, 1),
        Err(FeedbackError::InvalidSample)
    );
    let more_late_than_seen = ArrivalFeedback { sample: None, observed_commands: 1, late_commands: 2 };
    assert_eq!(
        book.observe_feedback(more_late_than_seen, true, 1),
        Err(FeedbackError::InvalidSample)
    );
    assert_eq!(book.feedback(), ArrivalFeedback::initial());
    assert_eq!(book.applied(), 0);
}

#[test]
fn lead_change_starts_a_policy_that_old_commands_cannot_prove() {
    let mut book = ArrivalBook::new();
    book.record_issuance(1, 11, 11);
    book.lead_changed().unwrap();
    assert_eq!(book.policy(), 1);
    let sample = ArrivalFeedback {
        sample: Some(ArrivalSample { sequence: 1, target: 11, arrival_tick: 9, slack: 2 }),
        observed_commands: 1,
        late_commands: 0,
    };
    assert_eq!(book.observe_feedback(sample, true, 1), Ok(FeedbackVerdict::Ignored));
    assert_eq!(book.slack(), Some(2));
    book.record_issuance(2, 12, 12);
    let next = ArrivalFeedback {
        sample: Some(ArrivalSample { sequence: 2, target: 12, arrival_tick: 10, slack: 2 }),
        observed_commands: 2,
        late_commands: 0,
    };
    assert_eq!(book.observe_feedback(next, true, 2), Ok(FeedbackVerdict::Apply(2)));
}
