use dreamwake_client::arrival::{ArrivalBook, ArrivalFeedback, ArrivalSample, FeedbackVerdict};
use dreamwake_client::arrival::FeedbackError;
use dreamwake_client::commands::{CommandOwner, PendingCommand};
use dreamwake_client::control::{apply_finalized, settle_finalized, Finalization, FinalizedError, LeadStep};

fn late(sequence: u64, target: u64, count: u64) -> ArrivalFeedback {
    ArrivalFeedback {
        sample: Some(ArrivalSample { sequence, target, arrival_tick: target, slack: 0 }),
        observed_commands: count,
        late_commands: count,
    }
}

/// A finalization publication through `through` whose receipts start at
/// `first`, handled as the control lane does: only an advancing
/// publication reaches the arrival feedback.
fn finalize(
    state: &mut Finalization,
    book: &mut ArrivalBook,
    through: u64,
    first: u64,
    feedback: ArrivalFeedback,
    current_sequence: u64,
) -> Option<FeedbackVerdict> {
    let advanced = state.advance(through, Some(first)).unwrap();
    let verdict =
        if advanced { Some(book.observe_feedback(feedback, true, current_sequence).unwrap()) } else { None };
    state.complete(through, None);
    verdict
}

#[test]
fn duplicate_and_older_finalization_never_retunes_the_lead() {
    let mut state = Finalization { finalized: 10, ack_pending: None, in_flight_action: None };
    let mut book = ArrivalBook::new();
    book.record_issuance(1, 11, 11);
    assert_eq!(
        finalize(&mut state, &mut book, 11, 11, late(1, 11, 1), 1),
        Some(FeedbackVerdict::Apply(0))
    );
    book.lead_changed().unwrap();
    for (through, first) in [(11, 11), (10, 10), (11, 11), (10, 10)] {
        assert_eq!(finalize(&mut state, &mut book, through, first, late(1, 11, 1), 1), None);
        assert_eq!(state.finalized, 11);
        assert_eq!(state.ack_pending, Some(11));
        assert_eq!(book.applied(), 1);
    }
    // A new command under the new policy still carries genuine evidence.
    book.record_issuance(2, 12, 12);
    assert_eq!(
        finalize(&mut state, &mut book, 12, 12, late(2, 12, 2), 2),
        Some(FeedbackVerdict::Apply(0))
    );
    assert_eq!(book.feedback().late_commands, 2);
    assert_eq!(book.applied(), 2);
}

fn pending(sequence: u64, target: u64) -> PendingCommand {
    PendingCommand { owner: CommandOwner { epoch: 1, stream: 1, ownership: 1 }, sequence, target }
}

#[test]
fn finalized_step_applies_feedback_only_when_finalization_advances() {
    let mut state = Finalization { finalized: 10, ack_pending: None, in_flight_action: Some(3) };
    let mut book = ArrivalBook::new();
    book.record_issuance(1, 11, 11);
    let mut queue = vec![pending(1, 11), pending(2, 12)];
    assert_eq!(
        apply_finalized(&mut state, &mut book, 11, Some(11), late(1, 11, 1), true, 2),
        Ok(Some(FeedbackVerdict::Apply(0)))
    );
    // Nothing is acknowledged before the lead step.
    assert_eq!(state, Finalization { finalized: 11, ack_pending: None, in_flight_action: Some(3) });
    assert_eq!(settle_finalized(&mut state, &mut book, &mut queue, 11, Some(3), LeadStep::Changed), Ok(()));
    assert_eq!(state, Finalization { finalized: 11, ack_pending: Some(11), in_flight_action: None });
    assert_eq!(queue, vec![pending(2, 12)]);
    assert_eq!(book.applied(), 1);
    assert_eq!(book.policy(), 1);
    // A repeated publication acknowledges again but never reaches the feedback.
    assert_eq!(apply_finalized(&mut state, &mut book, 11, Some(11), late(1, 11, 1), false, 2), Ok(None));
    assert_eq!(settle_finalized(&mut state, &mut book, &mut queue, 11, None, LeadStep::Kept), Ok(()));
    assert_eq!(state.finalized, 11);
    assert_eq!(book.applied(), 1);
}

#[test]
fn finalized_step_refuses_gaps_and_contradicting_feedback_without_acknowledging() {
    let mut state = Finalization { finalized: 10, ack_pending: None, in_flight_action: None };
    let mut book = ArrivalBook::new();
    book.record_issuance(1, 11, 11);
    assert_eq!(
        apply_finalized(&mut state, &mut book, 12, Some(12), late(1, 11, 1), true, 1),
        Err(FinalizedError::ReceiptGap)
    );
    assert_eq!(state, Finalization { finalized: 10, ack_pending: None, in_flight_action: None });
    assert_eq!(
        apply_finalized(&mut state, &mut book, 11, Some(11), late(1, 11, 1), false, 1),
        Err(FinalizedError::Feedback(FeedbackError::InvalidSample))
    );
    assert_eq!(state, Finalization { finalized: 11, ack_pending: None, in_flight_action: None });
    assert_eq!(book.applied(), 0);
}

#[test]
fn finalized_lead_refusal_keeps_the_finalized_tick_unacknowledged() {
    let mut state = Finalization { finalized: 10, ack_pending: None, in_flight_action: Some(4) };
    let mut book = ArrivalBook::new();
    book.record_issuance(1, 11, 11);
    let mut queue = vec![pending(1, 11)];
    assert_eq!(
        apply_finalized(&mut state, &mut book, 11, Some(11), late(1, 11, 1), true, 1),
        Ok(Some(FeedbackVerdict::Apply(0)))
    );
    assert_eq!(
        settle_finalized(&mut state, &mut book, &mut queue, 11, Some(4), LeadStep::Refused),
        Err(FinalizedError::LeadRefused)
    );
    assert_eq!(state, Finalization { finalized: 11, ack_pending: None, in_flight_action: Some(4) });
    assert_eq!(queue, vec![pending(1, 11)]);
}
