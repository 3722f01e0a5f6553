use dreamwake_client::actions::{
    charge_command, first_edge, ActionQueue, BacklogError, ChargeCommand, EdgeAction, SlotEdge,
    ACTION_BACKLOG,
};

#[test]
fn coalesced_charge_press_release_use_distinct_commands_and_one_stable_episode() {
    let mut queue = ActionQueue::new();
    assert_eq!(
        queue
            .next_action(&vec![EdgeAction::ChargeBegin, EdgeAction::ChargeRelease { episode: 0 }], 41)
            .unwrap(),
        Some(EdgeAction::ChargeBegin)
    );
    assert_eq!(
        queue.next_action(&vec![], 42).unwrap(),
        Some(EdgeAction::ChargeRelease { episode: 41 })
    );
    assert!(queue.next_action(&vec![], 42).unwrap().is_none());
    assert!(queue.next_action(&vec![EdgeAction::ChargeCancel { episode: 0 }], 42).unwrap().is_none());
    assert_eq!(
        queue
            .next_action(&vec![EdgeAction::ChargeBegin, EdgeAction::ChargeCancel { episode: 0 }], 43)
            .unwrap(),
        Some(EdgeAction::ChargeBegin)
    );
    assert_eq!(
        queue.next_action(&vec![], 44).unwrap(),
        Some(EdgeAction::ChargeCancel { episode: 43 })
    );
    // Recovery creates a fresh session and cannot release a previous stream.
    let mut replacement = ActionQueue::new();
    assert!(replacement
        .next_action(&vec![EdgeAction::ChargeRelease { episode: 0 }], 1)
        .unwrap()
        .is_none());
}

#[test]
fn backlog_capacity_refuses_the_whole_sample() {
    let mut queue = ActionQueue::new();
    let edges = vec![EdgeAction::Other(7); ACTION_BACKLOG];
    assert_eq!(queue.next_action(&edges, 1), Ok(Some(EdgeAction::Other(7))));
    let two = vec![EdgeAction::Other(8), EdgeAction::Other(9)];
    assert_eq!(queue.next_action(&two, 2), Err(BacklogError::Capacity));
    assert_eq!(BacklogError::Capacity.message(), "Pending action capacity");
    // The refused edges were not queued: the backlog still drains in order.
    assert_eq!(queue.next_action(&vec![EdgeAction::Other(8)], 3), Ok(Some(EdgeAction::Other(7))));
}

#[test]
fn explicit_episodes_pass_through_and_recovery_drops_the_open_charge() {
    let mut queue = ActionQueue::new();
    assert_eq!(
        queue.next_action(&vec![EdgeAction::ChargeRelease { episode: 12 }], 5),
        Ok(Some(EdgeAction::ChargeRelease { episode: 12 }))
    );
    queue.next_action(&vec![EdgeAction::ChargeBegin, EdgeAction::Other(1)], 6).unwrap();
    assert_eq!(queue.charge_episode(), Some(6));
    queue.recover();
    assert_eq!(queue.charge_episode(), None);
    assert_eq!(queue.next_action(&vec![], 7), Ok(None));
}

#[test]
fn prediction_steps_with_the_lowest_slot_edge() {
    let edges = vec![
        SlotEdge { slot: 2, action: EdgeAction::Other(1) },
        SlotEdge { slot: 0, action: EdgeAction::ChargeBegin },
        SlotEdge { slot: 0, action: EdgeAction::Other(2) },
    ];
    assert_eq!(first_edge(&edges), Some(SlotEdge { slot: 0, action: EdgeAction::ChargeBegin }));
    assert_eq!(first_edge(&vec![]), None);
}

#[test]
fn charge_commands_carry_the_resolved_episode() {
    let mut queue = ActionQueue::new();
    let begin = queue
        .next_action(&vec![EdgeAction::ChargeBegin, EdgeAction::ChargeRelease { episode: 0 }], 41)
        .unwrap()
        .unwrap();
    assert_eq!(charge_command(begin, 41), Some(ChargeCommand::Begin { episode: 41 }));
    let release = queue.next_action(&vec![], 42).unwrap().unwrap();
    assert_eq!(charge_command(release, 42), Some(ChargeCommand::Release { episode: 41 }));
    assert_eq!(
        charge_command(EdgeAction::ChargeCancel { episode: 9 }, 50),
        Some(ChargeCommand::Cancel { episode: 9 })
    );
    assert_eq!(charge_command(EdgeAction::Other(3), 50), None);
}
