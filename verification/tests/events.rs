use dreamwake_client::events::{
    cue_completed, object_origin, publish_bookkeeping, outcome_is_retired, replay_window_start, retire_target,
    CreatedEvent, CueCounters, CueError, JournalEntry,
};

fn entry(live: bool, origin: u64, command: u64) -> JournalEntry {
    JournalEntry { live, origin, command }
}

#[test]
fn cue_counters_count_each_created_cue_once() {
    let mut counters = CueCounters::new();
    counters
        .count(&vec![CreatedEvent::CastSound, CreatedEvent::Object, CreatedEvent::CastCamera])
        .unwrap();
    counters.count(&vec![CreatedEvent::CastSound]).unwrap();
    assert_eq!(counters, CueCounters { sounds: 2, camera_cues: 1 });
}

#[test]
fn cue_capacity_stops_at_the_first_overflowing_cue() {
    let mut counters = CueCounters { sounds: 255, camera_cues: 3 };
    assert_eq!(
        counters.count(&vec![
            CreatedEvent::CastCamera,
            CreatedEvent::CastSound,
            CreatedEvent::CastSound,
            CreatedEvent::CastCamera,
        ]),
        Err(CueError::Capacity)
    );
    assert_eq!(counters, CueCounters { sounds: 256, camera_cues: 4 });
    assert_eq!(CueError::Capacity.message(), "presentation cue capacity");
}

#[test]
fn retirement_follows_settled_commands_below_the_live_head() {
    let entries = vec![
        entry(false, 10, 4),
        entry(false, 12, 6),
        entry(true, 40, 9),
        entry(false, 20, 11),
        entry(false, 80, 7),
    ];
    // Window starts at 30: settled entries older than it and below the live
    // head 9 are commands 4 and 6.
    assert_eq!(retire_target(&entries, 30, None, 0), Some(6));
    assert_eq!(retire_target(&entries, 30, None, 6), None);
    // A retained input head of 12 would allow retiring through 11, but the
    // live head 9 bounds it at 8.
    assert_eq!(retire_target(&entries, 30, Some(12), 0), Some(8));
    assert_eq!(retire_target(&entries, 30, Some(5), 0), Some(6));
}

#[test]
fn without_live_entries_the_input_head_bounds_retirement() {
    let entries = vec![entry(false, 10, 4), entry(false, 90, 20)];
    assert_eq!(retire_target(&entries, 50, Some(15), 3), Some(14));
    assert_eq!(retire_target(&entries, 50, None, 3), Some(4));
    assert_eq!(retire_target(&vec![], 50, None, 3), None);
    assert_eq!(retire_target(&vec![], 50, Some(1), 0), None);
}

#[test]
fn outcomes_for_retired_commands_are_ignored() {
    assert!(outcome_is_retired(5, 5));
    assert!(!outcome_is_retired(6, 5));
}

#[test]
fn checkpoint_objects_keep_their_first_known_origin_inside_the_window() {
    assert_eq!(replay_window_start(300), 45);
    assert_eq!(replay_window_start(100), 0);
    assert_eq!(object_origin(Some(50), Some(60), 300, 45), Some(50));
    assert_eq!(object_origin(None, Some(60), 300, 45), Some(60));
    assert_eq!(object_origin(None, None, 300, 45), Some(300));
    assert_eq!(object_origin(Some(40), Some(60), 300, 45), None);
}

#[test]
fn cues_complete_after_their_lifetime() {
    assert!(!cue_completed(100, 253));
    assert!(cue_completed(100, 254));
    assert!(!cue_completed(0, 153));
    assert!(!cue_completed(u64::MAX - 10, u64::MAX));
}

#[test]
fn publish_bookkeeping_counts_cues_then_retires_below_the_window() {
    let entries = vec![entry(false, 10, 4), entry(false, 12, 6), entry(true, 40, 9)];
    let created = vec![CreatedEvent::CastSound, CreatedEvent::CastCamera];
    let mut counters = CueCounters::new();
    assert_eq!(publish_bookkeeping(&mut counters, None, true, &created, &entries, None, 0), Ok(None));
    assert_eq!(publish_bookkeeping(&mut counters, Some(300), false, &created, &entries, None, 0), Ok(None));
    assert_eq!(counters, CueCounters::new());
    // The window starts at 300 - 255 = 45.
    assert_eq!(
        publish_bookkeeping(&mut counters, Some(300), true, &created, &entries, None, 0),
        Ok(Some(6))
    );
    assert_eq!(counters, CueCounters { sounds: 1, camera_cues: 1 });
    assert_eq!(
        publish_bookkeeping(&mut counters, Some(300), true, &vec![], &entries, None, 6),
        Ok(None)
    );
    let mut full = CueCounters { sounds: 256, camera_cues: 0 };
    assert_eq!(
        publish_bookkeeping(&mut full, Some(300), true, &created, &entries, None, 0),
        Err(CueError::Capacity)
    );
    assert_eq!(full, CueCounters { sounds: 256, camera_cues: 0 });
}
