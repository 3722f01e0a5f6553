use dreamwake_client::autoplay::{
    autoplay_decision, press_edges, AutoplayAction, AutoplayDecision, AutoplayPhase,
    AutoplaySettings,
};
use dreamwake_client::ui::{UiAction, UiActions};

struct Playtest {
    settings: AutoplaySettings,
    next_decision: f64,
}

/// One autoplay frame at `now` seconds; a decision waits 1.1 s for the next.
fn step(
    test: &mut Playtest,
    now: f64,
    connected: bool,
    actions: &mut UiActions,
    phase: AutoplayPhase,
) -> AutoplayDecision {
    let due = !(now < test.next_decision);
    let decision =
        autoplay_decision(test.settings, due, false, connected, 1, 1, actions.0.is_empty(), phase);
    match decision {
        AutoplayDecision::Restart => {
            actions.0.push(UiAction::Restart);
            test.next_decision = now + 1.1;
        }
        AutoplayDecision::Send(_) => test.next_decision = now + 1.1,
        AutoplayDecision::Idle => {}
    }
    decision
}

#[test]
fn terminal_restart_is_explicit_paced_and_uses_the_normal_ui_queue() {
    for _phase in ["victory", "defeat"] {
        let mut test = Playtest {
            settings: AutoplaySettings {
                autoplay: true,
                manual_rewards: false,
                restart_on_terminal: false,
            },
            next_decision: 0.0,
        };
        let mut actions = UiActions::new();
        let mut now = 0.0;
        step(&mut test, now, true, &mut actions, AutoplayPhase::Terminal);
        // Ordinary autoplay stays terminal.
        assert!(actions.0.is_empty());
        test.settings.restart_on_terminal = true;
        step(&mut test, now, false, &mut actions, AutoplayPhase::Terminal);
        assert!(actions.0.is_empty());
        actions.0.push(UiAction::TogglePause);
        step(&mut test, now, true, &mut actions, AutoplayPhase::Terminal);
        // Manual input is not overtaken.
        assert_eq!(actions.0.len(), 1);
        actions.0.clear();
        step(&mut test, now, true, &mut actions, AutoplayPhase::Terminal);
        assert_eq!(actions.0, vec![UiAction::Restart]);
        actions.0.clear();
        step(&mut test, now, true, &mut actions, AutoplayPhase::Terminal);
        assert!(actions.0.is_empty());
        now += 1.1;
        step(&mut test, now, true, &mut actions, AutoplayPhase::Terminal);
        assert_eq!(actions.0, vec![UiAction::Restart]);
        assert_eq!(test.next_decision, 2.2);
    }
}

#[test]
fn autoplay_starts_chooses_and_continues_for_the_party() {
    let settings = AutoplaySettings { autoplay: true, manual_rewards: false, restart_on_terminal: false };
    let run = |phase, party: usize| autoplay_decision(settings, true, false, true, party, 2, true, phase);
    assert_eq!(
        run(AutoplayPhase::Intro { ready: false }, 2),
        AutoplayDecision::Send(AutoplayAction::Start { lucid: false })
    );
    assert_eq!(run(AutoplayPhase::Intro { ready: false }, 1), AutoplayDecision::Idle);
    assert_eq!(run(AutoplayPhase::Intro { ready: true }, 2), AutoplayDecision::Idle);
    assert_eq!(
        run(AutoplayPhase::Choice { awaiting_party: false, rewards: 3, room: 5, level: 4 }, 2),
        AutoplayDecision::Send(AutoplayAction::Choose { choice: 0, slot: 1 })
    );
    assert_eq!(
        run(AutoplayPhase::Choice { awaiting_party: true, rewards: 3, room: 5, level: 4 }, 2),
        AutoplayDecision::Idle
    );
    assert_eq!(
        run(AutoplayPhase::Choice { awaiting_party: false, rewards: 0, room: 5, level: 4 }, 2),
        AutoplayDecision::Idle
    );
    assert_eq!(
        run(AutoplayPhase::Transition { ready: false }, 2),
        AutoplayDecision::Send(AutoplayAction::Continue)
    );
    let manual = AutoplaySettings { manual_rewards: true, ..settings };
    assert_eq!(
        autoplay_decision(
            manual,
            true,
            false,
            true,
            2,
            2,
            true,
            AutoplayPhase::Choice { awaiting_party: false, rewards: 3, room: 5, level: 4 }
        ),
        AutoplayDecision::Idle
    );
    assert_eq!(
        autoplay_decision(settings, true, true, true, 2, 2, true, AutoplayPhase::Intro { ready: false }),
        AutoplayDecision::Idle
    );
}

#[test]
fn held_autoplay_buttons_press_once() {
    let held = [true, false, true, false, false];
    assert_eq!(press_edges(held, [false; 5]), held);
    assert_eq!(press_edges(held, held), [false; 5]);
    assert_eq!(
        press_edges([true, true, false, false, true], held),
        [false, true, false, false, true]
    );
}
