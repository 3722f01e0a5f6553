//! Playtest autoplay: held buttons become single press edges, and the
//! autoplayer's menu decisions wait for the party and never overtake
//! manual input.
use vstd::prelude::*;

verus! {

/// Autoplay's held dash and four cast buttons become presses only on the
/// frame they go down.
pub open spec fn press_spec(current: [bool; 5], previous: [bool; 5], i: int) -> bool {
    current@[i] && !previous@[i]
}

/// The presses of this frame; the caller keeps `current` as the next
/// frame's `previous`.
pub fn press_edges(current: [bool; 5], previous: [bool; 5]) -> (result: [bool; 5])
    ensures
        forall|i: int| 0 <= i < 5 ==> #[trigger] result@[i] == press_spec(current, previous, i),
{
    let mut result = [false; 5];
    for i in 0..5
        invariant
            forall|k: int| 0 <= k < i ==> #[trigger] result@[k] == press_spec(current, previous, k),
            forall|k: int| i <= k < 5 ==> !#[trigger] result@[k],
    {
        result[i] = current[i] && !previous[i];
    }
    result
}

/// What the autoplayer reads of the shared view.
#[derive(Clone, Copy, Debug, PartialEq, Eq, Structural)]
pub enum AutoplayPhase {
    Intro { ready: bool },
    /// A reward or rest choice.
    Choice { awaiting_party: bool, rewards: usize, room: usize, level: u32 },
    Transition { ready: bool },
    /// Victory or defeat.
    Terminal,
    Other,
}

/// The playtest's switches.
#[derive(Clone, Copy, Debug, PartialEq, Eq, Structural)]
pub struct AutoplaySettings {
    pub autoplay: bool,
    pub manual_rewards: bool,
    pub restart_on_terminal: bool,
}

/// A menu action the autoplayer sends to the server.
#[derive(Clone, Copy, Debug, PartialEq, Eq, Structural)]
pub enum AutoplayAction {
    Start { lucid: bool },
    Choose { choice: u8, slot: u8 },
    Continue,
}

/// What the autoplayer does this frame.
#[derive(Clone, Copy, Debug, PartialEq, Eq, Structural)]
pub enum AutoplayDecision {
    /// Nothing, and the next decision time stays.
    Idle,
    /// Queue a restart through the interface's action queue, then wait.
    Restart,
    /// Send this menu action, then wait.
    Send(AutoplayAction),
}

/// The reward an autoplayer picks and the memory slot it targets.
pub open spec fn choice_spec(rewards: usize, room: usize, level: u32) -> AutoplayAction {
    AutoplayAction::Choose {
        choice: ((room + level) % (rewards as int)) as u8,
        slot: (room % 4) as u8,
    }
}

/// `due` says the next decision time has come, `panel_open` whether the
/// Traveler ID panel is open, `queue_empty` whether the interface queue
/// holds no manual action.
pub open spec fn autoplay_spec(
    settings: AutoplaySettings,
    due: bool,
    panel_open: bool,
    connected: bool,
    party_size: usize,
    expected_party: usize,
    queue_empty: bool,
    phase: AutoplayPhase,
) -> AutoplayDecision {
    if !settings.autoplay || !due || panel_open || !connected || party_size < expected_party {
        AutoplayDecision::Idle
    } else if settings.restart_on_terminal && phase is Terminal {
        if queue_empty {
            AutoplayDecision::Restart
        } else {
            AutoplayDecision::Idle
        }
    } else {
        match phase {
            AutoplayPhase::Intro { ready } => if !ready {
                AutoplayDecision::Send(AutoplayAction::Start { lucid: false })
            } else {
                AutoplayDecision::Idle
            },
            AutoplayPhase::Choice { awaiting_party, rewards, room, level } => if !settings.manual_rewards
                && !awaiting_party && rewards > 0 {
                AutoplayDecision::Send(choice_spec(rewards, room, level))
            } else {
                AutoplayDecision::Idle
            },
            AutoplayPhase::Transition { ready } => if !ready {
                AutoplayDecision::Send(AutoplayAction::Continue)
            } else {
                AutoplayDecision::Idle
            },
            _ => AutoplayDecision::Idle,
        }
    }
}

/// Decides the autoplayer's move.
pub fn autoplay_decision(
    settings: AutoplaySettings,
    due: bool,
    panel_open: bool,
    connected: bool,
    party_size: usize,
    expected_party: usize,
    queue_empty: bool,
    phase: AutoplayPhase,
) -> (result: AutoplayDecision)
    requires
        phase matches AutoplayPhase::Choice { room, level, .. } ==> room + level <= usize::MAX,
    ensures
        result == autoplay_spec(
            settings,
            due,
            panel_open,
            connected,
            party_size,
            expected_party,
            queue_empty,
            phase,
        ),
{
    if !settings.autoplay || !due || panel_open || !connected || party_size < expected_party {
        return AutoplayDecision::Idle;
    }
    if settings.restart_on_terminal {
        if let AutoplayPhase::Terminal = phase {
            return if queue_empty {
                AutoplayDecision::Restart
            } else {
                AutoplayDecision::Idle
            };
        }
    }
    match phase {
        AutoplayPhase::Intro { ready } => if !ready {
            AutoplayDecision::Send(AutoplayAction::Start { lucid: false })
        } else {
            AutoplayDecision::Idle
        },
        AutoplayPhase::Choice { awaiting_party, rewards, room, level } => if !settings.manual_rewards
            && !awaiting_party && rewards > 0 {
            let pick = (room + level as usize) % rewards;
            AutoplayDecision::Send(
                AutoplayAction::Choose { choice: pick as u8, slot: (room % 4) as u8 },
            )
        } else {
            AutoplayDecision::Idle
        },
        AutoplayPhase::Transition { ready } => if !ready {
            AutoplayDecision::Send(AutoplayAction::Continue)
        } else {
            AutoplayDecision::Idle
        },
        _ => AutoplayDecision::Idle,
    }
}

// ---------------------------------------------------------------- laws

/// A button held over consecutive frames presses once: after a frame in
/// which it was down, it yields no press.
pub proof fn law_held_button_presses_once(current: [bool; 5], i: int)
    requires
        0 <= i < 5,
    ensures
        !press_spec(current, current, i),
{
}

/// The autoplayer never overtakes queued manual input, and never acts
/// before the whole expected party is connected.
pub proof fn law_autoplay_waits_for_party_and_manual_input(
    settings: AutoplaySettings,
    due: bool,
    panel_open: bool,
    connected: bool,
    party_size: usize,
    expected_party: usize,
    phase: AutoplayPhase,
)
    ensures
        autoplay_spec(settings, due, panel_open, connected, party_size, expected_party, false, phase)
            != AutoplayDecision::Restart,
        (party_size < expected_party || !connected) ==> autoplay_spec(
            settings,
            due,
            panel_open,
            connected,
            party_size,
            expected_party,
            true,
            phase,
        ) == AutoplayDecision::Idle,
{
}

} // verus!
