//! Interface actions and the Traveler ID panel's decisions.
use vstd::prelude::*;

verus! {

/// Something the interface asks the game or the connection to do.
#[derive(Clone, Copy, Debug, PartialEq, Eq, Structural)]
pub enum UiAction {
    Start { lucid: bool },
    Choose { choice: usize, slot: usize },
    Continue,
    Restart,
    TogglePause,
    ToggleBuild,
    ToggleMute,
    SelectSlot(usize),
    Swap(usize, usize),
    BuyMemoryUpgrade(usize),
    Host,
    Connect,
    Disconnect,
}

impl Default for UiAction {
    fn default() -> (result: UiAction)
        ensures
            result == UiAction::TogglePause,
    {
        UiAction::TogglePause
    }
}

/// The highest memory slot a reward can target.
pub const LAST_SLOT: usize = 3;

/// The action a pressed button sends: a reward choice targets the selected
/// memory slot, at most the last one.
pub open spec fn routed_spec(action: UiAction, selected_slot: usize) -> UiAction {
    match action {
        UiAction::Choose { choice, slot } => UiAction::Choose {
            choice,
            slot: if selected_slot <= LAST_SLOT {
                selected_slot
            } else {
                LAST_SLOT
            },
        },
        other => other,
    }
}

pub fn routed_action(action: UiAction, selected_slot: usize) -> (result: UiAction)
    ensures
        result == routed_spec(action, selected_slot),
{
    match action {
        UiAction::Choose { choice, slot } => UiAction::Choose {
            choice,
            slot: if selected_slot <= LAST_SLOT {
                selected_slot
            } else {
                LAST_SLOT
            },
        },
        other => other,
    }
}

/// Interface actions waiting for this frame's systems, oldest first.
pub struct UiActions(pub Vec<UiAction>);

impl UiActions {
    pub fn new() -> (result: UiActions)
        ensures
            result.0@ == Seq::<UiAction>::empty(),
    {
        UiActions(Vec::new())
    }

    /// Queues the action of a pressed button.
    pub fn press(&mut self, action: UiAction, selected_slot: usize)
        ensures
            final(self).0@ == old(self).0@.push(routed_spec(action, selected_slot)),
    {
        let routed = routed_action(action, selected_slot);
        self.0.push(routed);
    }
}

/// Whether the panel's save buttons are enabled: a profile exists, is
/// neither locked by a connection nor saving, and the typed ID is valid.
pub open spec fn save_enabled_spec(profile: bool, locked: bool, pending: bool, valid: bool) -> bool {
    profile && !locked && !pending && valid
}

pub fn save_enabled(profile: bool, locked: bool, pending: bool, valid: bool) -> (result: bool)
    ensures
        result == save_enabled_spec(profile, locked, pending, valid),
{
    profile && !locked && !pending && valid
}

/// Which message the panel shows.
#[derive(Clone, Copy, Debug, PartialEq, Eq, Structural)]
pub enum FeedbackSource {
    /// "Saving Traveler ID…", as a success.
    Saving,
    /// The typed ID's validation error, as a failure.
    Validation,
    /// The panel's own last feedback.
    Panel,
    /// The profile's storage error, as a failure.
    Storage,
    /// Nothing.
    Empty,
}

/// A save in progress wins; then the typed ID's validation error; then the
/// panel's feedback; then the profile's storage error.
pub open spec fn feedback_spec(pending: bool, invalid: bool, panel: bool, storage: bool) -> FeedbackSource {
    if pending {
        FeedbackSource::Saving
    } else if invalid {
        FeedbackSource::Validation
    } else if panel {
        FeedbackSource::Panel
    } else if storage {
        FeedbackSource::Storage
    } else {
        FeedbackSource::Empty
    }
}

pub fn feedback_source(pending: bool, invalid: bool, panel: bool, storage: bool) -> (result:
    FeedbackSource)
    ensures
        result == feedback_spec(pending, invalid, panel, storage),
{
    if pending {
        FeedbackSource::Saving
    } else if invalid {
        FeedbackSource::Validation
    } else if panel {
        FeedbackSource::Panel
    } else if storage {
        FeedbackSource::Storage
    } else {
        FeedbackSource::Empty
    }
}

/// What becomes of a save that was waiting for storage.
#[derive(Clone, Copy, Debug, PartialEq, Eq, Structural)]
pub enum PendingSave {
    /// Storage is still busy.
    Wait,
    /// Storage failed: show its error.
    StorageFailed,
    /// Saved as typed: finish, joining if asked.
    Finish { join: bool },
    /// Saved, but the field was edited since: ask to save again first.
    EditedSinceSave,
    /// Storage finished without selecting the ID.
    Incomplete,
}

/// `pending` and `storage_failed` describe the profile, `selected` whether
/// it is ready with the saved ID, `unchanged` whether the field still holds
/// it.
pub open spec fn pending_save_spec(
    pending: bool,
    storage_failed: bool,
    selected: bool,
    unchanged: bool,
    join: bool,
) -> PendingSave {
    if pending {
        PendingSave::Wait
    } else if storage_failed {
        PendingSave::StorageFailed
    } else if selected {
        if unchanged {
            PendingSave::Finish { join }
        } else {
            PendingSave::EditedSinceSave
        }
    } else {
        PendingSave::Incomplete
    }
}

pub fn pending_save(pending: bool, storage_failed: bool, selected: bool, unchanged: bool, join: bool) -> (result:
    PendingSave)
    ensures
        result == pending_save_spec(pending, storage_failed, selected, unchanged, join),
{
    if pending {
        PendingSave::Wait
    } else if storage_failed {
        PendingSave::StorageFailed
    } else if selected {
        if unchanged {
            PendingSave::Finish { join }
        } else {
            PendingSave::EditedSinceSave
        }
    } else {
        PendingSave::Incomplete
    }
}

impl PendingSave {
    /// The fixed feedback of an outcome, with whether it reads as success.
    pub fn feedback(&self) -> (result: Option<(&'static str, bool)>)
        ensures
            match *self {
                PendingSave::Finish { .. } => result matches Some((text, true)) && text@
                    == "Traveler ID saved on this device."@,
                PendingSave::Incomplete => result matches Some((text, false)) && text@
                    == "Traveler ID save did not complete. Try again."@,
                _ => result is None,
            },
    {
        match self {
            PendingSave::Finish { .. } => Some(("Traveler ID saved on this device.", true)),
            PendingSave::Incomplete => Some(("Traveler ID save did not complete. Try again.", false)),
            _ => None,
        }
    }
}

// ---------------------------------------------------------------- laws

/// A routed reward choice always targets an existing memory slot and keeps
/// its choice; every other action is sent unchanged.
pub proof fn law_routed_choice_targets_a_slot(action: UiAction, selected_slot: usize)
    ensures
        action matches UiAction::Choose { choice, .. } ==> (routed_spec(action, selected_slot)
            matches UiAction::Choose { choice: c, slot } && c == choice && slot <= LAST_SLOT),
        !(action is Choose) ==> routed_spec(action, selected_slot) == action,
{
}

/// Saving is never offered while a connection locks the profile or a save
/// is in progress, nor for an invalid ID.
pub proof fn law_locked_profile_cannot_save(profile: bool, locked: bool, pending: bool, valid: bool)
    ensures
        (locked || pending || !valid) ==> !save_enabled_spec(profile, locked, pending, valid),
{
}

} // verus!
