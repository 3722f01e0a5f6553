//! What the heads-up display and the reward panel decide from the run's
//! state: the progress line, the companion overflow line, which reward cards
//! are locked at the rank cap, and what the rest stop offers.
use vstd::prelude::*;

verus! {

/// A memory cannot be ranked past this.
pub const MAX_MEMORY_RANK: u32 = 8;

/// What refining a memory by one rank costs at a rest stop.
pub const MEMORY_UPGRADE_SHARDS: u32 = 45;

/// The companion rows the party list shows.
pub const VISIBLE_COMPANIONS: usize = 7;

/// The phases of a run the progress line tells apart.
#[derive(Clone, Copy, Debug, PartialEq, Eq, Structural)]
pub enum RunStage {
    Combat,
    Reward,
    Rest,
    Transition,
    /// Before the run starts.
    Intro,
    /// The run is won.
    Victory,
    /// The run is lost.
    Defeat,
    /// Any other phase: the line names the dream and nothing more.
    Other,
}

/// The second half of the progress line.
#[derive(Clone, Copy, Debug, PartialEq, Eq, Structural)]
pub enum ProgressDetail {
    FoesRemain(u32),
    ChooseReward,
    Stillness,
    EncounterComplete,
    Blank,
}

impl ProgressDetail {
    /// The fixed text of this detail; a foe count is written by the caller.
    pub fn text(&self) -> (result: Option<&'static str>)
        ensures
            result matches Some(t) ==> t@ == match *self {
                ProgressDetail::ChooseReward => "CHOOSE YOUR REWARD"@,
                ProgressDetail::Stillness => "A MOMENT OF STILLNESS"@,
                ProgressDetail::EncounterComplete => "ENCOUNTER COMPLETE"@,
                _ => ""@,
            },
            result is None <==> self is FoesRemain,
    {
        match self {
            ProgressDetail::FoesRemain(_) => None,
            ProgressDetail::ChooseReward => Some("CHOOSE YOUR REWARD"),
            ProgressDetail::Stillness => Some("A MOMENT OF STILLNESS"),
            ProgressDetail::EncounterComplete => Some("ENCOUNTER COMPLETE"),
            ProgressDetail::Blank => Some(""),
        }
    }
}

/// The progress line of the heads-up display.
#[derive(Clone, Copy, Debug, PartialEq, Eq, Structural)]
pub enum HudProgress {
    /// The hero is down while the fight goes on.
    Downed,
    /// The dream's number, counted from one, and what the phase asks.
    Dream { number: u64, detail: ProgressDetail },
}

/// The progress line: a downed hero in combat hears that the companions fight
/// on; otherwise the line counts the dream from one and names what the phase
/// asks.
pub open spec fn progress_spec(room: u64, stage: RunStage, enemies_remaining: u32, downed: bool) -> HudProgress {
    if downed && stage is Combat {
        HudProgress::Downed
    } else {
        HudProgress::Dream {
            number: (room + 1) as u64,
            detail: match stage {
                RunStage::Combat => ProgressDetail::FoesRemain(enemies_remaining),
                RunStage::Reward => ProgressDetail::ChooseReward,
                RunStage::Rest => ProgressDetail::Stillness,
                RunStage::Transition => ProgressDetail::EncounterComplete,
                _ => ProgressDetail::Blank,
            },
        }
    }
}

/// Decides the progress line; `downed` tells whether the hero has no health
/// left.
pub fn hud_progress(room: u64, stage: RunStage, enemies_remaining: u32, downed: bool) -> (result: HudProgress)
    requires
        room < u64::MAX,
    ensures
        result == progress_spec(room, stage, enemies_remaining, downed),
{
    match stage {
        RunStage::Combat => if downed {
            HudProgress::Downed
        } else {
            HudProgress::Dream { number: room + 1, detail: ProgressDetail::FoesRemain(enemies_remaining) }
        },
        RunStage::Reward => HudProgress::Dream { number: room + 1, detail: ProgressDetail::ChooseReward },
        RunStage::Rest => HudProgress::Dream { number: room + 1, detail: ProgressDetail::Stillness },
        RunStage::Transition => HudProgress::Dream {
            number: room + 1,
            detail: ProgressDetail::EncounterComplete,
        },
        _ => HudProgress::Dream { number: room + 1, detail: ProgressDetail::Blank },
    }
}

/// The reward cards a panel shows.
pub const REWARD_CARDS: usize = 3;

/// Whether the heads-up display is shown: not while paused or while the
/// build panel is open, and not before the run or after it ends.
pub fn hud_visible(paused: bool, build_open: bool, stage: RunStage) -> (result: bool)
    ensures
        result == !(paused || build_open || stage is Intro || stage is Victory || stage is Defeat),
{
    !(paused || build_open || match stage {
        RunStage::Intro | RunStage::Victory | RunStage::Defeat => true,
        _ => false,
    })
}

/// How many of the offered rewards get a card: the first three at most.
pub fn reward_cards(offered: usize) -> (result: usize)
    ensures
        result == if offered < REWARD_CARDS { offered } else { REWARD_CARDS },
{
    if offered < REWARD_CARDS {
        offered
    } else {
        REWARD_CARDS
    }
}

/// How many companions the party list leaves out, if any.
pub fn party_overflow(companions: usize) -> (result: Option<usize>)
    ensures
        companions > VISIBLE_COMPANIONS ==> result == Some((companions - VISIBLE_COMPANIONS) as usize),
        companions <= VISIBLE_COMPANIONS ==> result is None,
{
    if companions > VISIBLE_COMPANIONS {
        Some(companions - VISIBLE_COMPANIONS)
    } else {
        None
    }
}

/// Whether a reward card is locked: it offers the very memory the target
/// slot holds, and that slot is already at the rank cap. Memories are named
/// by their kind's index.
pub fn at_rank_cap(reward_memory: Option<u8>, slot_memory: u8, slot_rank: u32) -> (result: bool)
    ensures
        result == (reward_memory == Some(slot_memory) && slot_rank >= MAX_MEMORY_RANK),
{
    match reward_memory {
        Some(kind) => kind == slot_memory && slot_rank >= MAX_MEMORY_RANK,
        None => false,
    }
}

/// What a rest stop offers for the selected memory.
#[derive(Clone, Copy, Debug, PartialEq, Eq, Structural)]
pub enum RestOffer {
    /// Refine the memory by one rank for the shards.
    Refine,
    /// The memory is at maximum rank.
    AtMaxRank,
    /// The shards do not cover a refinement.
    TooFewShards,
}

impl RestOffer {
    /// The notice shown in place of the refine button.
    pub fn notice(&self) -> (result: Option<&'static str>)
        ensures
            result matches Some(t) ==> t@ == match *self {
                RestOffer::AtMaxRank => "Selected Memory is at maximum rank"@,
                _ => "Memory refinement costs 45 shards"@,
            },
            result is None <==> self is Refine,
    {
        match self {
            RestOffer::Refine => None,
            RestOffer::AtMaxRank => Some("Selected Memory is at maximum rank"),
            RestOffer::TooFewShards => Some("Memory refinement costs 45 shards"),
        }
    }
}

/// The rest stop's offer: a refinement when the shards cover it and the
/// memory is below the cap; else why not, the cap first.
pub open spec fn rest_offer_spec(shards: u32, rank: u32) -> RestOffer {
    if shards >= MEMORY_UPGRADE_SHARDS && rank < MAX_MEMORY_RANK {
        RestOffer::Refine
    } else if rank >= MAX_MEMORY_RANK {
        RestOffer::AtMaxRank
    } else {
        RestOffer::TooFewShards
    }
}

/// Decides what the rest stop offers for the selected memory.
pub fn rest_offer(shards: u32, rank: u32) -> (result: RestOffer)
    ensures
        result == rest_offer_spec(shards, rank),
{
    if shards >= MEMORY_UPGRADE_SHARDS && rank < MAX_MEMORY_RANK {
        RestOffer::Refine
    } else if rank >= MAX_MEMORY_RANK {
        RestOffer::AtMaxRank
    } else {
        RestOffer::TooFewShards
    }
}

} // verus!
