use dreamwake_client::hud::{
    at_rank_cap, hud_progress, hud_visible, party_overflow, rest_offer, reward_cards, HudProgress, ProgressDetail, RestOffer,
    RunStage,
};

#[test]
fn progress_line_counts_dreams_from_one_and_names_the_phase() {
    assert_eq!(
        hud_progress(0, RunStage::Combat, 5, false),
        HudProgress::Dream { number: 1, detail: ProgressDetail::FoesRemain(5) }
    );
    assert_eq!(
        hud_progress(3, RunStage::Reward, 0, false),
        HudProgress::Dream { number: 4, detail: ProgressDetail::ChooseReward }
    );
    assert_eq!(
        hud_progress(3, RunStage::Rest, 0, true),
        HudProgress::Dream { number: 4, detail: ProgressDetail::Stillness }
    );
    assert_eq!(
        hud_progress(7, RunStage::Transition, 0, false),
        HudProgress::Dream { number: 8, detail: ProgressDetail::EncounterComplete }
    );
    assert_eq!(
        hud_progress(7, RunStage::Other, 2, false),
        HudProgress::Dream { number: 8, detail: ProgressDetail::Blank }
    );
    assert_eq!(ProgressDetail::ChooseReward.text(), Some("CHOOSE YOUR REWARD"));
    assert_eq!(ProgressDetail::Stillness.text(), Some("A MOMENT OF STILLNESS"));
    assert_eq!(ProgressDetail::EncounterComplete.text(), Some("ENCOUNTER COMPLETE"));
    assert_eq!(ProgressDetail::Blank.text(), Some(""));
    assert_eq!(ProgressDetail::FoesRemain(3).text(), None);
}

#[test]
fn a_downed_hero_in_combat_hears_the_companions_fight_on() {
    assert_eq!(hud_progress(2, RunStage::Combat, 4, true), HudProgress::Downed);
}

#[test]
fn party_list_reports_companions_past_seven() {
    assert_eq!(party_overflow(0), None);
    assert_eq!(party_overflow(7), None);
    assert_eq!(party_overflow(8), Some(1));
    assert_eq!(party_overflow(12), Some(5));
}

#[test]
fn reward_cards_lock_only_the_same_memory_at_the_rank_cap() {
    assert!(at_rank_cap(Some(2), 2, 8));
    assert!(at_rank_cap(Some(2), 2, 9));
    assert!(!at_rank_cap(Some(2), 2, 7));
    assert!(!at_rank_cap(Some(1), 2, 8));
    assert!(!at_rank_cap(None, 2, 8));
}

#[test]
fn rest_stop_offers_refinement_below_the_cap_with_enough_shards() {
    assert_eq!(rest_offer(45, 7), RestOffer::Refine);
    assert_eq!(rest_offer(44, 7), RestOffer::TooFewShards);
    assert_eq!(rest_offer(100, 8), RestOffer::AtMaxRank);
    assert_eq!(rest_offer(10, 8), RestOffer::AtMaxRank);
    assert_eq!(RestOffer::Refine.notice(), None);
    assert_eq!(RestOffer::AtMaxRank.notice(), Some("Selected Memory is at maximum rank"));
    assert_eq!(RestOffer::TooFewShards.notice(), Some("Memory refinement costs 45 shards"));
}

#[test]
fn hud_hides_while_paused_building_or_outside_the_run() {
    assert!(hud_visible(false, false, RunStage::Combat));
    assert!(hud_visible(false, false, RunStage::Rest));
    assert!(!hud_visible(true, false, RunStage::Combat));
    assert!(!hud_visible(false, true, RunStage::Reward));
    assert!(!hud_visible(false, false, RunStage::Intro));
    assert!(!hud_visible(false, false, RunStage::Victory));
    assert!(!hud_visible(false, false, RunStage::Defeat));
    assert_eq!(
        hud_progress(1, RunStage::Victory, 0, true),
        HudProgress::Dream { number: 2, detail: ProgressDetail::Blank }
    );
}

#[test]
fn reward_panel_shows_at_most_three_cards() {
    assert_eq!(reward_cards(0), 0);
    assert_eq!(reward_cards(2), 2);
    assert_eq!(reward_cards(3), 3);
    assert_eq!(reward_cards(5), 3);
}
