use medieval::battle::{survivors, BattleOutcome};
use medieval::campaign::{new_campaign, CampaignError, CampaignState, UnitKind};

fn contested_campaign() -> CampaignState {
    let mut campaign = new_campaign();
    campaign.move_army("england-main", "paris").unwrap();
    campaign
}

#[test]
fn same_seed_replays_to_identical_report_and_state() {
    let campaign = contested_campaign();
    let mut first = campaign.clone();
    let mut second = campaign;

    let first_report = first.resolve_pending_battle(42).unwrap();
    let second_report = second.resolve_pending_battle(42).unwrap();

    assert_eq!(first_report, second_report);
    assert_eq!(first, second);
}

#[test]
fn casualties_never_create_soldiers() {
    let mut campaign = contested_campaign();
    let report = campaign.resolve_pending_battle(7).unwrap();

    assert!(report.attacker_after.soldiers() <= report.attacker_before.soldiers());
    assert!(report.defender_after.soldiers() <= report.defender_before.soldiers());
}

#[test]
fn casualty_rounding_does_not_overstate_small_group_losses() {
    assert_eq!(survivors(1, 20), 1);
    assert_eq!(survivors(4, 20), 4);
    assert_eq!(survivors(5, 20), 4);
    assert_eq!(survivors(1, 100), 0);
}

#[test]
fn attacker_victory_captures_the_target_province() {
    let base = contested_campaign();
    let mut found = None;
    for seed in 0..10_000u64 {
        let mut attempt = base.clone();
        let report = attempt.resolve_pending_battle(seed).unwrap();
        if report.outcome == BattleOutcome::AttackerVictory {
            found = Some((attempt, report));
            break;
        }
    }
    let (mut campaign, report) = found.expect("expected at least one attacker-winning seed");

    let paris = campaign
        .provinces
        .iter()
        .find(|province| province.id == "paris")
        .unwrap();
    assert_eq!(paris.owner, "england");
    assert!(report.captured);
    assert!(campaign.pending_battle.is_none());
    assert_eq!(campaign.battle_reports.last(), Some(&report));

    campaign.battle_reports.clear();
    assert!(campaign.resolve_pending_battle(1).is_err());
}

#[test]
fn capture_cancels_former_owners_recruitment_in_the_province() {
    let mut base = new_campaign();
    base.end_turn().unwrap();
    base.queue_recruitment("paris", UnitKind::Levy).unwrap();
    base.end_turn().unwrap();
    base.move_army("england-main", "paris").unwrap();

    let mut found = None;
    for seed in 0..10_000u64 {
        let mut attempt = base.clone();
        let report = attempt.resolve_pending_battle(seed).unwrap();
        if report.outcome == BattleOutcome::AttackerVictory {
            found = Some(attempt);
            break;
        }
    }
    let mut campaign = found.expect("expected at least one attacker-winning seed");

    assert!(campaign
        .recruitment_queue
        .iter()
        .all(|order| order.faction_id != "france" || order.province_id != "paris"));

    campaign.end_turn().unwrap();
    assert!(!campaign
        .armies
        .iter()
        .any(|army| army.owner == "france" && army.province == "paris"));
}

#[test]
fn player_can_choose_either_starting_faction_without_synthetic_income() {
    let mut campaign = new_campaign();
    campaign.select_player_faction("france").unwrap();

    assert_eq!(campaign.active_faction, "france");
    assert_eq!(campaign.turn, 1);
    assert_eq!(campaign.year, 1087);
    assert_eq!(campaign.faction("france").unwrap().treasury, 1_200);
    assert_eq!(campaign.faction("france").unwrap().last_economy_turn, Some(1));
    assert_eq!(campaign.faction("england").unwrap().last_economy_turn, None);
}

#[test]
fn choosing_an_unknown_player_faction_fails_closed() {
    let mut campaign = new_campaign();
    let before = campaign.clone();

    assert!(matches!(
        campaign.select_player_faction("vikings"),
        Err(CampaignError::FactionNotFound(_))
    ));
    assert_eq!(campaign, before);
}

#[test]
fn winner_is_none_while_both_factions_remain_viable() {
    assert_eq!(new_campaign().winner(), None);
}

#[test]
fn controlling_every_province_is_an_authoritative_win() {
    let mut campaign = new_campaign();
    for province in &mut campaign.provinces {
        province.owner = "england".into();
    }

    assert_eq!(campaign.winner().as_deref(), Some("england"));
}

#[test]
fn eliminating_every_province_and_army_is_an_authoritative_loss() {
    let mut campaign = new_campaign();
    for province in &mut campaign.provinces {
        province.owner = "france".into();
    }
    campaign.armies.retain(|army| army.owner != "england");

    assert_eq!(campaign.winner().as_deref(), Some("france"));
}

#[test]
fn ai_turn_is_reproducible_for_same_state_and_seed() {
    let mut base = new_campaign();
    base.end_turn().unwrap();
    let mut first = base.clone();
    let mut second = base;

    first.play_ai_turn("england", 81).unwrap();
    second.play_ai_turn("england", 81).unwrap();

    assert_eq!(first, second);
}

#[test]
fn ai_uses_recruitment_rules_and_never_spends_below_zero() {
    let mut campaign = new_campaign();
    campaign.end_turn().unwrap();
    let treasury_before = campaign.faction("france").unwrap().treasury;

    campaign.play_ai_turn("england", 13).unwrap();

    let france = campaign.faction("france").unwrap();
    assert!(france.treasury <= treasury_before);
    assert!(campaign
        .recruitment_queue
        .iter()
        .any(|order| order.faction_id == "france"));
}

#[test]
fn ai_does_not_automate_the_human_faction() {
    let mut campaign = new_campaign();
    let before = campaign.clone();

    campaign.play_ai_turn("england", 19).unwrap();

    assert_eq!(campaign, before);
}

#[test]
fn ai_prefers_a_legal_attack_and_resolves_it_before_ending_turn() {
    let mut campaign = new_campaign();
    campaign.end_turn().unwrap();

    campaign.play_ai_turn("england", 42).unwrap();

    assert_eq!(campaign.active_faction, "england");
    assert!(campaign.pending_battle.is_none());
    assert_eq!(campaign.battle_reports.len(), 1);
    assert_eq!(campaign.battle_reports[0].attacker_faction, "france");
    assert_eq!(campaign.battle_reports[0].target_province, "normandy");
}

#[test]
fn ai_can_reinforce_a_friendly_frontier_when_no_attack_is_adjacent() {
    let mut campaign = new_campaign();
    campaign.active_faction = "france".into();
    campaign.armies.retain(|army| army.owner != "england");
    let france = campaign
        .armies
        .iter_mut()
        .find(|army| army.id == "france-main")
        .unwrap();
    france.province = "flanders".into();
    for province in &mut campaign.provinces {
        province.owner = match province.id.as_str() {
            "wessex" | "normandy" => "england".into(),
            _ => "france".into(),
        };
    }

    campaign.play_ai_turn("england", 7).unwrap();

    let france = campaign
        .armies
        .iter()
        .find(|army| army.id == "france-main")
        .unwrap();
    assert_eq!(france.province, "paris");
    assert!(campaign.battle_reports.is_empty());
    assert_eq!(campaign.active_faction, "england");
}

#[test]
fn ai_with_no_treasury_still_moves_legally_without_recruiting() {
    let mut campaign = new_campaign();
    campaign.end_turn().unwrap();
    campaign.factions[1].treasury = 0;

    campaign.play_ai_turn("england", 101).unwrap();

    assert!(campaign
        .recruitment_queue
        .iter()
        .all(|order| order.faction_id != "france"));
    assert!(campaign.pending_battle.is_none());
    assert_eq!(campaign.active_faction, "england");
}
