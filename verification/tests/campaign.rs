use medieval::campaign::{new_campaign, CampaignError, PendingBattle, UnitKind};

#[test]
fn campaign_bootstrap_is_deterministic() {
    assert_eq!(new_campaign(), new_campaign());
}

#[test]
fn a_full_round_advances_the_year() {
    let mut campaign = new_campaign();

    campaign.end_turn().unwrap();
    assert_eq!(campaign.year, 1087);
    assert_eq!(campaign.active_faction, "france");

    campaign.end_turn().unwrap();
    assert_eq!(campaign.year, 1088);
    assert_eq!(campaign.active_faction, "england");
    assert_eq!(campaign.turn, 3);
}

#[test]
fn legal_destinations_come_from_authoritative_adjacency() {
    let campaign = new_campaign();

    assert_eq!(
        campaign.legal_destinations("england-main").unwrap(),
        vec!["wessex", "brittany", "paris"]
    );
}

#[test]
fn inactive_faction_cannot_move() {
    let campaign = new_campaign();

    assert!(matches!(
        campaign.legal_destinations("france-main"),
        Err(CampaignError::NotActiveFaction { .. })
    ));
}

#[test]
fn friendly_movement_relocates_once_per_turn() {
    let mut campaign = new_campaign();

    campaign.move_army("england-main", "wessex").unwrap();

    let army = campaign
        .armies
        .iter()
        .find(|army| army.id == "england-main")
        .unwrap();
    assert_eq!(army.province, "wessex");
    assert!(army.moved_this_turn);
    assert!(matches!(
        campaign.legal_destinations("england-main"),
        Err(CampaignError::ArmyAlreadyMoved(_))
    ));
}

#[test]
fn non_adjacent_movement_is_rejected() {
    let mut campaign = new_campaign();

    assert!(matches!(
        campaign.move_army("england-main", "flanders"),
        Err(CampaignError::DestinationNotAdjacent { .. })
    ));
}

#[test]
fn hostile_movement_creates_pending_battle_without_resolving_it() {
    let mut campaign = new_campaign();

    campaign.move_army("england-main", "brittany").unwrap();

    let army = campaign
        .armies
        .iter()
        .find(|army| army.id == "england-main")
        .unwrap();
    assert_eq!(army.province, "normandy");
    assert!(army.moved_this_turn);
    assert_eq!(
        campaign.pending_battle,
        Some(PendingBattle {
            attacker_army_id: "england-main".into(),
            attacker_faction: "england".into(),
            from_province: "normandy".into(),
            target_province: "brittany".into(),
            defender_faction: "france".into(),
        })
    );
    assert!(matches!(campaign.end_turn(), Err(CampaignError::BattlePending)));
}

#[test]
fn movement_resets_when_faction_becomes_active_again() {
    let mut campaign = new_campaign();

    campaign.move_army("england-main", "wessex").unwrap();
    campaign.end_turn().unwrap();
    campaign.end_turn().unwrap();

    assert_eq!(campaign.active_faction, "england");
    assert!(
        !campaign
            .armies
            .iter()
            .find(|army| army.id == "england-main")
            .unwrap()
            .moved_this_turn
    );
}

#[test]
fn provincial_income_is_paid_once_per_faction_turn() {
    let mut campaign = new_campaign();

    campaign.end_turn().unwrap();
    let france = campaign.faction("france").unwrap();
    assert_eq!(france.treasury, 2_350);
    assert_eq!(france.last_economy_turn, Some(2));

    campaign.apply_turn_start().unwrap();
    assert_eq!(campaign.faction("france").unwrap().treasury, 2_350);
}

#[test]
fn recruitment_deducts_cost_and_rejects_duplicate_queueing() {
    let mut campaign = new_campaign();
    let options = campaign.recruitment_options("normandy").unwrap();
    let levy = options
        .iter()
        .find(|option| option.unit == UnitKind::Levy)
        .unwrap();
    assert_eq!(levy.cost, 120);
    assert_eq!(levy.soldiers, 40);
    assert!(levy.available);

    campaign.queue_recruitment("normandy", UnitKind::Levy).unwrap();
    assert_eq!(campaign.faction("england").unwrap().treasury, 1_080);
    assert_eq!(campaign.recruitment_queue.len(), 1);
    assert!(matches!(
        campaign.queue_recruitment("normandy", UnitKind::Levy),
        Err(CampaignError::RecruitmentAlreadyQueued { .. })
    ));
}

#[test]
fn recruitment_options_return_authoritative_unavailable_reasons() {
    let mut campaign = new_campaign();
    campaign.factions[0].treasury = 0;

    let own_options = campaign.recruitment_options("normandy").unwrap();
    assert!(own_options.iter().all(|option| !option.available));
    assert!(own_options.iter().all(|option| option.reason.is_some()));

    let enemy_options = campaign.recruitment_options("paris").unwrap();
    assert!(enemy_options.iter().all(|option| !option.available));
    assert!(enemy_options
        .iter()
        .all(|option| option.reason.as_deref().unwrap().contains("does not control")));
}

#[test]
fn one_turn_recruitment_completes_once_when_faction_returns() {
    let mut campaign = new_campaign();
    campaign.queue_recruitment("normandy", UnitKind::Spearmen).unwrap();

    campaign.end_turn().unwrap();
    campaign.end_turn().unwrap();

    let army = campaign
        .armies
        .iter()
        .find(|army| army.id == "england-main")
        .unwrap();
    assert_eq!(army.spearmen, 110);
    assert!(campaign.recruitment_queue.is_empty());

    campaign.apply_turn_start().unwrap();
    let army = campaign
        .armies
        .iter()
        .find(|army| army.id == "england-main")
        .unwrap();
    assert_eq!(army.spearmen, 110);
}

#[test]
fn recruited_army_ids_remain_unique_after_armies_move() {
    let mut campaign = new_campaign();
    campaign.queue_recruitment("wessex", UnitKind::Levy).unwrap();
    campaign.end_turn().unwrap();
    campaign.end_turn().unwrap();

    let first_id = campaign
        .armies
        .iter()
        .find(|army| army.owner == "england" && army.province == "wessex")
        .unwrap()
        .id
        .clone();
    campaign.move_army(&first_id, "normandy").unwrap();
    campaign.queue_recruitment("wessex", UnitKind::Archers).unwrap();
    campaign.end_turn().unwrap();
    campaign.end_turn().unwrap();

    let second_id = campaign
        .armies
        .iter()
        .find(|army| army.owner == "england" && army.province == "wessex")
        .unwrap()
        .id
        .clone();
    assert_ne!(first_id, second_id);
}

#[test]
fn error_messages_name_the_refused_input() {
    let mut campaign = new_campaign();
    let error = campaign.move_army("ghost-army", "paris").unwrap_err();
    assert_eq!(error, CampaignError::ArmyNotFound("ghost-army".into()));
    assert!(error.message().contains("ghost-army"));

    assert_eq!(
        campaign.queue_recruitment("atlantis", UnitKind::Levy),
        Err(CampaignError::ProvinceNotFound("atlantis".into()))
    );
    assert!(matches!(
        campaign.queue_recruitment("paris", UnitKind::Levy),
        Err(CampaignError::ProvinceNotOwned { .. })
    ));
    assert!(matches!(
        campaign.resolve_pending_battle(3),
        Err(CampaignError::NoPendingBattle)
    ));
    campaign.factions[0].treasury = 10;
    assert!(matches!(
        campaign.queue_recruitment("normandy", UnitKind::Knights),
        Err(CampaignError::InsufficientTreasury { cost: 500, treasury: 10, .. })
    ));
}
