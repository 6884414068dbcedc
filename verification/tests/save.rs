use medieval::campaign::{new_campaign, UnitKind};
use medieval::save::{check_core_schema_version, CampaignSave, SaveError, CAMPAIGN_SAVE_SCHEMA_VERSION};

fn representative_save() -> CampaignSave {
    let mut campaign = new_campaign();
    campaign.queue_recruitment("normandy", UnitKind::Spearmen).unwrap();
    campaign.move_army("england-main", "paris").unwrap();
    CampaignSave::from_campaign(campaign, "england").unwrap()
}

#[test]
fn unknown_player_faction_is_rejected() {
    let campaign = new_campaign();

    assert!(matches!(
        CampaignSave::from_campaign(campaign, "vikings"),
        Err(SaveError::InvalidState(_))
    ));
}

#[test]
fn duplicate_faction_ids_are_rejected() {
    let mut save = representative_save();
    save.campaign.factions[1].id = save.campaign.factions[0].id.clone();

    assert!(matches!(save.validate(), Err(SaveError::InvalidState(_))));
}

#[test]
fn unknown_active_faction_is_rejected() {
    let mut save = representative_save();
    save.campaign.active_faction = "missing".into();

    assert!(matches!(save.validate(), Err(SaveError::InvalidState(_))));
}

#[test]
fn corrupt_province_owner_and_neighbor_are_rejected() {
    let mut owner_save = representative_save();
    owner_save.campaign.provinces[0].owner = "missing".into();
    assert!(matches!(owner_save.validate(), Err(SaveError::InvalidState(_))));

    let mut neighbor_save = representative_save();
    neighbor_save.campaign.provinces[0].neighbors = vec!["missing".into()];
    assert!(matches!(neighbor_save.validate(), Err(SaveError::InvalidState(_))));
}

#[test]
fn one_way_province_borders_are_rejected() {
    let mut save = representative_save();
    save.campaign.provinces[1]
        .neighbors
        .retain(|neighbor| neighbor != "wessex");

    assert!(matches!(save.validate(), Err(SaveError::InvalidState(_))));
}

#[test]
fn corrupt_army_owner_and_location_are_rejected() {
    let mut owner_save = representative_save();
    owner_save.campaign.armies[0].owner = "missing".into();
    assert!(matches!(owner_save.validate(), Err(SaveError::InvalidState(_))));

    let mut province_save = representative_save();
    province_save.campaign.armies[0].province = "missing".into();
    assert!(matches!(province_save.validate(), Err(SaveError::InvalidState(_))));
}

#[test]
fn corrupt_pending_battle_is_rejected() {
    let mut save = representative_save();
    save.campaign.pending_battle.as_mut().unwrap().attacker_faction = "france".into();

    assert!(matches!(save.validate(), Err(SaveError::InvalidState(_))));
}

#[test]
fn corrupt_recruitment_order_is_rejected() {
    let mut save = representative_save();
    save.campaign.recruitment_queue[0].province_id = "paris".into();

    assert!(matches!(save.validate(), Err(SaveError::InvalidState(_))));
}

#[test]
fn already_due_recruitment_order_is_rejected() {
    let mut save = representative_save();
    save.campaign.recruitment_queue[0].ready_on_turn = save.campaign.turn;

    assert!(matches!(save.validate(), Err(SaveError::InvalidState(_))));
}

#[test]
fn a_consistent_campaign_validates_and_keeps_its_state() {
    let save = representative_save();
    assert_eq!(save.schema_version, CAMPAIGN_SAVE_SCHEMA_VERSION);
    assert_eq!(save.player_faction, "england");
    assert_eq!(save.validate(), Ok(()));

    let mut expected = new_campaign();
    expected.queue_recruitment("normandy", UnitKind::Spearmen).unwrap();
    expected.move_army("england-main", "paris").unwrap();
    assert_eq!(save.campaign, expected);
}

#[test]
fn save_error_messages_carry_their_detail() {
    assert_eq!(
        SaveError::UnsupportedVersion(99).message(),
        "unsupported campaign save schema version 99"
    );
    assert_eq!(
        SaveError::InvalidState("broken".into()).message(),
        "invalid campaign save state: broken"
    );
    let error = CampaignSave::from_campaign(new_campaign(), "vikings").unwrap_err();
    assert!(error.message().contains("vikings"));
}

#[test]
fn only_the_supported_core_schema_is_read_further() {
    assert_eq!(check_core_schema_version(CAMPAIGN_SAVE_SCHEMA_VERSION), Ok(()));
    assert_eq!(check_core_schema_version(99), Err(SaveError::UnsupportedVersion(99)));
}
