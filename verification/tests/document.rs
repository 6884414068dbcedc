use medieval::campaign::new_campaign;
use medieval::document::{
    campaign_save_file, check_schema_version, validate_campaign_save, SaveError,
    SAVE_SCHEMA_VERSION,
};

#[test]
fn unknown_player_faction_fails_closed() {
    assert!(matches!(
        campaign_save_file(&new_campaign(), "vikings"),
        Err(SaveError::InvalidState(message)) if message.contains("player faction vikings")
    ));
}

#[test]
fn dangling_campaign_references_fail_closed() {
    let mut campaign = new_campaign();
    campaign.provinces[0].owner = "missing-faction".to_owned();

    assert!(matches!(
        campaign_save_file(&campaign, "england"),
        Err(SaveError::InvalidState(message)) if message.contains("unknown owner")
    ));
}

#[test]
fn save_file_carries_the_campaign_and_player_unchanged() {
    let mut campaign = new_campaign();
    campaign.move_army("england-main", "wessex").unwrap();

    let save = campaign_save_file(&campaign, "england").unwrap();

    assert_eq!(save.schema_version, SAVE_SCHEMA_VERSION);
    assert_eq!(save.player_faction, "england");
    assert_eq!(save.campaign, campaign);
    assert_eq!(validate_campaign_save(&save), Ok(()));
}

#[test]
fn only_the_supported_schema_version_is_read() {
    assert_eq!(check_schema_version(SAVE_SCHEMA_VERSION), Ok(()));
    assert_eq!(
        check_schema_version(2),
        Err(SaveError::UnsupportedVersion { found: 2, supported: SAVE_SCHEMA_VERSION })
    );
}

#[test]
fn a_save_of_another_version_is_refused_by_validation() {
    let mut save = campaign_save_file(&new_campaign(), "france").unwrap();
    save.schema_version = 7;
    assert_eq!(
        validate_campaign_save(&save),
        Err(SaveError::UnsupportedVersion { found: 7, supported: SAVE_SCHEMA_VERSION })
    );
}
