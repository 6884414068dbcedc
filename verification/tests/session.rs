use medieval::campaign::{new_campaign, UnitKind};
use medieval::session::{GameSession, SAVE_FILE_NAME};

#[test]
fn app_save_filename_is_fixed_and_not_user_supplied() {
    assert_eq!(SAVE_FILE_NAME, "campaign-save.json");
    assert!(!SAVE_FILE_NAME.contains('/'));
    assert!(!SAVE_FILE_NAME.contains('\\'));
}

#[test]
fn a_new_session_plays_england_in_a_fresh_campaign() {
    let session = GameSession::new();
    assert_eq!(session.player_faction, "england");
    assert_eq!(session.campaign, new_campaign());
    assert_eq!(session.ensure_campaign_running(), Ok(()));
}

#[test]
fn starting_a_campaign_for_an_unknown_faction_keeps_the_session() {
    let mut session = GameSession::new();
    session.move_army("england-main", "wessex").unwrap();
    let before = session.clone();

    assert_eq!(
        session.start_new_campaign("vikings"),
        Err("faction vikings does not exist".to_string())
    );
    assert_eq!(session, before);

    session.start_new_campaign("france").unwrap();
    assert_eq!(session.player_faction, "france");
    assert_eq!(session.campaign.active_faction, "france");
}

#[test]
fn a_won_campaign_refuses_further_commands() {
    let mut session = GameSession::new();
    for province in &mut session.campaign.provinces {
        province.owner = "england".into();
    }
    let before = session.clone();

    let refusal = Err("campaign is over; england has already won".to_string());
    assert_eq!(session.ensure_campaign_running(), refusal);
    assert_eq!(session.move_army("england-main", "wessex"), refusal);
    assert_eq!(session.queue_recruitment("normandy", UnitKind::Levy), refusal);
    assert_eq!(session, before);
}

#[test]
fn ending_the_player_turn_plays_the_opponent_back_to_the_player() {
    let mut session = GameSession::new();
    assert!(session.end_player_turn_fits_now(5));
    session.end_player_turn(5).unwrap();

    assert_eq!(session.campaign.active_faction, "england");
    assert_eq!(session.campaign.turn, 3);
    assert!(session.campaign.pending_battle.is_none());
}

#[test]
fn session_errors_come_from_the_campaign_rules() {
    let mut session = GameSession::new();
    assert_eq!(
        session.move_army("england-main", "flanders"),
        Err("flanders is not adjacent to normandy".to_string())
    );
    assert_eq!(
        session.legal_army_destinations("england-main").unwrap(),
        vec!["wessex", "brittany", "paris"]
    );
}

#[test]
fn save_document_round_trips_into_an_equal_session() {
    let mut session = GameSession::new();
    session.move_army("england-main", "wessex").unwrap();

    let save = session.save_document().unwrap();
    let restored = GameSession::from_save(save);

    assert_eq!(restored, session);
}
