use medieval::campaign::UnitKind;
use medieval::sandbox::{
    army_setup_quote, drive_opponent, formation_status, opponent_units, player_units,
    sandbox_outcome, set_selected_formation, side_name, validate_army_selection,
    SandboxArmySelection, MAX_SANDBOX_BATTALIONS, PLAYER_DEPLOYMENT_FIRST_Y_MM,
    PLAYER_DEPLOYMENT_ROW_SPACING_MM, PLAYER_DEPLOYMENT_X_MM,
};
use medieval::tactical::{BattleSide, FlatBattlefield, Formation, TacticalBattle, TacticalUnit};

fn selection(levy: u16, spearmen: u16, archers: u16, knights: u16) -> SandboxArmySelection {
    SandboxArmySelection { levy, spearmen, archers, knights }
}

fn sandbox_battle(army: SandboxArmySelection) -> TacticalBattle {
    let mut units = player_units(army);
    units.extend(opponent_units());
    TacticalBattle::deploy(FlatBattlefield::new(100_000, 100_000), units).unwrap()
}

fn find<'a>(battle: &'a TacticalBattle, id: &str) -> &'a TacticalUnit {
    battle.units().iter().find(|unit| unit.id() == id).unwrap()
}

#[test]
fn maximum_wide_battalions_get_distinct_in_bounds_rows() {
    let units = player_units(selection(MAX_SANDBOX_BATTALIONS as u16, 0, 0, 0));

    assert_eq!(units.len(), MAX_SANDBOX_BATTALIONS as usize);
    for (slot, unit) in units.iter().enumerate() {
        assert_eq!(unit.position().x_mm, PLAYER_DEPLOYMENT_X_MM);
        assert_eq!(
            unit.position().y_mm,
            PLAYER_DEPLOYMENT_FIRST_Y_MM + slot as u32 * PLAYER_DEPLOYMENT_ROW_SPACING_MM
        );
        assert!(unit.position().y_mm < 100_000);
    }
    for pair in units.windows(2) {
        assert!(pair[1].position().y_mm - pair[0].position().y_mm >= PLAYER_DEPLOYMENT_ROW_SPACING_MM);
    }
}

#[test]
fn battalions_are_named_by_kind_and_number() {
    let units = player_units(selection(2, 1, 2, 1));
    let ids: Vec<&str> = units.iter().map(|unit| unit.id()).collect();
    assert_eq!(
        ids,
        vec![
            "attacker-levy",
            "attacker-levy-2",
            "attacker-spears",
            "attacker-archers",
            "attacker-archers-2",
            "attacker-knights"
        ]
    );
    assert_eq!(units[3].attack_range_mm(), 25_000);
    assert_eq!(units[5].formation(), Formation::Column { files: 12 });
    assert_eq!(units[5].speed_mm_per_tick(), 850);
}

#[test]
fn muster_quote_counts_cost_against_the_budget() {
    let quote = army_setup_quote(selection(2, 1, 1, 1));
    assert_eq!(quote.budget, 1_500);
    assert_eq!(quote.spent, 2 * 120 + 220 + 260 + 500);
    assert_eq!(quote.remaining, 1_500 - 1_220);
    assert_eq!(quote.battalions, 5);
    assert!(quote.can_start);
    assert_eq!(quote.reason, None);
    assert_eq!(quote.units.len(), 4);
    assert_eq!(quote.units[3].unit, UnitKind::Knights);
    assert_eq!(quote.units[3].label, "Knights");
    assert_eq!(quote.units[0].selected, 2);

    let expensive = army_setup_quote(selection(0, 0, 0, 4));
    assert_eq!(expensive.remaining, 0);
    assert_eq!(
        validate_army_selection(selection(0, 0, 0, 4)),
        Err("This army exceeds the available muster budget.".to_string())
    );
    assert_eq!(
        validate_army_selection(selection(0, 0, 0, 0)),
        Err("Choose at least one battalion.".to_string())
    );
    assert_eq!(
        validate_army_selection(selection(13, 0, 0, 0)),
        Err("The field command can coordinate at most 12 battalions.".to_string())
    );
    assert_eq!(validate_army_selection(selection(1, 1, 1, 1)), Ok(()));
}

#[test]
fn the_opponent_engages_the_nearest_player_battalion() {
    let mut battle = sandbox_battle(selection(0, 1, 1, 1));
    drive_opponent(&mut battle).unwrap();
    // The knights deploy in the lowest row, level with the opponent's spears
    // and closest to all three opposing battalions.
    assert_eq!(find(&battle, "defender-spears").engagement_target(), Some("attacker-knights"));
    assert_eq!(find(&battle, "defender-archers").engagement_target(), Some("attacker-knights"));
    assert_eq!(find(&battle, "defender-knights").engagement_target(), Some("attacker-knights"));
    assert_eq!(find(&battle, "attacker-spears").engagement_target(), None);

    let planned = battle.clone();
    drive_opponent(&mut battle).unwrap();
    assert_eq!(battle, planned);
}

#[test]
fn outcome_is_decided_once_a_side_has_no_formed_unit() {
    let battle = sandbox_battle(selection(1, 0, 0, 0));
    assert_eq!(sandbox_outcome(battle.units()), None);
    let only_player = player_units(selection(1, 0, 0, 0));
    assert_eq!(sandbox_outcome(&only_player), Some("playerVictory"));
    let only_opponent = opponent_units();
    assert_eq!(sandbox_outcome(&only_opponent), Some("playerDefeat"));
    assert_eq!(sandbox_outcome(&[]), Some("draw"));
    assert_eq!(side_name(BattleSide::Attacker), "player");
    assert_eq!(side_name(BattleSide::Defender), "opponent");
    assert_eq!(formation_status(Formation::Column { files: 7 }), ("column", 7));
}

#[test]
fn selected_units_change_formation_all_or_nothing() {
    let mut battle = sandbox_battle(selection(0, 1, 1, 0));
    let selected = vec!["attacker-archers".to_string(), "attacker-spears".to_string()];
    set_selected_formation(&mut battle, &selected, "column").unwrap();
    assert_eq!(find(&battle, "attacker-spears").formation(), Formation::Column { files: 28 });
    assert_eq!(find(&battle, "attacker-archers").formation(), Formation::Column { files: 24 });

    let before = battle.clone();
    let with_missing = vec!["attacker-spears".to_string(), "attacker-ghost".to_string()];
    assert_eq!(
        set_selected_formation(&mut battle, &with_missing, "line"),
        Err("selected tactical unit attacker-ghost no longer exists".to_string())
    );
    assert_eq!(battle, before);
    assert_eq!(
        set_selected_formation(&mut battle, &selected, "wedge"),
        Err("unknown formation wedge".to_string())
    );
    assert_eq!(
        set_selected_formation(&mut battle, &Vec::new(), "line"),
        Err("no tactical units are selected".to_string())
    );
    assert_eq!(battle, before);
}
