use medieval::controls::{SelectionMode, TacticalControlError, TacticalControls};
use medieval::tactical::{BattlePoint, BattleSide, FlatBattlefield, Formation, TacticalBattle, TacticalUnit};

fn unit(id: &str, side: BattleSide, x_mm: u32) -> TacticalUnit {
    TacticalUnit::new(id, side, 80, BattlePoint::new(x_mm, 50_000), Formation::Line { files: 20 }, 1_000)
}

fn sample_battle() -> TacticalBattle {
    TacticalBattle::new(
        FlatBattlefield::new(100_000, 100_000),
        vec![
            unit("attacker-a", BattleSide::Attacker, 20_000),
            unit("attacker-b", BattleSide::Attacker, 30_000),
            unit("defender", BattleSide::Defender, 70_000),
        ],
    )
    .unwrap()
}

fn ids(names: &[&str]) -> Vec<String> {
    names.iter().map(|name| name.to_string()).collect()
}

fn find<'a>(battle: &'a TacticalBattle, id: &str) -> &'a TacticalUnit {
    battle.units().iter().find(|unit| unit.id() == id).unwrap()
}

#[test]
fn selection_modes_are_deterministic_and_invalid_selection_is_atomic() {
    let battle = sample_battle();
    let mut controls = TacticalControls::new(&battle, BattleSide::Attacker);

    controls.select_units(&battle, &ids(&["attacker-a"]), SelectionMode::Replace).unwrap();
    controls.select_units(&battle, &ids(&["attacker-b"]), SelectionMode::Add).unwrap();
    assert_eq!(controls.selected_unit_ids(), vec!["attacker-a", "attacker-b"]);

    controls.select_units(&battle, &ids(&["attacker-a"]), SelectionMode::Toggle).unwrap();
    assert_eq!(controls.selected_unit_ids(), vec!["attacker-b"]);

    let before = controls.selected_unit_ids();
    assert_eq!(
        controls.select_units(&battle, &ids(&["defender"]), SelectionMode::Add).unwrap_err(),
        TacticalControlError::UncontrollableUnit("defender".to_owned())
    );
    assert_eq!(controls.selected_unit_ids(), before);
    assert_eq!(
        controls.select_units(&battle, &ids(&["ghost"]), SelectionMode::Replace).unwrap_err(),
        TacticalControlError::UnknownUnit("ghost".to_owned())
    );
    assert_eq!(controls.selected_unit_ids(), before);
}

#[test]
fn selected_move_orders_are_atomic_and_core_validated() {
    let mut battle = sample_battle();
    let mut controls = TacticalControls::new(&battle, BattleSide::Attacker);
    controls
        .select_units(&battle, &ids(&["attacker-a", "attacker-b"]), SelectionMode::Replace)
        .unwrap();

    let destination = BattlePoint::new(60_000, 60_000);
    controls.move_selected(&mut battle, destination).unwrap();
    for unit_id in ["attacker-a", "attacker-b"] {
        assert_eq!(find(&battle, unit_id).destination(), Some(destination));
    }

    let before = battle.clone();
    assert!(controls.move_selected(&mut battle, BattlePoint::new(100_001, 50_000)).is_err());
    assert_eq!(battle, before);
}

#[test]
fn engagement_and_stop_commands_apply_to_the_whole_selection() {
    let mut battle = sample_battle();
    let mut controls = TacticalControls::new(&battle, BattleSide::Attacker);
    controls
        .select_units(&battle, &ids(&["attacker-a", "attacker-b"]), SelectionMode::Replace)
        .unwrap();

    controls.engage_selected(&mut battle, "defender").unwrap();
    for unit_id in ["attacker-a", "attacker-b"] {
        assert_eq!(find(&battle, unit_id).engagement_target(), Some("defender"));
    }

    controls.stop_selected(&mut battle).unwrap();
    for unit_id in ["attacker-a", "attacker-b"] {
        let unit = find(&battle, unit_id);
        assert_eq!(unit.engagement_target(), None);
        assert_eq!(unit.destination(), None);
    }
}

#[test]
fn control_groups_recall_sorted_live_units() {
    let battle = sample_battle();
    let mut controls = TacticalControls::new(&battle, BattleSide::Attacker);
    controls
        .select_units(&battle, &ids(&["attacker-b", "attacker-a"]), SelectionMode::Replace)
        .unwrap();
    controls.assign_control_group(1).unwrap();
    controls.clear_selection();
    assert!(controls.selected_unit_ids().is_empty());

    controls.recall_control_group(&battle, 1, false).unwrap();
    assert_eq!(controls.selected_unit_ids(), vec!["attacker-a", "attacker-b"]);
    assert_eq!(
        controls.assign_control_group(10).unwrap_err(),
        TacticalControlError::InvalidControlGroup(10)
    );
}

#[test]
fn orders_without_a_selection_are_refused() {
    let mut battle = sample_battle();
    let mut controls = TacticalControls::new(&battle, BattleSide::Attacker);
    let before = battle.clone();
    assert_eq!(
        controls.move_selected(&mut battle, BattlePoint::new(10, 10)).unwrap_err(),
        TacticalControlError::NoUnitsSelected
    );
    assert_eq!(
        controls.engage_selected(&mut battle, "defender").unwrap_err(),
        TacticalControlError::NoUnitsSelected
    );
    assert_eq!(battle, before);
}

#[test]
fn order_preview_needs_a_selection() {
    let battle = sample_battle();
    let mut controls = TacticalControls::new(&battle, BattleSide::Attacker);
    controls.set_order_preview(true);
    assert!(!controls.order_preview());

    controls.select_units(&battle, &ids(&["attacker-a"]), SelectionMode::Replace).unwrap();
    controls.set_order_preview(true);
    assert!(controls.order_preview());
    controls.clear_selection();
    assert!(!controls.order_preview());
    assert_eq!(controls.player_side(), BattleSide::Attacker);
}

#[test]
fn a_rule_refusal_from_the_battle_is_reported_whole() {
    let mut battle = sample_battle();
    let mut controls = TacticalControls::new(&battle, BattleSide::Attacker);
    controls.select_units(&battle, &ids(&["attacker-a"]), SelectionMode::Replace).unwrap();
    let before = battle.clone();
    assert!(matches!(
        controls.engage_selected(&mut battle, "attacker-b"),
        Err(TacticalControlError::RuleRejected(_))
    ));
    assert_eq!(battle, before);
}
