use medieval::deployment::standard_deployment_zones;
use medieval::motion::{point_distance_squared, points_within_distance};
use medieval::tactical::{
    BattlePoint, BattleSide, FlatBattlefield, Formation, MovementOrder, TacticalBattle,
    TacticalError, TacticalUnit, COMBAT_CONTACT_DISTANCE_MM, MAX_TACTICAL_MORALE,
    PURSUIT_DISTANCE_MM, TACTICAL_TICKS_PER_SECOND,
};

fn sample_unit(id: &str, side: BattleSide, position: BattlePoint, formation: Formation) -> TacticalUnit {
    TacticalUnit::new(id, side, 80, position, formation, 1_200)
}

fn sample_battle() -> TacticalBattle {
    TacticalBattle::deploy(
        FlatBattlefield::new(300_000, 200_000),
        vec![
            sample_unit(
                "attacker-spears",
                BattleSide::Attacker,
                BattlePoint::new(20_000, 100_000),
                Formation::Line { files: 20 },
            ),
            sample_unit(
                "defender-spears",
                BattleSide::Defender,
                BattlePoint::new(280_000, 100_000),
                Formation::Line { files: 20 },
            ),
        ],
    )
    .unwrap()
}

fn contact_battle(attacker_formation: Formation, defender_formation: Formation) -> TacticalBattle {
    TacticalBattle::new(
        FlatBattlefield::new(50_000, 50_000),
        vec![
            sample_unit("attacker", BattleSide::Attacker, BattlePoint::new(24_500, 25_000), attacker_formation),
            sample_unit("defender", BattleSide::Defender, BattlePoint::new(25_500, 25_000), defender_formation),
        ],
    )
    .unwrap()
}

fn unit<'a>(battle: &'a TacticalBattle, id: &str) -> &'a TacticalUnit {
    battle.units().iter().find(|unit| unit.id() == id).unwrap()
}

fn engage(battle: &mut TacticalBattle, attacker: &str, defender: &str) {
    battle.issue_engagement_order(attacker, defender).unwrap();
}

fn square_u32(value: u32) -> u128 {
    u128::from(value) * u128::from(value)
}

#[test]
fn physics_contact_preserves_tactical_distance_boundaries() {
    let origin = BattlePoint::new(0, 0);
    assert!(points_within_distance(origin, BattlePoint::new(900, 1_200), COMBAT_CONTACT_DISTANCE_MM));
    assert!(!points_within_distance(origin, BattlePoint::new(901, 1_200), COMBAT_CONTACT_DISTANCE_MM));
}

#[test]
fn physics_contact_rebases_large_battlefield_coordinates() {
    let edge = BattlePoint::new(u32::MAX, u32::MAX);
    assert!(points_within_distance(
        BattlePoint::new(u32::MAX - 900, u32::MAX - 1_200),
        edge,
        COMBAT_CONTACT_DISTANCE_MM,
    ));
    assert!(!points_within_distance(BattlePoint::new(0, 0), edge, PURSUIT_DISTANCE_MM));
}

#[test]
fn setup_validation_rejects_duplicate_ids_and_invalid_units() {
    let duplicate = TacticalBattle::new(
        FlatBattlefield::new(10_000, 10_000),
        vec![
            sample_unit("spears", BattleSide::Attacker, BattlePoint::new(1_000, 1_000), Formation::Line { files: 10 }),
            sample_unit("spears", BattleSide::Defender, BattlePoint::new(9_000, 9_000), Formation::Line { files: 10 }),
        ],
    );
    assert!(matches!(duplicate, Err(TacticalError::DuplicateUnitId(_))));

    let invalid_formation = TacticalBattle::new(
        FlatBattlefield::new(10_000, 10_000),
        vec![sample_unit(
            "spears",
            BattleSide::Attacker,
            BattlePoint::new(1_000, 1_000),
            Formation::Column { files: 0 },
        )],
    );
    assert!(matches!(invalid_formation, Err(TacticalError::InvalidFormation(_))));

    let invalid_range = TacticalBattle::new(
        FlatBattlefield::new(10_000, 10_000),
        vec![sample_unit(
            "archers",
            BattleSide::Attacker,
            BattlePoint::new(1_000, 1_000),
            Formation::Line { files: 10 },
        )
        .with_attack_range_mm(COMBAT_CONTACT_DISTANCE_MM - 1)],
    );
    assert!(matches!(invalid_range, Err(TacticalError::InvalidAttackRange { .. })));
}

#[test]
fn setup_rejects_units_on_blocked_river_cells() {
    let battle = TacticalBattle::new(
        FlatBattlefield::new(80_000, 80_000),
        vec![sample_unit(
            "river-unit",
            BattleSide::Attacker,
            BattlePoint::new(35_000, 15_000),
            Formation::Line { files: 10 },
        )],
    );
    assert!(matches!(battle, Err(TacticalError::UnitOnImpassableTerrain { .. })));
}

#[test]
fn deployment_validation_accepts_own_back_thirds_and_rejects_neutral_setup() {
    let battlefield = FlatBattlefield::new(90_000, 60_000);
    let deployed = TacticalBattle::deploy(
        battlefield,
        vec![
            sample_unit("attacker", BattleSide::Attacker, BattlePoint::new(30_000, 20_000), Formation::Line { files: 10 }),
            sample_unit("defender", BattleSide::Defender, BattlePoint::new(60_000, 40_000), Formation::Line { files: 10 }),
        ],
    )
    .unwrap();
    assert_eq!(deployed.deployment_zones(), standard_deployment_zones(battlefield));

    let invalid = TacticalBattle::deploy(
        battlefield,
        vec![sample_unit(
            "attacker",
            BattleSide::Attacker,
            BattlePoint::new(45_000, 30_000),
            Formation::Line { files: 10 },
        )],
    );
    assert!(matches!(
        invalid,
        Err(TacticalError::UnitOutsideDeploymentZone { side: BattleSide::Attacker, .. })
    ));
}

#[test]
fn blank_unit_ids_are_rejected() {
    let battle = TacticalBattle::new(
        FlatBattlefield::new(10_000, 10_000),
        vec![sample_unit(" \t", BattleSide::Attacker, BattlePoint::new(1_000, 1_000), Formation::Line { files: 10 })],
    );
    assert_eq!(battle.unwrap_err(), TacticalError::EmptyUnitId);

    let named = TacticalBattle::new(
        FlatBattlefield::new(10_000, 10_000),
        vec![sample_unit(" a ", BattleSide::Attacker, BattlePoint::new(1_000, 1_000), Formation::Line { files: 10 })],
    );
    assert!(named.is_ok());

    let ideographic = TacticalBattle::new(
        FlatBattlefield::new(10_000, 10_000),
        vec![sample_unit("\u{3000}\u{85}", BattleSide::Attacker, BattlePoint::new(1_000, 1_000), Formation::Line { files: 10 })],
    );
    assert_eq!(ideographic.unwrap_err(), TacticalError::EmptyUnitId);
    let zero_width = TacticalBattle::new(
        FlatBattlefield::new(10_000, 10_000),
        vec![sample_unit("\u{200B}", BattleSide::Attacker, BattlePoint::new(1_000, 1_000), Formation::Line { files: 10 })],
    );
    assert!(zero_width.is_ok());
}

#[test]
fn other_setup_errors_name_the_unit() {
    let field = FlatBattlefield::new(10_000, 10_000);
    assert_eq!(
        TacticalBattle::new(FlatBattlefield::new(0, 5), vec![]).unwrap_err(),
        TacticalError::InvalidBattlefield { width_mm: 0, depth_mm: 5 }
    );
    let empty = TacticalUnit::new("empty", BattleSide::Attacker, 0, BattlePoint::new(1, 1), Formation::Line { files: 1 }, 10);
    assert_eq!(
        TacticalBattle::new(field, vec![empty]).unwrap_err(),
        TacticalError::ZeroSoldiers("empty".into())
    );
    let still = TacticalUnit::new("still", BattleSide::Attacker, 5, BattlePoint::new(1, 1), Formation::Line { files: 1 }, 0);
    assert_eq!(
        TacticalBattle::new(field, vec![still]).unwrap_err(),
        TacticalError::ZeroMovementSpeed("still".into())
    );
    let outside = sample_unit("outside", BattleSide::Attacker, BattlePoint::new(10_001, 1), Formation::Line { files: 1 });
    assert!(matches!(
        TacticalBattle::new(field, vec![outside]),
        Err(TacticalError::UnitOutOfBounds { .. })
    ));
}

#[test]
fn forest_ground_cover_reduces_tick_movement_without_changing_orders() {
    let battlefield = FlatBattlefield::new(80_000, 80_000);
    let destination = BattlePoint::new(29_000, 15_000);
    let mut forest = TacticalBattle::new(
        battlefield,
        vec![sample_unit("forest", BattleSide::Attacker, BattlePoint::new(25_000, 15_000), Formation::Line { files: 10 })],
    )
    .unwrap();
    forest
        .issue_move_order(MovementOrder { unit_id: "forest".into(), destination })
        .unwrap();
    forest.advance_ticks(1);
    assert_eq!(unit(&forest, "forest").position(), BattlePoint::new(25_600, 15_000));
    assert_eq!(unit(&forest, "forest").destination(), Some(destination));

    let mut open = TacticalBattle::new(
        battlefield,
        vec![sample_unit("open", BattleSide::Attacker, BattlePoint::new(5_000, 15_000), Formation::Line { files: 10 })],
    )
    .unwrap();
    open.issue_move_order(MovementOrder {
        unit_id: "open".into(),
        destination: BattlePoint::new(15_000, 15_000),
    })
    .unwrap();
    open.advance_ticks(1);
    assert_eq!(unit(&open, "open").position(), BattlePoint::new(6_200, 15_000));
}

#[test]
fn rejected_orders_do_not_mutate_authoritative_state() {
    let mut battle = sample_battle();
    let before = battle.clone();
    assert!(matches!(
        battle.issue_move_order(MovementOrder {
            unit_id: "missing".into(),
            destination: BattlePoint::new(50_000, 50_000),
        }),
        Err(TacticalError::UnitNotFound(_))
    ));
    assert_eq!(battle, before);

    assert!(matches!(
        battle.issue_move_order(MovementOrder {
            unit_id: "attacker-spears".into(),
            destination: BattlePoint::new(300_001, 50_000),
        }),
        Err(TacticalError::DestinationOutOfBounds { .. })
    ));
    assert_eq!(battle, before);

    assert!(matches!(
        battle.issue_move_order(MovementOrder {
            unit_id: "attacker-spears".into(),
            destination: BattlePoint::new(130_000, 25_000),
        }),
        Err(TacticalError::DestinationImpassable { .. })
    ));
    assert_eq!(battle, before);
}

#[test]
fn engagements_of_friends_are_refused() {
    let mut battle = TacticalBattle::new(
        FlatBattlefield::new(50_000, 50_000),
        vec![
            sample_unit("a", BattleSide::Attacker, BattlePoint::new(1_000, 1_000), Formation::Line { files: 10 }),
            sample_unit("b", BattleSide::Attacker, BattlePoint::new(2_000, 1_000), Formation::Line { files: 10 }),
        ],
    )
    .unwrap();
    let before = battle.clone();
    assert_eq!(
        battle.issue_engagement_order("a", "b"),
        Err(TacticalError::FriendlyEngagement { unit_id: "a".into(), target_unit_id: "b".into() })
    );
    assert_eq!(battle, before);
}

#[test]
fn engagement_across_river_uses_the_same_crossing_path() {
    let battlefield = FlatBattlefield::new(80_000, 80_000);
    let mut battle = TacticalBattle::new(
        battlefield,
        vec![
            sample_unit("attacker", BattleSide::Attacker, BattlePoint::new(10_000, 10_000), Formation::Line { files: 10 }),
            sample_unit("defender", BattleSide::Defender, BattlePoint::new(70_000, 10_000), Formation::Line { files: 10 }),
        ],
    )
    .unwrap();
    engage(&mut battle, "attacker", "defender");

    let mut visited_crossing = false;
    for _ in 0..100 {
        battle.advance_ticks(1);
        let position = unit(&battle, "attacker").position();
        assert!(battle.terrain().is_passable_at(battlefield, position));
        if position.x_mm >= 30_000 && position.x_mm < 40_000 && position.y_mm >= 30_000 {
            visited_crossing = true;
            break;
        }
    }
    assert!(visited_crossing);
}

#[test]
fn formation_orders_change_core_formation_without_replacing_other_orders() {
    let mut battle = sample_battle();
    battle
        .issue_move_order(MovementOrder {
            unit_id: "attacker-spears".into(),
            destination: BattlePoint::new(80_000, 120_000),
        })
        .unwrap();
    battle
        .issue_formation_order("attacker-spears", Formation::Column { files: 20 })
        .unwrap();
    assert_eq!(unit(&battle, "attacker-spears").formation(), Formation::Column { files: 20 });
    assert_eq!(
        unit(&battle, "attacker-spears").destination(),
        Some(BattlePoint::new(80_000, 120_000))
    );
}

#[test]
fn ranged_units_hold_at_range_and_inflict_losses_before_contact() {
    let battlefield = FlatBattlefield::new(50_000, 50_000);
    let mut battle = TacticalBattle::new(
        battlefield,
        vec![
            sample_unit("archers", BattleSide::Attacker, BattlePoint::new(10_000, 25_000), Formation::Line { files: 24 })
                .with_attack_range_mm(20_000),
            sample_unit("defender", BattleSide::Defender, BattlePoint::new(25_000, 25_000), Formation::Line { files: 20 }),
        ],
    )
    .unwrap();
    engage(&mut battle, "archers", "defender");
    let start = unit(&battle, "archers").position();
    battle.advance_ticks(TACTICAL_TICKS_PER_SECOND);
    assert_eq!(unit(&battle, "archers").position(), start);
    assert_eq!(unit(&battle, "archers").attack_range_mm(), 20_000);
    assert!(unit(&battle, "defender").soldiers() < 80);
    assert!(!points_within_distance(
        unit(&battle, "archers").position(),
        unit(&battle, "defender").position(),
        COMBAT_CONTACT_DISTANCE_MM,
    ));
}

// The replay moves the spearmen to (100_000, 140_000). The point
// (120_000, 140_000) lies in river cell (3, 5) of the foundation terrain,
// which is impassable, so a move order there is refused with
// `DestinationImpassable`; the serialised half of the replay needs serde on
// the battle, which the library does not carry.
#[test]
fn fixed_tick_replay_is_deterministic() {
    let mut first = sample_battle();
    let mut second = sample_battle();
    let order = MovementOrder {
        unit_id: "attacker-spears".into(),
        destination: BattlePoint::new(100_000, 140_000),
    };
    first.issue_move_order(order.clone()).unwrap();
    second.issue_move_order(order).unwrap();
    first.advance_ticks(TACTICAL_TICKS_PER_SECOND * 7);
    second.advance_ticks(TACTICAL_TICKS_PER_SECOND * 7);
    assert_eq!(first.tick(), 140);
    assert_eq!(first, second);
}

#[test]
fn canonical_order_serves_unit_lookup() {
    let mut battle = TacticalBattle::deploy(
        FlatBattlefield::new(300_000, 200_000),
        vec![
            sample_unit("defender-spears", BattleSide::Defender, BattlePoint::new(280_000, 100_000), Formation::Line { files: 20 }),
            sample_unit("attacker-spears", BattleSide::Attacker, BattlePoint::new(20_000, 100_000), Formation::Line { files: 20 }),
        ],
    )
    .unwrap();
    battle.issue_engagement_order("attacker-spears", "defender-spears").unwrap();

    assert_eq!(battle.units()[0].id(), "attacker-spears");
    assert_eq!(unit(&battle, "attacker-spears").engagement_target(), Some("defender-spears"));
}

#[test]
fn movement_never_exceeds_speed_and_arrives_exactly() {
    let mut battle = sample_battle();
    let destination = BattlePoint::new(90_000, 150_000);
    battle
        .issue_move_order(MovementOrder { unit_id: "attacker-spears".into(), destination })
        .unwrap();

    for _ in 0..200 {
        let before = unit(&battle, "attacker-spears").position();
        let speed = unit(&battle, "attacker-spears").speed_mm_per_tick();
        battle.advance_ticks(1);
        let after = unit(&battle, "attacker-spears").position();
        assert!(point_distance_squared(before, after) <= square_u32(speed));
        if unit(&battle, "attacker-spears").destination().is_none() {
            break;
        }
    }
    assert_eq!(unit(&battle, "attacker-spears").position(), destination);
}

#[test]
fn extreme_diagonal_movement_still_respects_speed_bound() {
    let speed = 1_000_000;
    let mut battle = TacticalBattle::new(
        FlatBattlefield::new(u32::MAX, u32::MAX),
        vec![TacticalUnit::new(
            "scouts",
            BattleSide::Attacker,
            20,
            BattlePoint::new(0, 0),
            Formation::Column { files: 4 },
            speed,
        )],
    )
    .unwrap();
    battle
        .issue_move_order(MovementOrder {
            unit_id: "scouts".into(),
            destination: BattlePoint::new(u32::MAX, u32::MAX),
        })
        .unwrap();
    let before = unit(&battle, "scouts").position();
    battle.advance_ticks(1);
    let after = unit(&battle, "scouts").position();
    assert!(point_distance_squared(before, after) <= square_u32(speed));
}

#[test]
fn storage_order_is_normalized_and_combat_is_order_independent() {
    let attacker = sample_unit("attacker", BattleSide::Attacker, BattlePoint::new(10_000, 10_000), Formation::Line { files: 20 });
    let defender = sample_unit("defender", BattleSide::Defender, BattlePoint::new(11_000, 10_000), Formation::Line { files: 20 });
    let mut first =
        TacticalBattle::new(FlatBattlefield::new(50_000, 50_000), vec![attacker.clone(), defender.clone()]).unwrap();
    let mut second = TacticalBattle::new(FlatBattlefield::new(50_000, 50_000), vec![defender, attacker]).unwrap();
    engage(&mut first, "attacker", "defender");
    engage(&mut second, "attacker", "defender");
    first.advance_ticks(TACTICAL_TICKS_PER_SECOND * 5);
    second.advance_ticks(TACTICAL_TICKS_PER_SECOND * 5);
    assert_eq!(first, second);
}

#[test]
fn line_frontage_inflicts_more_losses_than_column_frontage() {
    let mut line = contact_battle(Formation::Line { files: 24 }, Formation::Line { files: 20 });
    let mut column = contact_battle(Formation::Column { files: 24 }, Formation::Line { files: 20 });
    engage(&mut line, "attacker", "defender");
    engage(&mut column, "attacker", "defender");
    line.advance_ticks(TACTICAL_TICKS_PER_SECOND);
    column.advance_ticks(TACTICAL_TICKS_PER_SECOND);
    assert!(unit(&line, "defender").soldiers() < unit(&column, "defender").soldiers());
}

#[test]
fn simultaneous_opponents_share_one_frontage_budget() {
    let attacker = sample_unit("attacker", BattleSide::Attacker, BattlePoint::new(25_000, 25_000), Formation::Line { files: 40 });
    let first_defender =
        sample_unit("defender-a", BattleSide::Defender, BattlePoint::new(24_000, 25_000), Formation::Line { files: 20 });
    let second_defender =
        sample_unit("defender-b", BattleSide::Defender, BattlePoint::new(26_000, 25_000), Formation::Line { files: 20 });
    let battlefield = FlatBattlefield::new(50_000, 50_000);
    let mut single = TacticalBattle::new(battlefield, vec![attacker.clone(), first_defender.clone()]).unwrap();
    let mut surrounded = TacticalBattle::new(battlefield, vec![attacker, first_defender, second_defender]).unwrap();
    engage(&mut single, "attacker", "defender-a");
    engage(&mut surrounded, "attacker", "defender-a");
    engage(&mut surrounded, "defender-b", "attacker");

    single.advance_ticks(TACTICAL_TICKS_PER_SECOND);
    surrounded.advance_ticks(TACTICAL_TICKS_PER_SECOND);

    let single_losses = 80 - unit(&single, "defender-a").soldiers();
    let combined_losses =
        160 - unit(&surrounded, "defender-a").soldiers() - unit(&surrounded, "defender-b").soldiers();
    assert!(combined_losses <= single_losses);
    assert!(unit(&surrounded, "defender-a").soldiers() < 80);
    assert!(unit(&surrounded, "defender-b").soldiers() < 80);
}

#[test]
fn fighting_raises_fatigue() {
    let mut battle = contact_battle(Formation::Line { files: 40 }, Formation::Line { files: 20 });
    engage(&mut battle, "attacker", "defender");
    battle.advance_ticks(TACTICAL_TICKS_PER_SECOND);
    assert!(unit(&battle, "attacker").fatigue() > 0);
}

#[test]
fn casualties_apply_morale_shocks_and_eventually_route_units() {
    let mut battle = contact_battle(Formation::Line { files: 60 }, Formation::Column { files: 4 });
    engage(&mut battle, "attacker", "defender");
    for _ in 0..60 {
        battle.advance_ticks(TACTICAL_TICKS_PER_SECOND);
        if unit(&battle, "defender").is_routed() || unit(&battle, "defender").is_destroyed() {
            break;
        }
    }
    let defender = unit(&battle, "defender");
    assert!(defender.soldiers() < 80);
    assert!(defender.morale() < MAX_TACTICAL_MORALE);
    assert!(defender.is_routed() || defender.is_destroyed());
}

#[test]
fn broken_units_refuse_orders() {
    let mut battle = contact_battle(Formation::Line { files: 60 }, Formation::Column { files: 4 });
    engage(&mut battle, "attacker", "defender");
    for _ in 0..60 {
        battle.advance_ticks(TACTICAL_TICKS_PER_SECOND);
        if unit(&battle, "defender").is_routed() || unit(&battle, "defender").is_destroyed() {
            break;
        }
    }
    let before = battle.clone();
    assert_eq!(
        battle.issue_move_order(MovementOrder {
            unit_id: "defender".into(),
            destination: BattlePoint::new(40_000, 40_000),
        }),
        Err(TacticalError::UnitCannotReceiveOrders { unit_id: "defender".into() })
    );
    assert_eq!(battle, before);
}

#[test]
fn zero_soldiers_destroy_unit_without_underflow_or_resurrection() {
    let mut battle = TacticalBattle::new(
        FlatBattlefield::new(50_000, 50_000),
        vec![
            sample_unit("attacker", BattleSide::Attacker, BattlePoint::new(24_500, 25_000), Formation::Line { files: 80 }),
            TacticalUnit::new(
                "defender",
                BattleSide::Defender,
                1,
                BattlePoint::new(25_500, 25_000),
                Formation::Column { files: 2 },
                1_200,
            ),
        ],
    )
    .unwrap();
    engage(&mut battle, "attacker", "defender");
    battle.advance_ticks(TACTICAL_TICKS_PER_SECOND);
    let defender = unit(&battle, "defender");
    assert_eq!(defender.soldiers(), 0);
    assert!(defender.is_destroyed());
    battle.advance_ticks(TACTICAL_TICKS_PER_SECOND * 5);
    assert_eq!(unit(&battle, "defender").soldiers(), 0);
    assert_eq!(
        battle.issue_engagement_order("attacker", "defender"),
        Err(TacticalError::TargetDestroyed("defender".into()))
    );
}

#[test]
fn movement_preserves_identity_side_formation_and_soldier_count() {
    let mut battle = sample_battle();
    let before = unit(&battle, "attacker-spears").clone();
    battle
        .issue_move_order(MovementOrder {
            unit_id: "attacker-spears".into(),
            destination: BattlePoint::new(80_000, 120_000),
        })
        .unwrap();
    battle.advance_ticks(10);
    let after = unit(&battle, "attacker-spears");
    assert_eq!(after.id(), before.id());
    assert_eq!(after.side(), before.side());
    assert_eq!(after.formation(), before.formation());
    assert_eq!(after.soldiers(), before.soldiers());
    assert_eq!(after.attack_range_mm(), before.attack_range_mm());
    assert_ne!(after.position(), before.position());
}

#[test]
fn unit_ranged_beyond_the_reach_limit_is_refused() {
    let archers = sample_unit("far", BattleSide::Attacker, BattlePoint::new(1_000, 1_000), Formation::Line { files: 10 })
        .with_attack_range_mm(u32::MAX);
    assert!(matches!(
        TacticalBattle::new(FlatBattlefield::new(10_000, 10_000), vec![archers]),
        Err(TacticalError::InvalidAttackRange { .. })
    ));
}

#[test]
fn ranged_unit_does_not_fire_while_another_enemy_is_in_melee_contact() {
    let mut battle = TacticalBattle::new(
        FlatBattlefield::new(50_000, 50_000),
        vec![
            sample_unit("archers", BattleSide::Attacker, BattlePoint::new(10_000, 25_000), Formation::Line { files: 24 })
                .with_attack_range_mm(20_000),
            sample_unit("ranged-target", BattleSide::Defender, BattlePoint::new(25_000, 25_000), Formation::Line { files: 20 }),
            sample_unit("melee-attacker", BattleSide::Defender, BattlePoint::new(11_000, 25_000), Formation::Line { files: 20 }),
        ],
    )
    .unwrap();

    battle.issue_engagement_order("archers", "ranged-target").unwrap();
    battle.issue_engagement_order("melee-attacker", "archers").unwrap();
    battle.advance_ticks(TACTICAL_TICKS_PER_SECOND);

    assert_eq!(unit(&battle, "ranged-target").soldiers(), 80);
    assert!(unit(&battle, "archers").soldiers() < 80 || unit(&battle, "melee-attacker").soldiers() < 80);
}

#[test]
fn marching_fatigue_reduces_melee_effectiveness() {
    let battlefield = FlatBattlefield::new(50_000, 2_000_000);
    let line = Formation::Line { files: 40 };
    let mut tired = TacticalBattle::new(
        battlefield,
        vec![
            sample_unit("attacker", BattleSide::Attacker, BattlePoint::new(5_000, 10_000), line),
            sample_unit("defender", BattleSide::Defender, BattlePoint::new(6_000, 970_000), Formation::Line { files: 20 }),
        ],
    )
    .unwrap();
    tired
        .issue_move_order(MovementOrder { unit_id: "attacker".into(), destination: BattlePoint::new(5_000, 970_000) })
        .unwrap();
    tired.advance_ticks(800);
    assert_eq!(unit(&tired, "attacker").position(), BattlePoint::new(5_000, 970_000));
    assert_eq!(unit(&tired, "attacker").fatigue(), 800);

    let mut fresh = TacticalBattle::new(
        battlefield,
        vec![
            sample_unit("attacker", BattleSide::Attacker, BattlePoint::new(5_000, 970_000), line),
            sample_unit("defender", BattleSide::Defender, BattlePoint::new(6_000, 970_000), Formation::Line { files: 20 }),
        ],
    )
    .unwrap();
    engage(&mut fresh, "attacker", "defender");
    engage(&mut tired, "attacker", "defender");
    fresh.advance_ticks(TACTICAL_TICKS_PER_SECOND);
    tired.advance_ticks(TACTICAL_TICKS_PER_SECOND);
    assert!(unit(&fresh, "defender").soldiers() < unit(&tired, "defender").soldiers());
    assert!(unit(&fresh, "attacker").fatigue() > 0);
}

#[test]
fn widest_column_frontage_saturates_its_file_count() {
    let unit = TacticalUnit::new(
        "column",
        BattleSide::Attacker,
        65_535,
        BattlePoint::new(10_000, 10_000),
        Formation::Column { files: 65_535 },
        1_000,
    );
    assert_eq!(unit.frontage_slots(), 32_767);
    assert_eq!(Formation::Column { files: 65_534 }.frontage_slots(65_535), 32_767);
    assert_eq!(Formation::Column { files: 5 }.frontage_slots(80), 3);
}

#[test]
fn move_order_into_the_river_is_refused() {
    let mut battle = sample_battle();
    let before = battle.clone();
    let refused = battle.issue_move_order(MovementOrder {
        unit_id: "attacker-spears".into(),
        destination: BattlePoint::new(120_000, 140_000),
    });
    assert!(matches!(refused, Err(TacticalError::DestinationImpassable { .. })));
    assert_eq!(battle, before);
}

#[test]
fn reversed_listing_restores_canonical_order_for_unit_lookup() {
    let battle = TacticalBattle::deploy(
        FlatBattlefield::new(300_000, 200_000),
        vec![
            sample_unit(
                "defender-spears",
                BattleSide::Defender,
                BattlePoint::new(280_000, 100_000),
                Formation::Line { files: 20 },
            ),
            sample_unit(
                "attacker-spears",
                BattleSide::Attacker,
                BattlePoint::new(20_000, 100_000),
                Formation::Line { files: 20 },
            ),
        ],
    )
    .unwrap();
    assert_eq!(battle.units()[0].id(), "attacker-spears");
    assert_eq!(battle, sample_battle());
}
