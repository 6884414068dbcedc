use medieval::deployment::{standard_deployment_zone, standard_deployment_zones};
use medieval::tactical::{BattlePoint, BattleSide, FlatBattlefield};

#[test]
fn standard_zones_are_deterministic_disjoint_and_cover_each_back_third() {
    let battlefield = FlatBattlefield::new(100_003, 80_005);
    let [attacker, defender] = standard_deployment_zones(battlefield);
    assert_eq!(attacker.min_x_mm, 0);
    assert_eq!(attacker.max_x_mm, 33_334);
    assert_eq!(defender.min_x_mm, 66_669);
    assert_eq!(defender.max_x_mm, 100_003);
    assert_eq!(attacker.max_y_mm, battlefield.depth_mm);
    assert_eq!(defender.max_y_mm, battlefield.depth_mm);
    assert!(attacker.max_x_mm < defender.min_x_mm);
}

#[test]
fn zone_boundaries_are_inclusive_but_the_neutral_center_is_not_deployable() {
    let battlefield = FlatBattlefield::new(90_000, 60_000);
    let attacker = standard_deployment_zone(battlefield, BattleSide::Attacker);
    let defender = standard_deployment_zone(battlefield, BattleSide::Defender);
    assert!(attacker.contains(BattlePoint::new(30_000, 60_000)));
    assert!(defender.contains(BattlePoint::new(60_000, 0)));
    assert!(!attacker.contains(BattlePoint::new(45_000, 30_000)));
    assert!(!defender.contains(BattlePoint::new(45_000, 30_000)));
}

#[test]
fn zones_of_a_small_battlefield_take_floored_thirds() {
    let [attacker, defender] = standard_deployment_zones(FlatBattlefield::new(10, 5));
    assert_eq!((attacker.min_x_mm, attacker.max_x_mm), (0, 3));
    assert_eq!((defender.min_x_mm, defender.max_x_mm), (7, 10));
    assert_eq!((attacker.min_y_mm, attacker.max_y_mm), (0, 5));
}
