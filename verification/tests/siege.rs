use medieval::siege::{
    SiegeBattleState, SiegeGateState, SIEGE_CAPTURE_MAX_PROGRESS, SIEGE_TOWER_COUNT,
};
use medieval::tactical::{BattlePoint, BattleSide, FlatBattlefield, Formation, TacticalUnit};

fn unit(id: &str, side: BattleSide, point: BattlePoint) -> TacticalUnit {
    TacticalUnit::new(id, side, 40, point, Formation::Line { files: 10 }, 1_000)
}

#[test]
fn test_siege_layout_is_deterministic_and_bounded() {
    let battlefield = FlatBattlefield::new(100_000, 80_000);
    let first = SiegeBattleState::test_siege(battlefield);
    let second = SiegeBattleState::test_siege(battlefield);
    assert_eq!(first, second);
    assert_eq!(first.layout.gate.min_x_mm, 49_000);
    assert_eq!(first.layout.gate.max_x_mm, 51_000);
    assert_eq!(first.layout.gate.min_y_mm, 36_000);
    assert_eq!(first.layout.gate.max_y_mm, 44_000);
    assert_eq!(first.layout.towers.len(), SIEGE_TOWER_COUNT);
    assert!(first.layout.towers.iter().all(|tower| {
        tower.center.x_mm <= battlefield.width_mm
            && tower.center.y_mm <= battlefield.depth_mm
            && tower.radius_mm > 0
    }));
    assert_eq!(first.layout.capture_point.center, BattlePoint::new(80_000, 40_000));
}

#[test]
fn closed_gate_blocks_the_wall_while_open_and_destroyed_gates_are_traversable() {
    let battlefield = FlatBattlefield::new(100_000, 100_000);
    let closed = SiegeBattleState::test_siege(battlefield);
    let gate = closed.layout.gate.center();
    assert!(!closed.is_passable_at(BattlePoint::new(50_000, 20_000)));
    assert!(!closed.is_passable_at(gate));
    assert!(closed.is_passable_at(BattlePoint::new(40_000, 20_000)));

    let mut open = closed;
    open.gate_state = SiegeGateState::Open;
    assert!(open.is_passable_at(gate));
    let mut destroyed = closed;
    destroyed.gate_state = SiegeGateState::Destroyed;
    assert!(destroyed.is_passable_at(gate));
}

#[test]
fn crossing_path_aligns_enters_and_exits_the_open_gate() {
    let battlefield = FlatBattlefield::new(100_000, 100_000);
    let mut siege = SiegeBattleState::test_siege(battlefield);
    siege.gate_state = SiegeGateState::Open;
    let destination = BattlePoint::new(80_000, 10_000);
    let align = siege.movement_waypoint(BattlePoint::new(20_000, 10_000), destination);
    assert_eq!(align, BattlePoint::new(20_000, 50_000));
    let enter = siege.movement_waypoint(align, destination);
    assert_eq!(enter, BattlePoint::new(50_000, 50_000));
    assert!(siege.is_passable_at(enter));
    let exit = siege.movement_waypoint(enter, destination);
    assert_eq!(exit, BattlePoint::new(51_001, 50_000));
    assert!(siege.is_passable_at(exit));
    assert_eq!(siege.movement_waypoint(exit, destination), destination);
}

#[test]
fn closed_gate_routes_to_near_edge_but_never_into_the_gate() {
    let battlefield = FlatBattlefield::new(100_000, 100_000);
    let siege = SiegeBattleState::test_siege(battlefield);
    let destination = BattlePoint::new(80_000, 50_000);
    let from = BattlePoint::new(20_000, 50_000);
    let waypoint = siege.movement_waypoint(from, destination);
    assert_eq!(waypoint, BattlePoint::new(48_999, 50_000));
    assert!(siege.is_passable_at(waypoint));
    assert!(!siege.is_passable_at(siege.layout.gate.center()));
}

#[test]
fn closed_gate_start_inside_leaves_by_an_edge() {
    let battlefield = FlatBattlefield::new(100_000, 100_000);
    let siege = SiegeBattleState::test_siege(battlefield);
    let from = BattlePoint::new(50_500, 50_000);
    assert!(siege.layout.gate.contains(from));
    let east = siege.movement_waypoint(from, BattlePoint::new(80_000, 50_000));
    assert_eq!(east, BattlePoint::new(51_001, 50_000));
    let west = siege.movement_waypoint(from, BattlePoint::new(20_000, 50_000));
    assert_eq!(west, BattlePoint::new(48_999, 50_000));
    let along = siege.movement_waypoint(from, BattlePoint::new(50_000, 90_000));
    assert_eq!(along, BattlePoint::new(51_001, 50_000));
    for waypoint in [east, west, along] {
        assert!(!siege.layout.gate.contains(waypoint));
    }
}

#[test]
fn formed_uncontested_units_capture_deterministically() {
    let battlefield = FlatBattlefield::new(100_000, 100_000);
    let mut siege = SiegeBattleState::test_siege(battlefield);
    let attacker = unit("attacker", BattleSide::Attacker, siege.layout.capture_point.center);
    for _ in 0..10 {
        siege.advance_capture(std::slice::from_ref(&attacker));
    }
    assert_eq!(siege.capture.progress, SIEGE_CAPTURE_MAX_PROGRESS);
    assert_eq!(siege.capture.captured_by, Some(BattleSide::Attacker));
}

#[test]
fn contested_capture_fails_closed_without_changing_progress() {
    let battlefield = FlatBattlefield::new(100_000, 100_000);
    let mut siege = SiegeBattleState::test_siege(battlefield);
    let point = siege.layout.capture_point.center;
    let attacker = unit("attacker", BattleSide::Attacker, point);
    let defender = unit("defender", BattleSide::Defender, point);
    siege.advance_capture(std::slice::from_ref(&attacker));
    let before = siege.capture;
    siege.advance_capture(&[attacker, defender]);
    assert_eq!(siege.capture, before);
}

#[test]
fn a_completed_capture_is_final() {
    let battlefield = FlatBattlefield::new(100_000, 100_000);
    let mut siege = SiegeBattleState::test_siege(battlefield);
    let point = siege.layout.capture_point.center;
    let attacker = unit("attacker", BattleSide::Attacker, point);
    for _ in 0..10 {
        siege.advance_capture(std::slice::from_ref(&attacker));
    }
    let captured = siege.capture;
    let defender = unit("defender", BattleSide::Defender, point);
    siege.advance_capture(std::slice::from_ref(&defender));
    assert_eq!(siege.capture, captured);
    assert_eq!(siege.capture.captured_by, Some(BattleSide::Attacker));
}

#[test]
fn closed_gate_at_the_field_edge_is_left_by_the_other_edge() {
    let battlefield = FlatBattlefield::new(100_000, 100_000);
    let mut siege = SiegeBattleState::test_siege(battlefield);
    siege.layout.gate.min_x_mm = 0;
    siege.layout.gate.max_x_mm = 10;
    siege.layout.gate.min_y_mm = 0;
    siege.layout.gate.max_y_mm = 10;
    let waypoint = siege.movement_waypoint(BattlePoint::new(0, 5), BattlePoint::new(5, 5));
    assert_eq!(waypoint, BattlePoint::new(11, 5));
    assert!(!siege.layout.gate.contains(waypoint));
    siege.layout.gate.min_x_mm = u32::MAX - 10;
    siege.layout.gate.max_x_mm = u32::MAX;
    let waypoint = siege.movement_waypoint(
        BattlePoint::new(u32::MAX, 5),
        BattlePoint::new(u32::MAX - 2, 5),
    );
    assert_eq!(waypoint, BattlePoint::new(u32::MAX - 11, 5));
}
