use medieval::tactical::{BattlePoint, FlatBattlefield};
use medieval::terrain::{
    scaled_boundary, terrain_cell_index, TacticalGroundCover, TacticalTerrain,
    TacticalTerrainProfile, RIVER_CELL_X, TACTICAL_RIVER_CELL_COUNT,
    TACTICAL_RIVER_CROSSING_CELL_COUNT, TACTICAL_TERRAIN_GRID_SIZE,
};

#[test]
fn battlefield_foundation_is_deterministic() {
    let terrain = TacticalTerrain::battlefield_foundation();
    let battlefield = FlatBattlefield::new(100_000, 80_000);
    let point = BattlePoint::new(50_000, 40_000);
    let first = terrain.height_mm(battlefield, point);
    let second = terrain.height_mm(battlefield, point);
    assert_eq!(first, second);
    assert!(first > 0);
    assert_eq!(terrain.profile(), TacticalTerrainProfile::RiverCrossingsV3);
    assert_eq!(TacticalTerrain::battlefield_foundation(), terrain);
}

#[test]
fn height_foundation_v1_remains_height_only_for_legacy_replays() {
    let terrain = TacticalTerrain::height_foundation();
    let battlefield = FlatBattlefield::new(80_000, 80_000);
    let former_forest_point = BattlePoint::new(25_000, 15_000);
    assert_eq!(terrain.profile(), TacticalTerrainProfile::HeightFoundationV1);
    assert!(terrain.forest_cells().is_empty());
    assert!(terrain.river_cells().is_empty());
    assert_eq!(
        terrain.ground_cover_at(battlefield, former_forest_point),
        TacticalGroundCover::Open
    );
    assert_eq!(
        terrain.movement_speed_mm_per_tick(battlefield, former_forest_point, 1_201),
        1_201
    );
}

#[test]
fn forest_movement_v2_remains_river_free() {
    let terrain = TacticalTerrain::with_profile(TacticalTerrainProfile::ForestMovementV2);
    let v3 = TacticalTerrain::battlefield_foundation();
    assert_eq!(terrain.profile(), TacticalTerrainProfile::ForestMovementV2);
    assert_eq!(terrain.forest_cells(), v3.forest_cells());
    assert!(terrain.river_cells().is_empty());
    assert!(terrain.river_crossing_cells().is_empty());
}

#[test]
fn height_lookup_uses_the_same_floored_boundaries_as_cell_geometry() {
    let terrain = TacticalTerrain::battlefield_foundation();
    let battlefield = FlatBattlefield::new(100_003, 80_005);
    let boundary_x = scaled_boundary(battlefield.width_mm, 1);
    let boundary_z = scaled_boundary(battlefield.depth_mm, 4);
    assert_eq!(boundary_x, 12_500);
    assert_eq!(terrain_cell_index(boundary_x - 1, battlefield.width_mm), 0);
    assert_eq!(terrain_cell_index(boundary_x, battlefield.width_mm), 1);
    assert_eq!(
        terrain.height_mm(battlefield, BattlePoint::new(boundary_x, boundary_z)),
        terrain.cell_height_mm(battlefield, 1, 4)
    );
    assert_eq!(
        terrain_cell_index(battlefield.width_mm, battlefield.width_mm),
        TACTICAL_TERRAIN_GRID_SIZE - 1
    );
}

#[test]
fn cell_bounds_cover_the_exact_battlefield_extent() {
    let terrain = TacticalTerrain::battlefield_foundation();
    let battlefield = FlatBattlefield::new(100_003, 80_005);
    assert_eq!(terrain.cell_bounds_mm(battlefield, 0, 0), Some((0, 12_500, 0, 10_000)));
    assert_eq!(
        terrain.cell_bounds_mm(battlefield, 7, 7),
        Some((87_502, 100_003, 70_004, 80_005))
    );
    assert_eq!(terrain.cell_bounds_mm(battlefield, 8, 0), None);
}

#[test]
fn terrain_is_flat_at_the_outer_edge_and_elevated_in_the_center() {
    let terrain = TacticalTerrain::battlefield_foundation();
    let battlefield = FlatBattlefield::new(100_000, 80_000);
    assert_eq!(terrain.height_mm(battlefield, BattlePoint::new(0, 0)), 0);
    assert!(terrain.height_mm(battlefield, BattlePoint::new(50_000, 40_000)) > 0);
}

#[test]
fn forest_ground_cover_uses_the_same_floored_cell_boundaries() {
    let terrain = TacticalTerrain::battlefield_foundation();
    let battlefield = FlatBattlefield::new(100_003, 80_005);
    let (x0, _, z0, _) = terrain.cell_bounds_mm(battlefield, 2, 1).unwrap();
    assert_eq!(
        terrain.ground_cover_at(battlefield, BattlePoint::new(x0, z0)),
        TacticalGroundCover::Forest
    );
    assert_eq!(
        terrain.ground_cover_at(battlefield, BattlePoint::new(x0 - 1, z0)),
        TacticalGroundCover::Open
    );
}

#[test]
fn forest_movement_budget_is_half_speed_rounded_up() {
    let terrain = TacticalTerrain::battlefield_foundation();
    let battlefield = FlatBattlefield::new(80_000, 80_000);
    assert_eq!(
        terrain.movement_speed_mm_per_tick(battlefield, BattlePoint::new(25_000, 15_000), 1_201),
        601
    );
    assert_eq!(
        terrain.movement_speed_mm_per_tick(battlefield, BattlePoint::new(5_000, 15_000), 1_201),
        1_201
    );
}

#[test]
fn river_cells_are_impassable_except_for_explicit_crossings() {
    let terrain = TacticalTerrain::battlefield_foundation();
    assert_eq!(terrain.river_cells().len(), TACTICAL_RIVER_CELL_COUNT);
    assert_eq!(terrain.river_crossing_cells().len(), TACTICAL_RIVER_CROSSING_CELL_COUNT);
    assert!(!terrain.cell_is_passable(RIVER_CELL_X, 1));
    assert!(terrain.cell_is_passable(RIVER_CELL_X, 3));
    assert!(terrain.cell_is_passable(RIVER_CELL_X, 4));
    assert!(terrain.cell_is_passable(RIVER_CELL_X - 1, 1));
}

#[test]
fn opposite_bank_routes_align_then_enter_the_nearest_crossing() {
    let terrain = TacticalTerrain::battlefield_foundation();
    let battlefield = FlatBattlefield::new(80_000, 80_000);
    let from = BattlePoint::new(10_000, 10_000);
    let destination = BattlePoint::new(70_000, 10_000);
    let align = terrain.movement_waypoint(battlefield, from, destination);
    assert_eq!(align, BattlePoint::new(10_000, 35_000));

    let aligned = BattlePoint::new(10_000, 35_000);
    let crossing = terrain.movement_waypoint(battlefield, aligned, destination);
    assert_eq!(crossing, BattlePoint::new(35_000, 35_000));

    let inside_crossing = BattlePoint::new(35_000, 35_000);
    assert_eq!(terrain.movement_waypoint(battlefield, inside_crossing, destination), destination);
}

#[test]
fn blocked_river_target_routes_toward_a_crossing_instead_of_water() {
    let terrain = TacticalTerrain::battlefield_foundation();
    let battlefield = FlatBattlefield::new(80_000, 80_000);
    let from = BattlePoint::new(10_000, 10_000);
    let blocked = BattlePoint::new(35_000, 15_000);
    assert!(!terrain.is_passable_at(battlefield, blocked));
    assert_eq!(
        terrain.movement_waypoint(battlefield, from, blocked),
        BattlePoint::new(10_000, 35_000)
    );
}
