use medieval::renderer::{
    material_role, terrain_cell_bounds_mm, terrain_cell_height_mm, terrain_height_mm,
};
use medieval::tactical::{BattlePoint, FlatBattlefield};
use medieval::terrain::TacticalTerrain;

#[test]
fn renderer_adapter_matches_the_core_terrain_contract() {
    let battlefield = FlatBattlefield::new(100_003, 80_005);
    let point = BattlePoint::new(12_500, 40_002);
    let core = TacticalTerrain::height_foundation();
    assert_eq!(terrain_height_mm(battlefield, point), core.height_mm(battlefield, point));
    assert_eq!(
        terrain_cell_bounds_mm(battlefield, 1, 4),
        core.cell_bounds_mm(battlefield, 1, 4)
    );
    assert_eq!(
        terrain_cell_height_mm(battlefield, 1, 4),
        core.cell_height_mm(battlefield, 1, 4)
    );
}

#[test]
fn material_roles_map_to_palette_slots_in_order() {
    assert_eq!(material_role("cloth-primary"), Ok(0));
    assert_eq!(material_role("cloth-secondary"), Ok(1));
    assert_eq!(material_role("skin"), Ok(2));
    assert_eq!(material_role("string"), Ok(6));
    assert!(material_role("gold").unwrap_err().contains("gold"));
}
