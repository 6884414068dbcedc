use vstd::prelude::*;

use crate::tactical::{BattlePoint, FlatBattlefield};
use crate::terrain::{spec_cell_bounds, spec_cell_height, TacticalTerrain, TacticalTerrainProfile};
use crate::text::owned;

verus! {

/// The terrain the renderer draws: the standard battlefield terrain.
fn terrain() -> (terrain: TacticalTerrain)
    ensures
        terrain.spec_profile() == TacticalTerrainProfile::RiverCrossingsV3,
{
    TacticalTerrain::battlefield_foundation()
}

/// The ground height the renderer uses at a point: the core terrain's.
pub fn terrain_height_mm(battlefield: FlatBattlefield, point: BattlePoint) -> (height: u32)
    ensures
        height == TacticalTerrain::spec_with_profile(TacticalTerrainProfile::RiverCrossingsV3).spec_height(
            battlefield,
            point,
        ),
{
    let t = terrain();
    proof {
        TacticalTerrain::lemma_profile_determines_terrain(t);
    }
    t.height_mm(battlefield, point)
}

/// The height of a terrain cell as the renderer draws it.
pub fn terrain_cell_height_mm(battlefield: FlatBattlefield, cell_x: u32, cell_z: u32) -> (height:
    u32)
    ensures
        height == spec_cell_height(battlefield, cell_x, cell_z),
{
    terrain().cell_height_mm(battlefield, cell_x, cell_z)
}

/// The ground extent of a terrain cell as the renderer draws it.
pub fn terrain_cell_bounds_mm(battlefield: FlatBattlefield, cell_x: u32, cell_z: u32) -> (bounds:
    Option<(u32, u32, u32, u32)>)
    ensures
        bounds == spec_cell_bounds(battlefield, cell_x, cell_z),
{
    terrain().cell_bounds_mm(battlefield, cell_x, cell_z)
}

/// The material roles of character meshes, in palette order.
pub open spec fn material_roles() -> Seq<Seq<char>> {
    seq![
        "cloth-primary"@,
        "cloth-secondary"@,
        "skin"@,
        "leather"@,
        "wood"@,
        "steel"@,
        "string"@,
    ]
}

fn role_name(index: usize) -> (name: String)
    requires
        index < 7,
    ensures
        name@ == material_roles()[index as int],
{
    match index {
        0 => owned("cloth-primary"),
        1 => owned("cloth-secondary"),
        2 => owned("skin"),
        3 => owned("leather"),
        4 => owned("wood"),
        5 => owned("steel"),
        _ => owned("string"),
    }
}

/// The palette slot of a material role named in a character mesh.
pub fn material_role(material: &str) -> (role: Result<usize, String>)
    ensures
        match role {
            Ok(index) => index < 7 && material_roles()[index as int] == material@ && forall|j: int|
                0 <= j < index ==> material_roles()[j] != material@,
            Err(message) => !material_roles().contains(material@) && message@
                == "unsupported character material role "@ + material@,
        },
{
    let wanted = owned(material);
    let mut index: usize = 0;
    while index < 7
        invariant
            index <= 7,
            wanted@ == material@,
            forall|j: int| 0 <= j < index ==> material_roles()[j] != material@,
        decreases 7 - index,
    {
        let name = role_name(index);
        if name == wanted {
            return Ok(index);
        }
        index += 1;
    }
    proof {
        assert forall|j: int| 0 <= j < material_roles().len() implies material_roles()[j] != material@ by {}
    }
    let mut message = owned("unsupported character material role ");
    message.append(material);
    Err(message)
}

} // verus!
