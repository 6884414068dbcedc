use vstd::prelude::*;

use crate::tactical::{BattlePoint, FlatBattlefield};

verus! {

pub const TACTICAL_TERRAIN_GRID_SIZE: u32 = 8;
pub const TACTICAL_FOREST_CELL_COUNT: usize = 6;
pub const TACTICAL_RIVER_CELL_COUNT: usize = 8;
pub const TACTICAL_RIVER_CROSSING_CELL_COUNT: usize = 2;
pub const TERRAIN_MAX_HEIGHT_DIVISOR: u32 = 25;
pub const FOREST_MOVEMENT_SPEED_DIVISOR: u32 = 2;
pub const RIVER_CELL_X: u32 = 3;

/// Terrain rule versions; each keeps the semantics of the replays made with it.
#[derive(Copy, Clone, Debug, PartialEq, Eq, Structural)]
pub enum TacticalTerrainProfile {
    HeightFoundationV1,
    ForestMovementV2,
    RiverCrossingsV3,
}

#[derive(Copy, Clone, Debug, PartialEq, Eq, Structural)]
pub enum TacticalGroundCover {
    Open,
    Forest,
}

#[derive(Copy, Clone, Debug, PartialEq, Eq, Structural)]
pub struct TacticalTerrainCell {
    pub cell_x: u32,
    pub cell_z: u32,
}

pub open spec fn cell(cell_x: u32, cell_z: u32) -> TacticalTerrainCell {
    TacticalTerrainCell { cell_x, cell_z }
}

/// The fixed forest cells of every profile that has forests.
pub open spec fn spec_forest_layout() -> Seq<TacticalTerrainCell> {
    seq![cell(2, 1), cell(3, 1), cell(3, 2), cell(4, 5), cell(4, 6), cell(5, 6)]
}

/// One river column across the whole depth of the grid.
pub open spec fn spec_river_layout() -> Seq<TacticalTerrainCell> {
    Seq::new(8, |z: int| cell(RIVER_CELL_X, z as u32))
}

/// The two fordable cells in the middle of the river column.
pub open spec fn spec_crossing_layout() -> Seq<TacticalTerrainCell> {
    seq![cell(RIVER_CELL_X, 3), cell(RIVER_CELL_X, 4)]
}

/// Floor of `span * index / 8`: the boundary before grid cell `index`.
pub open spec fn spec_scaled_boundary(span_mm: u32, index: u32) -> u32 {
    ((span_mm as int * index as int) / TACTICAL_TERRAIN_GRID_SIZE as int) as u32
}

pub open spec fn spec_cell_index_from(coordinate_mm: u32, span_mm: u32, cell: u32) -> u32
    decreases cell,
{
    if cell == 0 {
        0
    } else if coordinate_mm >= spec_scaled_boundary(span_mm, cell) {
        cell
    } else {
        spec_cell_index_from(coordinate_mm, span_mm, (cell - 1) as u32)
    }
}

/// The grid cell (0..8) holding a coordinate clamped to the span: the last cell
/// whose lower boundary does not exceed it; always 0 on an empty span.
pub open spec fn spec_cell_index(coordinate_mm: u32, span_mm: u32) -> u32 {
    if span_mm == 0 {
        0
    } else {
        let c = if coordinate_mm < span_mm { coordinate_mm } else { span_mm };
        spec_cell_index_from(c, span_mm, 7)
    }
}

pub open spec fn spec_point_cell(battlefield: FlatBattlefield, point: BattlePoint) -> (u32, u32) {
    (
        spec_cell_index(point.x_mm, battlefield.width_mm),
        spec_cell_index(point.y_mm, battlefield.depth_mm),
    )
}

pub open spec fn abs_diff(a: int, b: int) -> int {
    if a >= b { a - b } else { b - a }
}

/// Height of a cell: a stepped pyramid peaking at the grid centre, rising in
/// steps of 1/6 of the maximum height (min(width, depth) / 25), flat at the edge.
pub open spec fn spec_cell_height(battlefield: FlatBattlefield, cell_x: u32, cell_z: u32) -> u32 {
    let cx: int = if cell_x < 7 { cell_x as int } else { 7 };
    let cz: int = if cell_z < 7 { cell_z as int } else { 7 };
    let dx = abs_diff(cx * 2 + 1, 8);
    let dz = abs_diff(cz * 2 + 1, 8);
    let distance = if dx >= dz { dx } else { dz };
    let elevation_scale: int = if distance <= 7 { 7 - distance } else { 0 };
    let min_span: int = if battlefield.width_mm <= battlefield.depth_mm {
        battlefield.width_mm as int
    } else {
        battlefield.depth_mm as int
    };
    let max_height = min_span / TERRAIN_MAX_HEIGHT_DIVISOR as int;
    (max_height * elevation_scale / 6) as u32
}

pub open spec fn spec_cell_bounds(battlefield: FlatBattlefield, cell_x: u32, cell_z: u32) -> Option<
    (u32, u32, u32, u32),
> {
    if battlefield.width_mm == 0 || battlefield.depth_mm == 0 || cell_x >= 8 || cell_z >= 8 {
        None
    } else {
        Some(
            (
                spec_scaled_boundary(battlefield.width_mm, cell_x),
                spec_scaled_boundary(battlefield.width_mm, (cell_x + 1) as u32),
                spec_scaled_boundary(battlefield.depth_mm, cell_z),
                spec_scaled_boundary(battlefield.depth_mm, (cell_z + 1) as u32),
            ),
        )
    }
}

/// Centre of the depth band `[z0, z1)` of a grid row.
pub open spec fn spec_row_center(battlefield: FlatBattlefield, cell_z: u32) -> u32 {
    let z0 = spec_scaled_boundary(battlefield.depth_mm, cell_z);
    let z1 = spec_scaled_boundary(battlefield.depth_mm, (cell_z + 1) as u32);
    (z0 + (z1 - z0) / 2) as u32
}

/// Total detour of crossing at row `cell_z`: distance from the start row and
/// from the destination row to the crossing's centre row.
pub open spec fn spec_crossing_cost(
    battlefield: FlatBattlefield,
    from: BattlePoint,
    destination: BattlePoint,
    cell_z: u32,
) -> int {
    let center = spec_row_center(battlefield, cell_z) as int;
    abs_diff(from.y_mm as int, center) + abs_diff(destination.y_mm as int, center)
}

/// The crossing row used: the cheaper of the two, the northern one on a tie.
pub open spec fn spec_chosen_crossing(
    battlefield: FlatBattlefield,
    from: BattlePoint,
    destination: BattlePoint,
) -> u32 {
    if spec_crossing_cost(battlefield, from, destination, 3) <= spec_crossing_cost(
        battlefield,
        from,
        destination,
        4,
    ) {
        3
    } else {
        4
    }
}

/// First align with the crossing's row while staying on the own bank, then
/// enter the crossing's centre.
pub open spec fn spec_bank_waypoint(
    battlefield: FlatBattlefield,
    from: BattlePoint,
    destination: BattlePoint,
) -> BattlePoint {
    let z = spec_chosen_crossing(battlefield, from, destination);
    let x0 = spec_scaled_boundary(battlefield.width_mm, RIVER_CELL_X);
    let x1 = spec_scaled_boundary(battlefield.width_mm, (RIVER_CELL_X + 1) as u32);
    let z0 = spec_scaled_boundary(battlefield.depth_mm, z);
    let z1 = spec_scaled_boundary(battlefield.depth_mm, (z + 1) as u32);
    let center_x = (x0 + (x1 - x0) / 2) as u32;
    let center_z = spec_row_center(battlefield, z);
    if from.y_mm < z0 || from.y_mm >= z1 {
        BattlePoint { x_mm: from.x_mm, y_mm: center_z }
    } else {
        BattlePoint { x_mm: center_x, y_mm: center_z }
    }
}

/// Deterministic tactical terrain authority, versioned by profile.
#[derive(Copy, Clone, Debug, PartialEq, Eq, Structural)]
pub struct TacticalTerrain {
    profile: TacticalTerrainProfile,
}

impl TacticalTerrain {
    pub closed spec fn spec_profile(self) -> TacticalTerrainProfile {
        self.profile
    }

    /// The terrain of a profile.
    pub closed spec fn spec_with_profile(profile: TacticalTerrainProfile) -> TacticalTerrain {
        TacticalTerrain { profile }
    }

    /// A terrain is determined by its profile.
    pub proof fn lemma_profile_determines_terrain(terrain: TacticalTerrain)
        ensures
            terrain == TacticalTerrain::spec_with_profile(terrain.spec_profile()),
            TacticalTerrain::spec_with_profile(terrain.spec_profile()).spec_profile()
                == terrain.spec_profile(),
    {
    }

    pub open spec fn spec_forest_cells(self) -> Seq<TacticalTerrainCell> {
        match self.spec_profile() {
            TacticalTerrainProfile::HeightFoundationV1 => Seq::empty(),
            _ => spec_forest_layout(),
        }
    }

    pub open spec fn spec_river_cells(self) -> Seq<TacticalTerrainCell> {
        match self.spec_profile() {
            TacticalTerrainProfile::RiverCrossingsV3 => spec_river_layout(),
            _ => Seq::empty(),
        }
    }

    pub open spec fn spec_crossing_cells(self) -> Seq<TacticalTerrainCell> {
        match self.spec_profile() {
            TacticalTerrainProfile::RiverCrossingsV3 => spec_crossing_layout(),
            _ => Seq::empty(),
        }
    }

    pub open spec fn spec_cell_ground_cover(self, cell_x: u32, cell_z: u32) -> TacticalGroundCover {
        if self.spec_forest_cells().contains(cell(cell_x, cell_z)) {
            TacticalGroundCover::Forest
        } else {
            TacticalGroundCover::Open
        }
    }

    pub open spec fn spec_ground_cover_at(self, battlefield: FlatBattlefield, point: BattlePoint) -> TacticalGroundCover {
        let c = spec_point_cell(battlefield, point);
        self.spec_cell_ground_cover(c.0, c.1)
    }

    /// A cell is passable unless it is river water without a crossing.
    pub open spec fn spec_cell_is_passable(self, cell_x: u32, cell_z: u32) -> bool {
        !self.spec_river_cells().contains(cell(cell_x, cell_z)) || self.spec_crossing_cells().contains(
            cell(cell_x, cell_z),
        )
    }

    pub open spec fn spec_is_passable_at(self, battlefield: FlatBattlefield, point: BattlePoint) -> bool {
        let c = spec_point_cell(battlefield, point);
        self.spec_cell_is_passable(c.0, c.1)
    }

    /// Whether a movement leg must be routed through a river crossing: the
    /// target is water, or start and target lie on opposite banks.
    pub open spec fn spec_needs_crossing(
        self,
        battlefield: FlatBattlefield,
        from: BattlePoint,
        destination: BattlePoint,
    ) -> bool {
        let from_cell = spec_point_cell(battlefield, from);
        let destination_cell = spec_point_cell(battlefield, destination);
        &&& self.spec_profile() == TacticalTerrainProfile::RiverCrossingsV3
        &&& (!self.spec_cell_is_passable(destination_cell.0, destination_cell.1) || (from_cell.0
            != RIVER_CELL_X && ((from_cell.0 < RIVER_CELL_X && destination_cell.0 > RIVER_CELL_X)
            || (from_cell.0 > RIVER_CELL_X && destination_cell.0 < RIVER_CELL_X))))
    }

    pub open spec fn spec_movement_waypoint(
        self,
        battlefield: FlatBattlefield,
        from: BattlePoint,
        destination: BattlePoint,
    ) -> BattlePoint {
        if self.spec_needs_crossing(battlefield, from, destination) {
            spec_bank_waypoint(battlefield, from, destination)
        } else {
            destination
        }
    }

    /// Forest halves the movement budget, rounded up so progress never stops.
    pub open spec fn spec_movement_speed(
        self,
        battlefield: FlatBattlefield,
        position: BattlePoint,
        base_speed_mm_per_tick: u32,
    ) -> u32 {
        match self.spec_ground_cover_at(battlefield, position) {
            TacticalGroundCover::Open => base_speed_mm_per_tick,
            TacticalGroundCover::Forest => (base_speed_mm_per_tick / 2 + base_speed_mm_per_tick
                % 2) as u32,
        }
    }

    pub open spec fn spec_height(self, battlefield: FlatBattlefield, point: BattlePoint) -> u32 {
        if battlefield.width_mm == 0 || battlefield.depth_mm == 0 {
            0
        } else {
            let c = spec_point_cell(battlefield, point);
            spec_cell_height(battlefield, c.0, c.1)
        }
    }

    pub fn battlefield_foundation() -> (terrain: Self)
        ensures
            terrain.spec_profile() == TacticalTerrainProfile::RiverCrossingsV3,
            terrain == TacticalTerrain::spec_with_profile(TacticalTerrainProfile::RiverCrossingsV3),
    {
        TacticalTerrain { profile: TacticalTerrainProfile::RiverCrossingsV3 }
    }

    pub fn height_foundation() -> (terrain: Self)
        ensures
            terrain.spec_profile() == TacticalTerrainProfile::HeightFoundationV1,
    {
        TacticalTerrain { profile: TacticalTerrainProfile::HeightFoundationV1 }
    }

    pub fn with_profile(profile: TacticalTerrainProfile) -> (terrain: Self)
        ensures
            terrain.spec_profile() == profile,
    {
        TacticalTerrain { profile }
    }

    pub fn profile(self) -> (profile: TacticalTerrainProfile)
        ensures
            profile == self.spec_profile(),
    {
        self.profile
    }

    pub fn forest_cells(self) -> (cells: Vec<TacticalTerrainCell>)
        ensures
            cells@ == self.spec_forest_cells(),
    {
        match self.profile {
            TacticalTerrainProfile::HeightFoundationV1 => Vec::new(),
            _ => {
                let cells = vec![
                    TacticalTerrainCell { cell_x: 2, cell_z: 1 },
                    TacticalTerrainCell { cell_x: 3, cell_z: 1 },
                    TacticalTerrainCell { cell_x: 3, cell_z: 2 },
                    TacticalTerrainCell { cell_x: 4, cell_z: 5 },
                    TacticalTerrainCell { cell_x: 4, cell_z: 6 },
                    TacticalTerrainCell { cell_x: 5, cell_z: 6 },
                ];
                assert(cells@ =~= spec_forest_layout());
                cells
            },
        }
    }

    pub fn river_cells(self) -> (cells: Vec<TacticalTerrainCell>)
        ensures
            cells@ == self.spec_river_cells(),
    {
        let mut cells: Vec<TacticalTerrainCell> = Vec::new();
        if self.profile == TacticalTerrainProfile::RiverCrossingsV3 {
            let mut z: u32 = 0;
            while z < TACTICAL_TERRAIN_GRID_SIZE
                invariant
                    z <= 8,
                    cells@ =~= spec_river_layout().take(z as int),
                decreases 8 - z,
            {
                cells.push(TacticalTerrainCell { cell_x: RIVER_CELL_X, cell_z: z });
                z += 1;
            }
            assert(cells@ =~= spec_river_layout());
        } else {
            assert(cells@ =~= Seq::<TacticalTerrainCell>::empty());
        }
        cells
    }

    pub fn river_crossing_cells(self) -> (cells: Vec<TacticalTerrainCell>)
        ensures
            cells@ == self.spec_crossing_cells(),
    {
        if self.profile == TacticalTerrainProfile::RiverCrossingsV3 {
            let cells = vec![
                TacticalTerrainCell { cell_x: RIVER_CELL_X, cell_z: 3 },
                TacticalTerrainCell { cell_x: RIVER_CELL_X, cell_z: 4 },
            ];
            assert(cells@ =~= spec_crossing_layout());
            cells
        } else {
            Vec::new()
        }
    }

    pub fn ground_cover_at(self, battlefield: FlatBattlefield, point: BattlePoint) -> (cover:
        TacticalGroundCover)
        ensures
            cover == self.spec_ground_cover_at(battlefield, point),
    {
        self.cell_ground_cover(
            terrain_cell_index(point.x_mm, battlefield.width_mm),
            terrain_cell_index(point.y_mm, battlefield.depth_mm),
        )
    }

    pub fn cell_ground_cover(self, cell_x: u32, cell_z: u32) -> (cover: TacticalGroundCover)
        ensures
            cover == self.spec_cell_ground_cover(cell_x, cell_z),
    {
        let forest = self.forest_cells();
        if contains_cell(&forest, TacticalTerrainCell { cell_x, cell_z }) {
            TacticalGroundCover::Forest
        } else {
            TacticalGroundCover::Open
        }
    }

    pub fn is_passable_at(self, battlefield: FlatBattlefield, point: BattlePoint) -> (passable: bool)
        ensures
            passable == self.spec_is_passable_at(battlefield, point),
    {
        self.cell_is_passable(
            terrain_cell_index(point.x_mm, battlefield.width_mm),
            terrain_cell_index(point.y_mm, battlefield.depth_mm),
        )
    }

    pub fn cell_is_passable(self, cell_x: u32, cell_z: u32) -> (passable: bool)
        ensures
            passable == self.spec_cell_is_passable(cell_x, cell_z),
    {
        let target = TacticalTerrainCell { cell_x, cell_z };
        let river = self.river_cells();
        let crossings = self.river_crossing_cells();
        !contains_cell(&river, target) || contains_cell(&crossings, target)
    }

    /// The intermediate target of one movement leg. Across the river, a unit
    /// first aligns with the cheapest crossing on its own bank, then enters the
    /// crossing, then heads for its final target.
    pub fn movement_waypoint(
        self,
        battlefield: FlatBattlefield,
        from: BattlePoint,
        destination: BattlePoint,
    ) -> (waypoint: BattlePoint)
        requires
            self.spec_needs_crossing(battlefield, from, destination) ==> battlefield.width_mm > 0
                && battlefield.depth_mm > 0,
        ensures
            waypoint == self.spec_movement_waypoint(battlefield, from, destination),
    {
        if self.profile != TacticalTerrainProfile::RiverCrossingsV3 {
            return destination;
        }
        let from_x = terrain_cell_index(from.x_mm, battlefield.width_mm);
        let destination_x = terrain_cell_index(destination.x_mm, battlefield.width_mm);
        let destination_z = terrain_cell_index(destination.y_mm, battlefield.depth_mm);
        if !self.cell_is_passable(destination_x, destination_z) {
            return bank_waypoint_for_crossing(battlefield, from, destination);
        }
        if from_x == RIVER_CELL_X {
            return destination;
        }
        let opposite_banks = (from_x < RIVER_CELL_X && destination_x > RIVER_CELL_X) || (from_x
            > RIVER_CELL_X && destination_x < RIVER_CELL_X);
        if !opposite_banks {
            return destination;
        }
        bank_waypoint_for_crossing(battlefield, from, destination)
    }

    pub fn movement_speed_mm_per_tick(
        self,
        battlefield: FlatBattlefield,
        position: BattlePoint,
        base_speed_mm_per_tick: u32,
    ) -> (speed: u32)
        ensures
            speed == self.spec_movement_speed(battlefield, position, base_speed_mm_per_tick),
    {
        match self.ground_cover_at(battlefield, position) {
            TacticalGroundCover::Open => base_speed_mm_per_tick,
            TacticalGroundCover::Forest => base_speed_mm_per_tick / FOREST_MOVEMENT_SPEED_DIVISOR
                + base_speed_mm_per_tick % FOREST_MOVEMENT_SPEED_DIVISOR,
        }
    }

    pub fn height_mm(self, battlefield: FlatBattlefield, point: BattlePoint) -> (height: u32)
        ensures
            height == self.spec_height(battlefield, point),
    {
        if battlefield.width_mm == 0 || battlefield.depth_mm == 0 {
            return 0;
        }
        self.cell_height_mm(
            battlefield,
            terrain_cell_index(point.x_mm, battlefield.width_mm),
            terrain_cell_index(point.y_mm, battlefield.depth_mm),
        )
    }

    pub fn cell_height_mm(self, battlefield: FlatBattlefield, cell_x: u32, cell_z: u32) -> (height:
        u32)
        ensures
            height == spec_cell_height(battlefield, cell_x, cell_z),
    {
        let cx = if cell_x < TACTICAL_TERRAIN_GRID_SIZE - 1 {
            cell_x
        } else {
            TACTICAL_TERRAIN_GRID_SIZE - 1
        };
        let cz = if cell_z < TACTICAL_TERRAIN_GRID_SIZE - 1 {
            cell_z
        } else {
            TACTICAL_TERRAIN_GRID_SIZE - 1
        };
        let sample_x = cx * 2 + 1;
        let sample_z = cz * 2 + 1;
        let center = TACTICAL_TERRAIN_GRID_SIZE;
        let dx = if sample_x >= center { sample_x - center } else { center - sample_x };
        let dz = if sample_z >= center { sample_z - center } else { center - sample_z };
        let distance = if dx >= dz { dx } else { dz };
        let max_distance = TACTICAL_TERRAIN_GRID_SIZE - 1;
        let elevation_scale = if distance <= max_distance { max_distance - distance } else { 0 };
        let min_span = if battlefield.width_mm <= battlefield.depth_mm {
            battlefield.width_mm
        } else {
            battlefield.depth_mm
        };
        let max_height = min_span / TERRAIN_MAX_HEIGHT_DIVISOR;
        assert(max_height * elevation_scale <= 7 * (u32::MAX / 25)) by (nonlinear_arith)
            requires
                max_height <= u32::MAX / 25,
                elevation_scale <= 7,
        ;
        max_height * elevation_scale / 6
    }

    pub fn cell_bounds_mm(self, battlefield: FlatBattlefield, cell_x: u32, cell_z: u32) -> (bounds:
        Option<(u32, u32, u32, u32)>)
        ensures
            bounds == spec_cell_bounds(battlefield, cell_x, cell_z),
    {
        if battlefield.width_mm == 0 || battlefield.depth_mm == 0 || cell_x
            >= TACTICAL_TERRAIN_GRID_SIZE || cell_z >= TACTICAL_TERRAIN_GRID_SIZE {
            return None;
        }
        Some(
            (
                scaled_boundary(battlefield.width_mm, cell_x),
                scaled_boundary(battlefield.width_mm, cell_x + 1),
                scaled_boundary(battlefield.depth_mm, cell_z),
                scaled_boundary(battlefield.depth_mm, cell_z + 1),
            ),
        )
    }
}

fn contains_cell(cells: &Vec<TacticalTerrainCell>, target: TacticalTerrainCell) -> (found: bool)
    ensures
        found == cells@.contains(target),
{
    let mut i: usize = 0;
    while i < cells.len()
        invariant
            i <= cells.len(),
            forall|j: int| 0 <= j < i ==> cells@[j] != target,
        decreases cells.len() - i,
    {
        if cells[i] == target {
            return true;
        }
        i += 1;
    }
    false
}

proof fn lemma_boundary_bounds(span_mm: u32, index: u32)
    requires
        index <= 8,
    ensures
        spec_scaled_boundary(span_mm, index) <= span_mm,
        spec_scaled_boundary(span_mm, index) as int == (span_mm as int * index as int) / 8,
{
    assert(span_mm as int * index as int <= span_mm as int * 8) by (nonlinear_arith)
        requires
            index <= 8,
    ;
}

proof fn lemma_boundary_monotone(span_mm: u32, a: u32, b: u32)
    requires
        a <= b <= 8,
    ensures
        spec_scaled_boundary(span_mm, a) <= spec_scaled_boundary(span_mm, b),
{
    lemma_boundary_bounds(span_mm, a);
    lemma_boundary_bounds(span_mm, b);
    assert(span_mm as int * a as int <= span_mm as int * b as int) by (nonlinear_arith)
        requires
            a <= b,
    ;
    vstd::arithmetic::div_mod::lemma_div_is_ordered(
        span_mm as int * a as int,
        span_mm as int * b as int,
        8,
    );
}

pub fn scaled_boundary(span_mm: u32, index: u32) -> (boundary: u32)
    requires
        index <= 8,
    ensures
        boundary == spec_scaled_boundary(span_mm, index),
        boundary <= span_mm,
{
    proof {
        lemma_boundary_bounds(span_mm, index);
    }
    ((span_mm as u64 * index as u64) / TACTICAL_TERRAIN_GRID_SIZE as u64) as u32
}

/// The grid cell holding a coordinate, using the same floored boundaries as the
/// cell geometry.
pub fn terrain_cell_index(coordinate_mm: u32, span_mm: u32) -> (index: u32)
    ensures
        index == spec_cell_index(coordinate_mm, span_mm),
        index < 8,
        span_mm > 0 && index > 0 ==> spec_scaled_boundary(span_mm, index) <= (if coordinate_mm
            < span_mm {
            coordinate_mm
        } else {
            span_mm
        }),
        span_mm > 0 && index < 7 ==> (if coordinate_mm < span_mm {
            coordinate_mm
        } else {
            span_mm
        }) < spec_scaled_boundary(span_mm, (index + 1) as u32),
{
    if span_mm == 0 {
        return 0;
    }
    let c = if coordinate_mm < span_mm { coordinate_mm } else { span_mm };
    let mut cell: u32 = TACTICAL_TERRAIN_GRID_SIZE - 1;
    while cell > 0
        invariant
            cell <= 7,
            span_mm > 0,
            c == (if coordinate_mm < span_mm { coordinate_mm } else { span_mm }),
            spec_cell_index_from(c, span_mm, cell) == spec_cell_index_from(c, span_mm, 7),
            cell < 7 ==> c < spec_scaled_boundary(span_mm, (cell + 1) as u32),
        decreases cell,
    {
        if c >= scaled_boundary(span_mm, cell) {
            return cell;
        }
        cell -= 1;
    }
    0
}

/// The waypoint toward the cheaper river crossing; see `spec_bank_waypoint`.
fn bank_waypoint_for_crossing(
    battlefield: FlatBattlefield,
    from: BattlePoint,
    destination: BattlePoint,
) -> (waypoint: BattlePoint)
    requires
        battlefield.width_mm > 0,
        battlefield.depth_mm > 0,
    ensures
        waypoint == spec_bank_waypoint(battlefield, from, destination),
{
    let north_z0 = scaled_boundary(battlefield.depth_mm, 3);
    let north_z1 = scaled_boundary(battlefield.depth_mm, 4);
    let south_z1 = scaled_boundary(battlefield.depth_mm, 5);
    proof {
        lemma_boundary_monotone(battlefield.depth_mm, 3, 4);
        lemma_boundary_monotone(battlefield.depth_mm, 4, 5);
    }
    let north_center = north_z0 + (north_z1 - north_z0) / 2;
    let south_center = north_z1 + (south_z1 - north_z1) / 2;
    let north_cost = abs_diff_u64(from.y_mm, north_center) + abs_diff_u64(
        destination.y_mm,
        north_center,
    );
    let south_cost = abs_diff_u64(from.y_mm, south_center) + abs_diff_u64(
        destination.y_mm,
        south_center,
    );
    let crossing_z: u32 = if north_cost <= south_cost { 3 } else { 4 };
    let x0 = scaled_boundary(battlefield.width_mm, RIVER_CELL_X);
    let x1 = scaled_boundary(battlefield.width_mm, RIVER_CELL_X + 1);
    let z0 = scaled_boundary(battlefield.depth_mm, crossing_z);
    let z1 = scaled_boundary(battlefield.depth_mm, crossing_z + 1);
    proof {
        lemma_boundary_monotone(battlefield.width_mm, 3, 4);
        lemma_boundary_monotone(battlefield.depth_mm, crossing_z, (crossing_z + 1) as u32);
    }
    let center_x = x0 + (x1 - x0) / 2;
    let center_z = z0 + (z1 - z0) / 2;
    if from.y_mm < z0 || from.y_mm >= z1 {
        BattlePoint::new(from.x_mm, center_z)
    } else {
        BattlePoint::new(center_x, center_z)
    }
}

fn abs_diff_u64(a: u32, b: u32) -> (d: u64)
    ensures
        d == abs_diff(a as int, b as int),
{
    if a >= b {
        (a - b) as u64
    } else {
        (b - a) as u64
    }
}

proof fn lemma_boundary_value(span_mm: u32, k: u32)
    requires
        k <= 8,
    ensures
        spec_scaled_boundary(span_mm, k) as int == span_mm as int * k as int / 8,
        spec_scaled_boundary(span_mm, k) <= span_mm,
{
    assert(0 <= span_mm as int * k as int <= span_mm as int * 8) by (nonlinear_arith)
        requires
            k <= 8,
    ;
    vstd::arithmetic::div_mod::lemma_div_is_ordered(span_mm as int * k as int, span_mm as int * 8, 8);
    vstd::arithmetic::div_mod::lemma_div_is_ordered(0, span_mm as int * k as int, 8);
}

/// On a span of at least eight millimetres every grid cell is non-empty,
/// and a coordinate inside the band of row `z` lies in row `z`.
proof fn lemma_coordinate_in_row(span_mm: u32, z: u32, c: u32)
    requires
        span_mm >= 8,
        z < 8,
        spec_scaled_boundary(span_mm, z) <= c < spec_scaled_boundary(span_mm, (z + 1) as u32),
    ensures
        spec_cell_index(c, span_mm) == z,
{
    assert(spec_scaled_boundary(span_mm, 8) == span_mm);
    assert forall|k: u32| z < k <= 8 implies #[trigger] spec_scaled_boundary(span_mm, k)
        >= spec_scaled_boundary(span_mm, (z + 1) as u32) by {
        assert(span_mm as int * k as int >= span_mm as int * (z + 1) as int) by (nonlinear_arith)
            requires
                k >= z + 1,
        ;
        vstd::arithmetic::div_mod::lemma_div_is_ordered(
            span_mm as int * (z + 1) as int,
            span_mm as int * k as int,
            8,
        );
        lemma_boundary_value(span_mm, k);
        lemma_boundary_value(span_mm, (z + 1) as u32);
    }
    lemma_boundary_value(span_mm, 8);
    reveal_with_fuel(spec_cell_index_from, 8);
    assert(c < span_mm);
    if z < 7 {
        assert(spec_scaled_boundary(span_mm, 7) > c);
    }
    if z < 6 {
        assert(spec_scaled_boundary(span_mm, 6) > c);
    }
    if z < 5 {
        assert(spec_scaled_boundary(span_mm, 5) > c);
    }
    if z < 4 {
        assert(spec_scaled_boundary(span_mm, 4) > c);
    }
    if z < 3 {
        assert(spec_scaled_boundary(span_mm, 3) > c);
    }
    if z < 2 {
        assert(spec_scaled_boundary(span_mm, 2) > c);
    }
    if z < 1 {
        assert(spec_scaled_boundary(span_mm, 1) > c);
    }
}

/// The centre of the band of grid row `z` lies in that row.
proof fn lemma_band_center_in_row(span_mm: u32, z: u32)
    requires
        span_mm >= 8,
        z < 8,
    ensures
        spec_cell_index(
            (spec_scaled_boundary(span_mm, z) + (spec_scaled_boundary(span_mm, (z + 1) as u32)
                - spec_scaled_boundary(span_mm, z)) / 2) as u32,
            span_mm,
        ) == z,
{
    let lo = spec_scaled_boundary(span_mm, z);
    let hi = spec_scaled_boundary(span_mm, (z + 1) as u32);
    assert(span_mm as int * (z + 1) as int == span_mm as int * z as int + span_mm as int) by (
    nonlinear_arith);
    assert(span_mm as int * z as int <= span_mm as int * 8) by (nonlinear_arith)
        requires
            z < 8,
    ;
    vstd::arithmetic::div_mod::lemma_div_is_ordered(
        span_mm as int * z as int + 8,
        span_mm as int * (z + 1) as int,
        8,
    );
    assert((span_mm as int * z as int + 8) / 8 == span_mm as int * z as int / 8 + 1);
    lemma_boundary_value(span_mm, z);
    lemma_boundary_value(span_mm, (z + 1) as u32);
    assert(lo < hi);
    lemma_coordinate_in_row(span_mm, z, (lo + (hi - lo) / 2) as u32);
}

/// A movement waypoint is always passable ground: on a battlefield whose
/// grid cells all have room (at least eight millimetres each way), the next
/// target of any movement leg, on any terrain, is either the destination when
/// no crossing is needed, or a point on the chosen ford's row, which is
/// passable on either bank and in the river column itself.
pub proof fn movement_waypoints_are_passable(
    terrain: TacticalTerrain,
    battlefield: FlatBattlefield,
    from: BattlePoint,
    destination: BattlePoint,
)
    requires
        battlefield.width_mm >= 8,
        battlefield.depth_mm >= 8,
    ensures
        terrain.spec_is_passable_at(
            battlefield,
            terrain.spec_movement_waypoint(battlefield, from, destination),
        ),
{
    let waypoint = terrain.spec_movement_waypoint(battlefield, from, destination);
    if terrain.spec_profile() != TacticalTerrainProfile::RiverCrossingsV3 {
        let c = spec_point_cell(battlefield, waypoint);
        assert(!terrain.spec_river_cells().contains(cell(c.0, c.1)));
    } else if terrain.spec_needs_crossing(battlefield, from, destination) {
        let z = spec_chosen_crossing(battlefield, from, destination);
        lemma_band_center_in_row(battlefield.depth_mm, z);
        let c = spec_point_cell(battlefield, waypoint);
        assert(c.1 == z);
        let x0 = spec_scaled_boundary(battlefield.width_mm, RIVER_CELL_X);
        let x1 = spec_scaled_boundary(battlefield.width_mm, (RIVER_CELL_X + 1) as u32);
        let z0 = spec_scaled_boundary(battlefield.depth_mm, z);
        let z1 = spec_scaled_boundary(battlefield.depth_mm, (z + 1) as u32);
        if !(from.y_mm < z0 || from.y_mm >= z1) {
            lemma_band_center_in_row(battlefield.width_mm, RIVER_CELL_X);
        }
        if c.0 == RIVER_CELL_X {
            assert(spec_crossing_layout()[(z - 3) as int] == cell(c.0, c.1));
        } else {
            assert(!spec_river_layout().contains(cell(c.0, c.1)));
        }
    }
}

} // verus!
