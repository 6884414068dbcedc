use vstd::prelude::*;

use crate::deployment::DeploymentZone;
use crate::tactical::{
    unit_views, BattlePoint, BattleSide, FlatBattlefield, TacticalUnit, TacticalUnitState, UnitView,
};

verus! {

pub const SIEGE_CAPTURE_MAX_PROGRESS: u16 = 1_000;
pub const SIEGE_CAPTURE_PROGRESS_PER_PULSE: u16 = 100;
pub const SIEGE_TOWER_COUNT: usize = 4;

#[derive(Copy, Clone, Debug, PartialEq, Eq, Structural)]
pub enum SiegeGateState {
    Closed,
    Open,
    Destroyed,
}

impl SiegeGateState {
    pub open spec fn spec_is_traversable(self) -> bool {
        self is Open || self is Destroyed
    }

    pub fn is_traversable(self) -> (traversable: bool)
        ensures
            traversable == self.spec_is_traversable(),
    {
        match self {
            SiegeGateState::Closed => false,
            _ => true,
        }
    }
}

/// An inclusive axis-aligned rectangle of the siege layout.
#[derive(Copy, Clone, Debug, PartialEq, Eq, Structural)]
pub struct SiegeArea {
    pub min_x_mm: u32,
    pub max_x_mm: u32,
    pub min_y_mm: u32,
    pub max_y_mm: u32,
}

impl SiegeArea {
    pub open spec fn spec_contains(self, point: BattlePoint) -> bool {
        self.min_x_mm <= point.x_mm <= self.max_x_mm && self.min_y_mm <= point.y_mm
            <= self.max_y_mm
    }

    pub open spec fn spec_center(self) -> BattlePoint {
        BattlePoint {
            x_mm: (self.min_x_mm + (self.max_x_mm - self.min_x_mm) / 2) as u32,
            y_mm: (self.min_y_mm + (self.max_y_mm - self.min_y_mm) / 2) as u32,
        }
    }

    pub fn contains(self, point: BattlePoint) -> (inside: bool)
        ensures
            inside == self.spec_contains(point),
    {
        point.x_mm >= self.min_x_mm && point.x_mm <= self.max_x_mm && point.y_mm >= self.min_y_mm
            && point.y_mm <= self.max_y_mm
    }

    /// The centre, rounded toward the minimum corner.
    pub fn center(self) -> (center: BattlePoint)
        requires
            self.min_x_mm <= self.max_x_mm,
            self.min_y_mm <= self.max_y_mm,
        ensures
            center == self.spec_center(),
    {
        BattlePoint::new(
            self.min_x_mm + (self.max_x_mm - self.min_x_mm) / 2,
            self.min_y_mm + (self.max_y_mm - self.min_y_mm) / 2,
        )
    }
}

#[derive(Copy, Clone, Debug, PartialEq, Eq, Structural)]
pub struct SiegeTower {
    pub center: BattlePoint,
    pub radius_mm: u32,
}

#[derive(Copy, Clone, Debug, PartialEq, Eq, Structural)]
pub struct SiegeCapturePoint {
    pub center: BattlePoint,
    pub radius_mm: u32,
}

pub open spec fn squared_distance(left: BattlePoint, right: BattlePoint) -> int {
    let dx = right.x_mm as int - left.x_mm as int;
    let dy = right.y_mm as int - left.y_mm as int;
    dx * dx + dy * dy
}

impl SiegeCapturePoint {
    /// A closed disc: the boundary circle counts as inside.
    pub open spec fn spec_contains(self, point: BattlePoint) -> bool {
        squared_distance(self.center, point) <= self.radius_mm as int * self.radius_mm as int
    }

    pub fn contains(self, point: BattlePoint) -> (inside: bool)
        ensures
            inside == self.spec_contains(point),
    {
        let dx = abs_diff_u128(point.x_mm, self.center.x_mm);
        let dy = abs_diff_u128(point.y_mm, self.center.y_mm);
        let radius = self.radius_mm as u128;
        proof {
            assert(dx * dx <= 0xffff_ffff * 0xffff_ffff) by (nonlinear_arith)
                requires
                    dx <= 0xffff_ffff,
            ;
            assert(dy * dy <= 0xffff_ffff * 0xffff_ffff) by (nonlinear_arith)
                requires
                    dy <= 0xffff_ffff,
            ;
            assert(radius * radius <= 0xffff_ffff * 0xffff_ffff) by (nonlinear_arith)
                requires
                    radius <= 0xffff_ffff,
            ;
            let ddx = point.x_mm as int - self.center.x_mm as int;
            let ddy = point.y_mm as int - self.center.y_mm as int;
            assert(dx * dx == ddx * ddx) by (nonlinear_arith)
                requires
                    dx == ddx || dx == -ddx,
            ;
            assert(dy * dy == ddy * ddy) by (nonlinear_arith)
                requires
                    dy == ddy || dy == -ddy,
            ;
        }
        dx * dx + dy * dy <= radius * radius
    }
}

fn abs_diff_u128(a: u32, b: u32) -> (d: u128)
    ensures
        d == (if a >= b { a - b } else { b - a }),
        d <= 0xffff_ffff,
{
    if a >= b {
        (a - b) as u128
    } else {
        (b - a) as u128
    }
}

/// Floor of `span * numerator / denominator`.
pub open spec fn spec_scale(span_mm: u32, numerator: u32, denominator: u32) -> u32 {
    ((span_mm as int * numerator as int) / denominator as int) as u32
}

fn scale(span_mm: u32, numerator: u32, denominator: u32) -> (scaled: u32)
    requires
        0 < denominator,
        numerator <= denominator,
    ensures
        scaled == spec_scale(span_mm, numerator, denominator),
        scaled <= span_mm,
{
    proof {
        assert(span_mm as int * numerator as int <= 0xffff_ffff * 0xffff_ffff) by (nonlinear_arith)
            requires
                span_mm <= 0xffff_ffff,
                numerator <= 0xffff_ffff,
        ;
        assert(span_mm as int * numerator as int <= span_mm as int * denominator as int)
            by (nonlinear_arith)
            requires
                numerator <= denominator,
        ;
        assert((span_mm as int * denominator as int) / denominator as int == span_mm as int)
            by (nonlinear_arith)
            requires
                denominator > 0,
        ;
        vstd::arithmetic::div_mod::lemma_div_is_ordered(
            span_mm as int * numerator as int,
            span_mm as int * denominator as int,
            denominator as int,
        );
    }
    ((span_mm as u64 * numerator as u64) / denominator as u64) as u32
}

/// The fixed layout of a siege battle: a vertical wall through the battlefield
/// with a centred gate, four towers on the wall, a capture point, and two
/// deployment zones on either side of the wall.
#[derive(Copy, Clone, Debug, PartialEq, Eq)]
pub struct SiegeLayout {
    pub wall_segments: [SiegeArea; 2],
    pub gate: SiegeArea,
    pub towers: [SiegeTower; SIEGE_TOWER_COUNT],
    pub capture_point: SiegeCapturePoint,
    pub deployment_zones: [DeploymentZone; 2],
}

pub open spec fn min_u32(a: u32, b: u32) -> u32 {
    if a <= b { a } else { b }
}

impl SiegeLayout {
    /// The layout of `test_siege` for a battlefield, stated field by field.
    pub open spec fn spec_test_siege(battlefield: FlatBattlefield) -> SiegeLayout {
        let w = battlefield.width_mm;
        let d = battlefield.depth_mm;
        let wall_min_x = spec_scale(w, 49, 100);
        let wall_max_x = spec_scale(w, 51, 100);
        let gate_min_y = spec_scale(d, 45, 100);
        let gate_max_y = spec_scale(d, 55, 100);
        let wall_center_x = (wall_min_x + (wall_max_x - wall_min_x) / 2) as u32;
        let tower_radius = (min_u32(w, d) / 50) as u32;
        SiegeLayout {
            wall_segments: [
                SiegeArea {
                    min_x_mm: wall_min_x,
                    max_x_mm: wall_max_x,
                    min_y_mm: 0,
                    max_y_mm: if gate_min_y > 0 { (gate_min_y - 1) as u32 } else { 0 },
                },
                SiegeArea {
                    min_x_mm: wall_min_x,
                    max_x_mm: wall_max_x,
                    min_y_mm: if gate_max_y < u32::MAX { (gate_max_y + 1) as u32 } else { u32::MAX },
                    max_y_mm: d,
                },
            ],
            gate: SiegeArea {
                min_x_mm: wall_min_x,
                max_x_mm: wall_max_x,
                min_y_mm: gate_min_y,
                max_y_mm: gate_max_y,
            },
            towers: [
                SiegeTower {
                    center: BattlePoint { x_mm: wall_center_x, y_mm: spec_scale(d, 15, 100) },
                    radius_mm: tower_radius,
                },
                SiegeTower {
                    center: BattlePoint { x_mm: wall_center_x, y_mm: spec_scale(d, 35, 100) },
                    radius_mm: tower_radius,
                },
                SiegeTower {
                    center: BattlePoint { x_mm: wall_center_x, y_mm: spec_scale(d, 65, 100) },
                    radius_mm: tower_radius,
                },
                SiegeTower {
                    center: BattlePoint { x_mm: wall_center_x, y_mm: spec_scale(d, 85, 100) },
                    radius_mm: tower_radius,
                },
            ],
            capture_point: SiegeCapturePoint {
                center: BattlePoint { x_mm: spec_scale(w, 80, 100), y_mm: spec_scale(d, 50, 100) },
                radius_mm: (min_u32(w, d) / 20) as u32,
            },
            deployment_zones: [
                DeploymentZone {
                    side: BattleSide::Attacker,
                    min_x_mm: 0,
                    max_x_mm: spec_scale(w, 35, 100),
                    min_y_mm: 0,
                    max_y_mm: d,
                },
                DeploymentZone {
                    side: BattleSide::Defender,
                    min_x_mm: spec_scale(w, 65, 100),
                    max_x_mm: w,
                    min_y_mm: 0,
                    max_y_mm: d,
                },
            ],
        }
    }

    pub open spec fn spec_wall_contains(self, point: BattlePoint) -> bool {
        self.wall_segments[0].spec_contains(point) || self.wall_segments[1].spec_contains(point)
    }

    /// The deterministic first siege layout.
    pub fn test_siege(battlefield: FlatBattlefield) -> (layout: Self)
        ensures
            layout == Self::spec_test_siege(battlefield),
    {
        let w = battlefield.width_mm;
        let d = battlefield.depth_mm;
        let wall_min_x = scale(w, 49, 100);
        let wall_max_x = scale(w, 51, 100);
        let gate_min_y = scale(d, 45, 100);
        let gate_max_y = scale(d, 55, 100);
        proof {
            assert(wall_min_x <= wall_max_x) by (nonlinear_arith)
                requires
                    wall_min_x == (w as int * 49) / 100,
                    wall_max_x == (w as int * 51) / 100,
                    w >= 0,
            {
                vstd::arithmetic::div_mod::lemma_div_is_ordered(w as int * 49, w as int * 51, 100);
            }
        }
        let gate = SiegeArea {
            min_x_mm: wall_min_x,
            max_x_mm: wall_max_x,
            min_y_mm: gate_min_y,
            max_y_mm: gate_max_y,
        };
        let wall_segments = [
            SiegeArea {
                min_x_mm: wall_min_x,
                max_x_mm: wall_max_x,
                min_y_mm: 0,
                max_y_mm: gate_min_y.saturating_sub(1),
            },
            SiegeArea {
                min_x_mm: wall_min_x,
                max_x_mm: wall_max_x,
                min_y_mm: gate_max_y.saturating_add(1),
                max_y_mm: d,
            },
        ];
        let wall_center_x = wall_min_x + (wall_max_x - wall_min_x) / 2;
        let min_span = if w <= d { w } else { d };
        let tower_radius = min_span / 50;
        let towers = [
            SiegeTower {
                center: BattlePoint::new(wall_center_x, scale(d, 15, 100)),
                radius_mm: tower_radius,
            },
            SiegeTower {
                center: BattlePoint::new(wall_center_x, scale(d, 35, 100)),
                radius_mm: tower_radius,
            },
            SiegeTower {
                center: BattlePoint::new(wall_center_x, scale(d, 65, 100)),
                radius_mm: tower_radius,
            },
            SiegeTower {
                center: BattlePoint::new(wall_center_x, scale(d, 85, 100)),
                radius_mm: tower_radius,
            },
        ];
        let capture_point = SiegeCapturePoint {
            center: BattlePoint::new(scale(w, 80, 100), scale(d, 50, 100)),
            radius_mm: min_span / 20,
        };
        let deployment_zones = [
            DeploymentZone {
                side: BattleSide::Attacker,
                min_x_mm: 0,
                max_x_mm: scale(w, 35, 100),
                min_y_mm: 0,
                max_y_mm: d,
            },
            DeploymentZone {
                side: BattleSide::Defender,
                min_x_mm: scale(w, 65, 100),
                max_x_mm: w,
                min_y_mm: 0,
                max_y_mm: d,
            },
        ];
        let layout = SiegeLayout { wall_segments, gate, towers, capture_point, deployment_zones };
        assert(layout.wall_segments =~= Self::spec_test_siege(battlefield).wall_segments);
        assert(layout.towers =~= Self::spec_test_siege(battlefield).towers);
        assert(layout.deployment_zones =~= Self::spec_test_siege(battlefield).deployment_zones);
        layout
    }

    pub fn wall_contains(self, point: BattlePoint) -> (inside: bool)
        ensures
            inside == self.spec_wall_contains(point),
    {
        self.wall_segments[0].contains(point) || self.wall_segments[1].contains(point)
    }
}

#[derive(Copy, Clone, Debug, PartialEq, Eq, Structural)]
pub struct SiegeCaptureState {
    pub capturing_side: Option<BattleSide>,
    pub progress: u16,
    pub captured_by: Option<BattleSide>,
}

impl SiegeCaptureState {
    pub fn initial() -> (state: Self)
        ensures
            state == (SiegeCaptureState { capturing_side: None, progress: 0, captured_by: None }),
    {
        SiegeCaptureState { capturing_side: None, progress: 0, captured_by: None }
    }
}

#[derive(Copy, Clone, Debug, PartialEq, Eq, Structural)]
pub enum WallSide {
    Left,
    Inside,
    Right,
}

pub open spec fn spec_wall_side(x_mm: u32, min_x_mm: u32, max_x_mm: u32) -> WallSide {
    if x_mm < min_x_mm {
        WallSide::Left
    } else if x_mm > max_x_mm {
        WallSide::Right
    } else {
        WallSide::Inside
    }
}

fn wall_side(x_mm: u32, min_x_mm: u32, max_x_mm: u32) -> (side: WallSide)
    ensures
        side == spec_wall_side(x_mm, min_x_mm, max_x_mm),
{
    if x_mm < min_x_mm {
        WallSide::Left
    } else if x_mm > max_x_mm {
        WallSide::Right
    } else {
        WallSide::Inside
    }
}

/// A unit standing in a closed gateway leaves it by the edge toward its
/// destination; with a destination in the gateway's span, by the nearer edge
/// (the left one on a tie). An edge at the limit of the coordinates leaves no
/// room beyond it, so the unit then leaves by the other edge.
pub open spec fn spec_escapes_left(x_mm: u32, destination_side: WallSide, gate: SiegeArea) -> bool {
    let preferred = match destination_side {
        WallSide::Left => true,
        WallSide::Right => false,
        WallSide::Inside => x_mm - gate.min_x_mm <= gate.max_x_mm - x_mm,
    };
    if preferred {
        gate.min_x_mm > 0 || gate.max_x_mm == u32::MAX
    } else {
        gate.max_x_mm == u32::MAX && gate.min_x_mm > 0
    }
}

fn escapes_left(x_mm: u32, destination_side: WallSide, gate: SiegeArea) -> (left: bool)
    requires
        gate.min_x_mm <= x_mm <= gate.max_x_mm,
    ensures
        left == spec_escapes_left(x_mm, destination_side, gate),
{
    let preferred = match destination_side {
        WallSide::Left => true,
        WallSide::Right => false,
        WallSide::Inside => x_mm - gate.min_x_mm <= gate.max_x_mm - x_mm,
    };
    if preferred {
        gate.min_x_mm > 0 || gate.max_x_mm == u32::MAX
    } else {
        gate.max_x_mm == u32::MAX && gate.min_x_mm > 0
    }
}

pub open spec fn sat_sub_one(x: u32) -> u32 {
    if x > 0 { (x - 1) as u32 } else { 0 }
}

pub open spec fn sat_add_one(x: u32) -> u32 {
    if x < u32::MAX { (x + 1) as u32 } else { u32::MAX }
}

#[derive(Copy, Clone, Debug, PartialEq, Eq)]
pub struct SiegeBattleState {
    pub layout: SiegeLayout,
    pub gate_state: SiegeGateState,
    pub capture: SiegeCaptureState,
}

impl SiegeBattleState {
    /// A wall blocks; a gate passes only when open or destroyed; the rest is open.
    pub open spec fn spec_is_passable_at(self, point: BattlePoint) -> bool {
        if self.layout.spec_wall_contains(point) {
            false
        } else if self.layout.gate.spec_contains(point) {
            self.gate_state.spec_is_traversable()
        } else {
            true
        }
    }

    /// The intermediate target of a movement leg through a gateway corridor.
    /// A unit standing inside a closed gateway is sent out by its edge.
    pub open spec fn spec_movement_waypoint(self, from: BattlePoint, destination: BattlePoint) -> BattlePoint {
        let gate = self.layout.gate;
        let gate_center = gate.spec_center();
        let from_side = spec_wall_side(from.x_mm, gate.min_x_mm, gate.max_x_mm);
        let destination_side = spec_wall_side(destination.x_mm, gate.min_x_mm, gate.max_x_mm);
        if from_side == WallSide::Inside {
            if !self.gate_state.spec_is_traversable() {
                if gate.spec_contains(from) {
                    BattlePoint {
                        x_mm: if spec_escapes_left(from.x_mm, destination_side, gate) {
                            sat_sub_one(gate.min_x_mm)
                        } else {
                            sat_add_one(gate.max_x_mm)
                        },
                        y_mm: from.y_mm,
                    }
                } else {
                    from
                }
            } else {
                match destination_side {
                    WallSide::Left => BattlePoint {
                        x_mm: sat_sub_one(gate.min_x_mm),
                        y_mm: from.y_mm,
                    },
                    WallSide::Right => BattlePoint {
                        x_mm: sat_add_one(gate.max_x_mm),
                        y_mm: from.y_mm,
                    },
                    WallSide::Inside => destination,
                }
            }
        } else if !((from_side == WallSide::Left && destination_side == WallSide::Right) || (
        from_side == WallSide::Right && destination_side == WallSide::Left)
            || !self.spec_is_passable_at(destination)) {
            destination
        } else if !(gate.min_y_mm <= from.y_mm <= gate.max_y_mm) {
            BattlePoint { x_mm: from.x_mm, y_mm: gate_center.y_mm }
        } else if !self.gate_state.spec_is_traversable() {
            BattlePoint {
                x_mm: if from_side == WallSide::Left {
                    sat_sub_one(gate.min_x_mm)
                } else {
                    sat_add_one(gate.max_x_mm)
                },
                y_mm: gate_center.y_mm,
            }
        } else {
            gate_center
        }
    }

    pub fn test_siege(battlefield: FlatBattlefield) -> (state: Self)
        ensures
            state.layout == SiegeLayout::spec_test_siege(battlefield),
            state.gate_state == SiegeGateState::Closed,
            state.capture == (SiegeCaptureState {
                capturing_side: None,
                progress: 0,
                captured_by: None,
            }),
    {
        SiegeBattleState {
            layout: SiegeLayout::test_siege(battlefield),
            gate_state: SiegeGateState::Closed,
            capture: SiegeCaptureState::initial(),
        }
    }

    pub fn is_passable_at(self, point: BattlePoint) -> (passable: bool)
        ensures
            passable == self.spec_is_passable_at(point),
    {
        if self.layout.wall_contains(point) {
            return false;
        }
        if self.layout.gate.contains(point) {
            return self.gate_state.is_traversable();
        }
        true
    }

    /// A crossing path first aligns with a gateway row, then enters its
    /// centre, then leaves on the far side. A closed gate lets a unit approach
    /// the near gate edge but never yields a waypoint inside it, whenever the
    /// gateway leaves room on at least one side; a unit standing inside a
    /// closed gateway is sent out by an edge that has room beyond it.
    pub fn movement_waypoint(self, from: BattlePoint, destination: BattlePoint) -> (waypoint:
        BattlePoint)
        requires
            self.layout.gate.min_x_mm <= self.layout.gate.max_x_mm,
            self.layout.gate.min_y_mm <= self.layout.gate.max_y_mm,
        ensures
            waypoint == self.spec_movement_waypoint(from, destination),
    {
        let gate = self.layout.gate;
        let gate_center = gate.center();
        let from_side = wall_side(from.x_mm, gate.min_x_mm, gate.max_x_mm);
        let destination_side = wall_side(destination.x_mm, gate.min_x_mm, gate.max_x_mm);
        if from_side == WallSide::Inside {
            if !self.gate_state.is_traversable() {
                if gate.contains(from) {
                    let escape_x = if escapes_left(from.x_mm, destination_side, gate) {
                        gate.min_x_mm.saturating_sub(1)
                    } else {
                        gate.max_x_mm.saturating_add(1)
                    };
                    return BattlePoint::new(escape_x, from.y_mm);
                }
                return from;
            }
            return match destination_side {
                WallSide::Left => BattlePoint::new(gate.min_x_mm.saturating_sub(1), from.y_mm),
                WallSide::Right => BattlePoint::new(gate.max_x_mm.saturating_add(1), from.y_mm),
                WallSide::Inside => destination,
            };
        }
        let crossing_required = (from_side == WallSide::Left && destination_side == WallSide::Right)
            || (from_side == WallSide::Right && destination_side == WallSide::Left)
            || !self.is_passable_at(destination);
        if !crossing_required {
            return destination;
        }
        if !(gate.min_y_mm <= from.y_mm && from.y_mm <= gate.max_y_mm) {
            return BattlePoint::new(from.x_mm, gate_center.y_mm);
        }
        let near_gate_edge = if from_side == WallSide::Left {
            gate.min_x_mm.saturating_sub(1)
        } else {
            gate.max_x_mm.saturating_add(1)
        };
        if !self.gate_state.is_traversable() {
            return BattlePoint::new(near_gate_edge, gate_center.y_mm);
        }
        BattlePoint::new(gate_center.x_mm, gate_center.y_mm)
    }
}

/// A closed gate never yields a waypoint inside it: from any start, toward
/// any destination, the next target of a siege whose gate is closed lies
/// outside the gateway, for every gateway that leaves room on at least one
/// side of it.
pub proof fn closed_gate_waypoint_never_enters_the_gate(
    state: SiegeBattleState,
    from: BattlePoint,
    destination: BattlePoint,
)
    requires
        state.gate_state == SiegeGateState::Closed,
        state.layout.gate.min_x_mm <= state.layout.gate.max_x_mm,
        state.layout.gate.min_x_mm > 0 || state.layout.gate.max_x_mm < u32::MAX,
        state.layout.gate.min_y_mm <= state.layout.gate.max_y_mm,
    ensures
        !state.layout.gate.spec_contains(state.spec_movement_waypoint(from, destination)),
{
}

// ---------------------------------------------------------------------------
// Capture
// ---------------------------------------------------------------------------

impl SiegeBattleState {
    /// A standing (neither routed nor destroyed) unit of `side` holds the
    /// capture point.
    pub open spec fn side_present(self, units: Seq<UnitView>, side: BattleSide) -> bool {
        exists|i: int|
            0 <= i < units.len() && (#[trigger] units[i]).side == side && units[i].state
                == TacticalUnitState::Formed && self.layout.capture_point.spec_contains(units[i].position)
    }

    /// One combat pulse of capture: only a side holding the point alone
    /// gains progress, from zero when the point changes hands; a full bar
    /// captures it for good; a contested or empty point changes nothing.
    pub open spec fn spec_advance_capture(self, units: Seq<UnitView>) -> SiegeBattleState {
        let attacker = self.side_present(units, BattleSide::Attacker);
        let defender = self.side_present(units, BattleSide::Defender);
        if self.capture.captured_by is Some || attacker == defender {
            self
        } else {
            let side = if attacker {
                BattleSide::Attacker
            } else {
                BattleSide::Defender
            };
            let start = if self.capture.capturing_side != Some(side) {
                0
            } else {
                self.capture.progress
            };
            let raised = if start as int + SIEGE_CAPTURE_PROGRESS_PER_PULSE as int <= u16::MAX {
                (start + SIEGE_CAPTURE_PROGRESS_PER_PULSE) as u16
            } else {
                u16::MAX
            };
            let progress = if raised < SIEGE_CAPTURE_MAX_PROGRESS {
                raised
            } else {
                SIEGE_CAPTURE_MAX_PROGRESS
            };
            SiegeBattleState {
                capture: SiegeCaptureState {
                    capturing_side: Some(side),
                    progress,
                    captured_by: if progress == SIEGE_CAPTURE_MAX_PROGRESS {
                        Some(side)
                    } else {
                        None
                    },
                },
                ..self
            }
        }
    }

    /// Advances capture once per combat pulse; see `spec_advance_capture`.
    pub fn advance_capture(&mut self, units: &[TacticalUnit])
        ensures
            *final(self) == old(self).spec_advance_capture(unit_views(units@)),
    {
        if self.capture.captured_by.is_some() {
            return;
        }
        let ghost views = unit_views(units@);
        let mut attacker_present = false;
        let mut defender_present = false;
        let mut i: usize = 0;
        while i < units.len()
            invariant
                i <= units.len(),
                views == unit_views(units@),
                views.len() == units@.len(),
                attacker_present == exists|j: int|
                    0 <= j < i && (#[trigger] views[j]).side == BattleSide::Attacker && views[j].state
                        == TacticalUnitState::Formed && self.layout.capture_point.spec_contains(views[j].position),
                defender_present == exists|j: int|
                    0 <= j < i && (#[trigger] views[j]).side == BattleSide::Defender && views[j].state
                        == TacticalUnitState::Formed && self.layout.capture_point.spec_contains(views[j].position),
            decreases units.len() - i,
        {
            let unit = &units[i];
            assert(unit@ == views[i as int]);
            if !unit.is_routed() && !unit.is_destroyed() && self.layout.capture_point.contains(
                unit.position(),
            ) {
                match unit.side() {
                    BattleSide::Attacker => attacker_present = true,
                    BattleSide::Defender => defender_present = true,
                }
            }
            i += 1;
        }
        let side = if attacker_present && !defender_present {
            BattleSide::Attacker
        } else if defender_present && !attacker_present {
            BattleSide::Defender
        } else {
            return;
        };
        let start = match self.capture.capturing_side {
            Some(current) => if current == side {
                self.capture.progress
            } else {
                0
            },
            None => 0,
        };
        let raised = start.saturating_add(SIEGE_CAPTURE_PROGRESS_PER_PULSE);
        let progress = if raised < SIEGE_CAPTURE_MAX_PROGRESS {
            raised
        } else {
            SIEGE_CAPTURE_MAX_PROGRESS
        };
        self.capture.capturing_side = Some(side);
        self.capture.progress = progress;
        if progress == SIEGE_CAPTURE_MAX_PROGRESS {
            self.capture.captured_by = Some(side);
        }
    }
}

/// A captured point stays captured by the same side, a contested one keeps
/// its progress exactly, and progress never passes the full bar.
pub proof fn capture_is_final_contest_fails_closed(state: SiegeBattleState, units: Seq<UnitView>)
    requires
        state.capture.progress <= SIEGE_CAPTURE_MAX_PROGRESS,
    ensures
        state.capture.captured_by is Some ==> state.spec_advance_capture(units) == state,
        state.side_present(units, BattleSide::Attacker) && state.side_present(units, BattleSide::Defender)
            ==> state.spec_advance_capture(units) == state,
        state.spec_advance_capture(units).capture.progress <= SIEGE_CAPTURE_MAX_PROGRESS,
        state.spec_advance_capture(units).layout == state.layout,
        state.spec_advance_capture(units).gate_state == state.gate_state,
{
}

/// One capture pulse, in terms of who stands on the point: when exactly one
/// side has a formed unit on the capture point, that side becomes the
/// capturing side; it adds one pulse of progress to its own earlier
/// progress, or starts again from nothing when the point was being taken by
/// the other side or by no one; progress never passes the maximum, and the
/// point is captured by that side exactly when the maximum is reached. When
/// both sides or neither stand on it, nothing changes.
pub proof fn capture_progress_follows_the_sole_holder(state: SiegeBattleState, units: Seq<UnitView>)
    requires
        state.capture.captured_by is None,
        state.capture.progress <= SIEGE_CAPTURE_MAX_PROGRESS,
    ensures
        ({
            let point = state.layout.capture_point;
            let holds = |side: BattleSide|
                exists|i: int|
                    0 <= i < units.len() && (#[trigger] units[i]).side == side && units[i].state
                        == TacticalUnitState::Formed && squared_distance(point.center, units[i].position)
                        <= point.radius_mm as int * point.radius_mm as int;
            let after = state.spec_advance_capture(units);
            &&& holds(BattleSide::Attacker) == holds(BattleSide::Defender) ==> after == state
            &&& forall|side: BattleSide|
                #![trigger holds(side)]
                holds(side) && !holds(
                    if side == BattleSide::Attacker {
                        BattleSide::Defender
                    } else {
                        BattleSide::Attacker
                    },
                ) ==> {
                    let earlier: int = if state.capture.capturing_side == Some(side) {
                        state.capture.progress as int
                    } else {
                        0
                    };
                    let expected: int = if earlier + SIEGE_CAPTURE_PROGRESS_PER_PULSE
                        < SIEGE_CAPTURE_MAX_PROGRESS {
                        earlier + SIEGE_CAPTURE_PROGRESS_PER_PULSE
                    } else {
                        SIEGE_CAPTURE_MAX_PROGRESS as int
                    };
                    &&& after.capture.capturing_side == Some(side)
                    &&& after.capture.progress == expected
                    &&& (after.capture.captured_by == Some(side)) == (expected
                        == SIEGE_CAPTURE_MAX_PROGRESS)
                    &&& (after.capture.captured_by is None) == (expected
                        < SIEGE_CAPTURE_MAX_PROGRESS)
                    &&& after.layout == state.layout
                    &&& after.gate_state == state.gate_state
                }
        }),
{
    let point = state.layout.capture_point;
    assert forall|side: BattleSide| #[trigger] state.side_present(units, side) == exists|i: int|
        0 <= i < units.len() && (#[trigger] units[i]).side == side && units[i].state
            == TacticalUnitState::Formed && squared_distance(point.center, units[i].position)
            <= point.radius_mm as int * point.radius_mm as int by {}
    assert(state.side_present(units, BattleSide::Attacker) == state.side_present(units, BattleSide::Attacker));
    assert(state.side_present(units, BattleSide::Defender) == state.side_present(units, BattleSide::Defender));
}

/// Inside an inclusive rectangle.
pub open spec fn within_area(area: SiegeArea, point: BattlePoint) -> bool {
    area.min_x_mm <= point.x_mm && point.x_mm <= area.max_x_mm && area.min_y_mm <= point.y_mm
        && point.y_mm <= area.max_y_mm
}

/// Siege ground: a wall segment never lets anyone through; the gateway
/// (outside the walls) lets units through exactly when its gate stands open
/// or lies destroyed; all other ground is open.
pub proof fn walls_block_and_gates_open_only_when_not_closed(state: SiegeBattleState, point: BattlePoint)
    ensures
        within_area(state.layout.wall_segments[0], point) || within_area(
            state.layout.wall_segments[1],
            point,
        ) ==> !state.spec_is_passable_at(point),
        !within_area(state.layout.wall_segments[0], point) && !within_area(
            state.layout.wall_segments[1],
            point,
        ) && within_area(state.layout.gate, point) ==> (state.spec_is_passable_at(point) == (
        state.gate_state != SiegeGateState::Closed)),
        !within_area(state.layout.wall_segments[0], point) && !within_area(
            state.layout.wall_segments[1],
            point,
        ) && !within_area(state.layout.gate, point) ==> state.spec_is_passable_at(point),
{
}

/// Routing through a gateway: a leg that stays on one side of the gateway's
/// span toward passable ground goes straight to its destination; a leg that
/// crosses from one side to the other first lines up with the gateway's
/// middle row, and from a row of the gateway heads for the gateway's centre
/// when its gate stands open or lies destroyed, or for the ground just before
/// its near edge when its gate is closed.
pub proof fn crossings_line_up_with_the_gateway(
    state: SiegeBattleState,
    from: BattlePoint,
    destination: BattlePoint,
)
    requires
        state.layout.gate.min_x_mm <= state.layout.gate.max_x_mm,
        state.layout.gate.min_y_mm <= state.layout.gate.max_y_mm,
    ensures
        ({
            let gate = state.layout.gate;
            let middle_x = gate.min_x_mm + (gate.max_x_mm - gate.min_x_mm) / 2;
            let middle_y = gate.min_y_mm + (gate.max_y_mm - gate.min_y_mm) / 2;
            let waypoint = state.spec_movement_waypoint(from, destination);
            let left_of = |x: u32| x < gate.min_x_mm;
            let right_of = |x: u32| x > gate.max_x_mm;
            &&& (left_of(from.x_mm) && !right_of(destination.x_mm) || right_of(from.x_mm)
                && !left_of(destination.x_mm)) && state.spec_is_passable_at(destination)
                ==> waypoint == destination
            &&& (left_of(from.x_mm) && right_of(destination.x_mm) || right_of(from.x_mm) && left_of(
                destination.x_mm,
            )) ==> {
                &&& !(gate.min_y_mm <= from.y_mm <= gate.max_y_mm) ==> waypoint.x_mm == from.x_mm
                    && waypoint.y_mm == middle_y
                &&& gate.min_y_mm <= from.y_mm <= gate.max_y_mm && state.gate_state
                    != SiegeGateState::Closed ==> waypoint.x_mm == middle_x && waypoint.y_mm
                    == middle_y
                &&& gate.min_y_mm <= from.y_mm <= gate.max_y_mm && state.gate_state
                    == SiegeGateState::Closed ==> waypoint.y_mm == middle_y && waypoint.x_mm == if left_of(
                    from.x_mm,
                ) {
                    gate.min_x_mm - 1
                } else {
                    gate.max_x_mm + 1
                }
            }
        }),
{
}

} // verus!
