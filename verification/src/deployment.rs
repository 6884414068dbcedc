use vstd::prelude::*;

use crate::tactical::{BattlePoint, BattleSide, FlatBattlefield};

verus! {

pub const DEPLOYMENT_ZONE_DIVISOR: u32 = 3;

/// An inclusive rectangle in which one side may place its units before battle.
#[derive(Copy, Clone, Debug, PartialEq, Eq, Structural)]
pub struct DeploymentZone {
    pub side: BattleSide,
    pub min_x_mm: u32,
    pub max_x_mm: u32,
    pub min_y_mm: u32,
    pub max_y_mm: u32,
}

impl DeploymentZone {
    pub open spec fn spec_contains(self, point: BattlePoint) -> bool {
        self.min_x_mm <= point.x_mm <= self.max_x_mm && self.min_y_mm <= point.y_mm
            <= self.max_y_mm
    }

    /// Zone boundaries are inclusive on all four edges.
    pub fn contains(self, point: BattlePoint) -> (inside: bool)
        ensures
            inside == self.spec_contains(point),
    {
        point.x_mm >= self.min_x_mm && point.x_mm <= self.max_x_mm && point.y_mm >= self.min_y_mm
            && point.y_mm <= self.max_y_mm
    }
}

/// The standard zone of a side: its own back third of the battlefield width,
/// over the whole depth.
pub open spec fn spec_standard_deployment_zone(
    battlefield: FlatBattlefield,
    side: BattleSide,
) -> DeploymentZone {
    let zone_width = battlefield.width_mm / DEPLOYMENT_ZONE_DIVISOR;
    match side {
        BattleSide::Attacker => DeploymentZone {
            side,
            min_x_mm: 0,
            max_x_mm: zone_width,
            min_y_mm: 0,
            max_y_mm: battlefield.depth_mm,
        },
        BattleSide::Defender => DeploymentZone {
            side,
            min_x_mm: (battlefield.width_mm - zone_width) as u32,
            max_x_mm: battlefield.width_mm,
            min_y_mm: 0,
            max_y_mm: battlefield.depth_mm,
        },
    }
}

pub fn standard_deployment_zone(battlefield: FlatBattlefield, side: BattleSide) -> (zone:
    DeploymentZone)
    ensures
        zone == spec_standard_deployment_zone(battlefield, side),
{
    let zone_width = battlefield.width_mm / DEPLOYMENT_ZONE_DIVISOR;
    let (min_x_mm, max_x_mm) = match side {
        BattleSide::Attacker => (0, zone_width),
        BattleSide::Defender => (battlefield.width_mm - zone_width, battlefield.width_mm),
    };
    DeploymentZone { side, min_x_mm, max_x_mm, min_y_mm: 0, max_y_mm: battlefield.depth_mm }
}

pub fn standard_deployment_zones(battlefield: FlatBattlefield) -> (zones: [DeploymentZone; 2])
    ensures
        zones[0] == spec_standard_deployment_zone(battlefield, BattleSide::Attacker),
        zones[1] == spec_standard_deployment_zone(battlefield, BattleSide::Defender),
{
    [
        standard_deployment_zone(battlefield, BattleSide::Attacker),
        standard_deployment_zone(battlefield, BattleSide::Defender),
    ]
}

/// The two standard zones never overlap: every point of the attacker's zone
/// lies strictly left of the defender's zone whenever the battlefield is at
/// least three millimetres wide, so the centre third stays neutral.
pub proof fn standard_zones_are_disjoint(battlefield: FlatBattlefield, point: BattlePoint)
    requires
        battlefield.width_mm >= 3,
    ensures
        !(spec_standard_deployment_zone(battlefield, BattleSide::Attacker).spec_contains(point)
            && spec_standard_deployment_zone(battlefield, BattleSide::Defender).spec_contains(
            point,
        )),
        spec_standard_deployment_zone(battlefield, BattleSide::Attacker).max_x_mm
            < spec_standard_deployment_zone(battlefield, BattleSide::Defender).min_x_mm,
{
}

} // verus!
