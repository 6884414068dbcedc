use vstd::prelude::*;

use crate::campaign::{opt_text_view, sat_add_u16, sat_mul_u32};
use crate::motion::{
    lemma_move_toward,
    move_point_away, move_point_toward, point_distance_squared, points_within_distance, spec_dist2,
    spec_move_away, spec_move_toward, spec_within,
};
use crate::deployment::{
    spec_standard_deployment_zone, standard_deployment_zone,
    standard_deployment_zones, DeploymentZone,
};
use crate::terrain::{TacticalTerrain, TacticalTerrainProfile};
use crate::text::{
    decimal, decimal_text, owned,
    is_blank, is_blank_text, lemma_text_lt_total, lemma_text_lt_transitive, text_less, text_lt,
};

verus! {

pub const TACTICAL_TICKS_PER_SECOND: u32 = 20;
pub const MAX_TACTICAL_FATIGUE: u16 = 1_000;
pub const MAX_TACTICAL_MORALE: u16 = 1_000;
pub const ROUT_MORALE_THRESHOLD: u16 = 250;
pub const COMBAT_CONTACT_DISTANCE_MM: u32 = 1_500;
pub const PURSUIT_DISTANCE_MM: u32 = 6_000;

/// A point on the battlefield ground plane, in millimetres.
#[derive(Copy, Clone, Debug, PartialEq, Eq, Structural)]
pub struct BattlePoint {
    pub x_mm: u32,
    pub y_mm: u32,
}

impl BattlePoint {
    pub fn new(x_mm: u32, y_mm: u32) -> (point: Self)
        ensures
            point == (BattlePoint { x_mm, y_mm }),
    {
        BattlePoint { x_mm, y_mm }
    }
}

/// The rectangular extent of a battlefield, in millimetres.
#[derive(Copy, Clone, Debug, PartialEq, Eq, Structural)]
pub struct FlatBattlefield {
    pub width_mm: u32,
    pub depth_mm: u32,
}

impl FlatBattlefield {
    pub open spec fn spec_contains(self, point: BattlePoint) -> bool {
        point.x_mm <= self.width_mm && point.y_mm <= self.depth_mm
    }

    pub fn new(width_mm: u32, depth_mm: u32) -> (battlefield: Self)
        ensures
            battlefield == (FlatBattlefield { width_mm, depth_mm }),
    {
        FlatBattlefield { width_mm, depth_mm }
    }

    pub fn contains(self, point: BattlePoint) -> (inside: bool)
        ensures
            inside == self.spec_contains(point),
    {
        point.x_mm <= self.width_mm && point.y_mm <= self.depth_mm
    }
}

#[derive(Copy, Clone, Debug, PartialEq, Eq, Structural)]
pub enum BattleSide {
    Attacker,
    Defender,
}

#[derive(Copy, Clone, Debug, PartialEq, Eq, Structural)]
pub enum Formation {
    Line { files: u16 },
    Column { files: u16 },
}

impl Formation {
    pub open spec fn spec_files(self) -> u16 {
        match self {
            Formation::Line { files } => files,
            Formation::Column { files } => files,
        }
    }

    /// Soldiers that can fight at the front: all files of a line, half the
    /// files (rounded up, with the file count saturating at `u16::MAX` first)
    /// of a column, never more than the soldiers present.
    pub open spec fn spec_frontage_slots(self, soldiers: u16) -> u16 {
        let frontage: int = match self {
            Formation::Line { files } => files as int,
            Formation::Column { files } => if files < u16::MAX {
                (files as int + 1) / 2
            } else {
                u16::MAX as int / 2
            },
        };
        if frontage < soldiers { frontage as u16 } else { soldiers }
    }

    pub fn files(self) -> (files: u16)
        ensures
            files == self.spec_files(),
    {
        match self {
            Formation::Line { files } => files,
            Formation::Column { files } => files,
        }
    }

    pub fn frontage_slots(self, soldiers: u16) -> (slots: u16)
        ensures
            slots == self.spec_frontage_slots(soldiers),
    {
        let frontage = match self {
            Formation::Line { files } => files,
            Formation::Column { files } => files.saturating_add(1) / 2,
        };
        if frontage < soldiers {
            frontage
        } else {
            soldiers
        }
    }
}


/// Whether a unit stands in formation, has routed, or was destroyed.
#[derive(Copy, Clone, Debug, PartialEq, Eq, Structural)]
pub enum TacticalUnitState {
    Formed,
    Routed,
    Destroyed,
}

/// An order to march a unit to a destination.
#[derive(Debug, PartialEq, Eq)]
pub struct MovementOrder {
    pub unit_id: String,
    pub destination: BattlePoint,
}

impl Clone for MovementOrder {
    fn clone(&self) -> (copy: Self)
        ensures
            copy.unit_id@ == self.unit_id@,
            copy.destination == self.destination,
    {
        MovementOrder { unit_id: self.unit_id.clone(), destination: self.destination }
    }
}

/// The smallest and largest attack ranges a unit may have.
pub open spec fn valid_attack_range(attack_range_mm: u32) -> bool {
    COMBAT_CONTACT_DISTANCE_MM <= attack_range_mm <= i32::MAX
}

fn valid_attack_range_mm(attack_range_mm: u32) -> (valid: bool)
    ensures
        valid == valid_attack_range(attack_range_mm),
{
    attack_range_mm >= COMBAT_CONTACT_DISTANCE_MM && attack_range_mm <= 0x7fff_ffff
}

/// One regiment on the tactical battlefield.
#[derive(Debug, PartialEq, Eq)]
pub struct TacticalUnit {
    id: String,
    side: BattleSide,
    soldiers: u16,
    position: BattlePoint,
    formation: Formation,
    speed_mm_per_tick: u32,
    attack_range_mm: u32,
    destination: Option<BattlePoint>,
    engagement_target: Option<String>,
    fatigue: u16,
    morale: u16,
    state: TacticalUnitState,
}

/// What a tactical unit is: its fields as plain values.
pub ghost struct UnitView {
    pub id: Seq<char>,
    pub side: BattleSide,
    pub soldiers: u16,
    pub position: BattlePoint,
    pub formation: Formation,
    pub speed: u32,
    pub attack_range: u32,
    pub destination: Option<BattlePoint>,
    pub target: Option<Seq<char>>,
    pub fatigue: u16,
    pub morale: u16,
    pub state: TacticalUnitState,
}

impl View for TacticalUnit {
    type V = UnitView;

    closed spec fn view(&self) -> UnitView {
        UnitView {
            id: self.id@,
            side: self.side,
            soldiers: self.soldiers,
            position: self.position,
            formation: self.formation,
            speed: self.speed_mm_per_tick,
            attack_range: self.attack_range_mm,
            destination: self.destination,
            target: opt_text_view(self.engagement_target),
            fatigue: self.fatigue,
            morale: self.morale,
            state: self.state,
        }
    }
}

fn clone_opt_text(t: &Option<String>) -> (copy: Option<String>)
    ensures
        opt_text_view(copy) == opt_text_view(*t),
{
    match t {
        Some(text) => Some(text.clone()),
        None => None,
    }
}

impl Clone for TacticalUnit {
    fn clone(&self) -> (copy: Self)
        ensures
            copy@ == self@,
    {
        TacticalUnit {
            id: self.id.clone(),
            side: self.side,
            soldiers: self.soldiers,
            position: self.position,
            formation: self.formation,
            speed_mm_per_tick: self.speed_mm_per_tick,
            attack_range_mm: self.attack_range_mm,
            destination: self.destination,
            engagement_target: clone_opt_text(&self.engagement_target),
            fatigue: self.fatigue,
            morale: self.morale,
            state: self.state,
        }
    }
}

impl UnitView {
    pub open spec fn frontage(self) -> u16 {
        self.formation.spec_frontage_slots(self.soldiers)
    }
}

impl TacticalUnit {
    /// A fresh, formed unit at full morale with no orders and melee reach.
    pub fn new(
        id: &str,
        side: BattleSide,
        soldiers: u16,
        position: BattlePoint,
        formation: Formation,
        speed_mm_per_tick: u32,
    ) -> (unit: Self)
        ensures
            unit@ == (UnitView {
                id: id@,
                side,
                soldiers,
                position,
                formation,
                speed: speed_mm_per_tick,
                attack_range: COMBAT_CONTACT_DISTANCE_MM,
                destination: None,
                target: None,
                fatigue: 0,
                morale: MAX_TACTICAL_MORALE,
                state: TacticalUnitState::Formed,
            }),
    {
        TacticalUnit {
            id: id.to_owned(),
            side,
            soldiers,
            position,
            formation,
            speed_mm_per_tick,
            attack_range_mm: COMBAT_CONTACT_DISTANCE_MM,
            destination: None,
            engagement_target: None,
            fatigue: 0,
            morale: MAX_TACTICAL_MORALE,
            state: TacticalUnitState::Formed,
        }
    }

    /// The same unit with another attack range (validated when a battle is set up).
    pub fn with_attack_range_mm(self, attack_range_mm: u32) -> (unit: Self)
        ensures
            unit@ == (UnitView { attack_range: attack_range_mm, ..self@ }),
    {
        let mut unit = self;
        unit.attack_range_mm = attack_range_mm;
        unit
    }

    pub fn id(&self) -> (id: &str)
        ensures
            id@ == self@.id,
    {
        self.id.as_str()
    }

    pub fn side(&self) -> (side: BattleSide)
        ensures
            side == self@.side,
    {
        self.side
    }

    pub fn soldiers(&self) -> (soldiers: u16)
        ensures
            soldiers == self@.soldiers,
    {
        self.soldiers
    }

    pub fn position(&self) -> (position: BattlePoint)
        ensures
            position == self@.position,
    {
        self.position
    }

    pub fn formation(&self) -> (formation: Formation)
        ensures
            formation == self@.formation,
    {
        self.formation
    }

    pub fn frontage_slots(&self) -> (slots: u16)
        ensures
            slots == self@.frontage(),
    {
        self.formation.frontage_slots(self.soldiers)
    }

    pub fn speed_mm_per_tick(&self) -> (speed: u32)
        ensures
            speed == self@.speed,
    {
        self.speed_mm_per_tick
    }

    pub fn attack_range_mm(&self) -> (range: u32)
        ensures
            range == self@.attack_range,
    {
        self.attack_range_mm
    }

    pub fn destination(&self) -> (destination: Option<BattlePoint>)
        ensures
            destination == self@.destination,
    {
        self.destination
    }

    pub fn engagement_target(&self) -> (target: Option<&str>)
        ensures
            match target {
                Some(t) => self@.target == Some(t@),
                None => self@.target is None,
            },
    {
        match &self.engagement_target {
            Some(target) => Some(target.as_str()),
            None => None,
        }
    }

    pub fn fatigue(&self) -> (fatigue: u16)
        ensures
            fatigue == self@.fatigue,
    {
        self.fatigue
    }

    pub fn morale(&self) -> (morale: u16)
        ensures
            morale == self@.morale,
    {
        self.morale
    }

    pub fn is_routed(&self) -> (routed: bool)
        ensures
            routed == (self@.state == TacticalUnitState::Routed),
    {
        self.state == TacticalUnitState::Routed
    }

    pub fn is_destroyed(&self) -> (destroyed: bool)
        ensures
            destroyed == (self@.state == TacticalUnitState::Destroyed),
    {
        self.state == TacticalUnitState::Destroyed
    }
}

pub open spec fn unit_views(units: Seq<TacticalUnit>) -> Seq<UnitView> {
    units.map_values(|u: TacticalUnit| u@)
}

/// Unit ids strictly increase in storage order.
pub open spec fn ids_sorted(units: Seq<UnitView>) -> bool {
    forall|a: int, b: int| 0 <= a < b < units.len() ==> text_lt(#[trigger] units[a].id, #[trigger] units[b].id)
}

/// No two units share an id.
pub open spec fn distinct_ids(units: Seq<UnitView>) -> bool {
    forall|a: int, b: int| 0 <= a < units.len() && 0 <= b < units.len() && a != b ==> (#[trigger] units[a]).id != (#[trigger] units[b]).id
}

// ---------------------------------------------------------------------------
// Errors
// ---------------------------------------------------------------------------

#[derive(Debug, PartialEq, Eq)]
pub enum TacticalError {
    InvalidBattlefield { width_mm: u32, depth_mm: u32 },
    EmptyUnitId,
    DuplicateUnitId(String),
    ZeroSoldiers(String),
    InvalidFormation(String),
    ZeroMovementSpeed(String),
    InvalidAttackRange { unit_id: String, attack_range_mm: u32 },
    UnitOutOfBounds { unit_id: String, position: BattlePoint },
    UnitOnImpassableTerrain { unit_id: String, position: BattlePoint },
    UnitOutsideDeploymentZone { unit_id: String, side: BattleSide, position: BattlePoint },
    UnitNotFound(String),
    UnitCannotReceiveOrders { unit_id: String },
    DestinationOutOfBounds { unit_id: String, destination: BattlePoint },
    DestinationImpassable { unit_id: String, destination: BattlePoint },
    FriendlyEngagement { unit_id: String, target_unit_id: String },
    TargetDestroyed(String),
}

pub ghost enum TacticalErrorView {
    InvalidBattlefield { width_mm: u32, depth_mm: u32 },
    EmptyUnitId,
    DuplicateUnitId(Seq<char>),
    ZeroSoldiers(Seq<char>),
    InvalidFormation(Seq<char>),
    ZeroMovementSpeed(Seq<char>),
    InvalidAttackRange { unit_id: Seq<char>, attack_range_mm: u32 },
    UnitOutOfBounds { unit_id: Seq<char>, position: BattlePoint },
    UnitOnImpassableTerrain { unit_id: Seq<char>, position: BattlePoint },
    UnitOutsideDeploymentZone { unit_id: Seq<char>, side: BattleSide, position: BattlePoint },
    UnitNotFound(Seq<char>),
    UnitCannotReceiveOrders { unit_id: Seq<char> },
    DestinationOutOfBounds { unit_id: Seq<char>, destination: BattlePoint },
    DestinationImpassable { unit_id: Seq<char>, destination: BattlePoint },
    FriendlyEngagement { unit_id: Seq<char>, target_unit_id: Seq<char> },
    TargetDestroyed(Seq<char>),
}

impl View for TacticalError {
    type V = TacticalErrorView;

    open spec fn view(&self) -> TacticalErrorView {
        match self {
            TacticalError::InvalidBattlefield { width_mm, depth_mm } => TacticalErrorView::InvalidBattlefield {
                width_mm: *width_mm,
                depth_mm: *depth_mm,
            },
            TacticalError::EmptyUnitId => TacticalErrorView::EmptyUnitId,
            TacticalError::DuplicateUnitId(id) => TacticalErrorView::DuplicateUnitId(id@),
            TacticalError::ZeroSoldiers(id) => TacticalErrorView::ZeroSoldiers(id@),
            TacticalError::InvalidFormation(id) => TacticalErrorView::InvalidFormation(id@),
            TacticalError::ZeroMovementSpeed(id) => TacticalErrorView::ZeroMovementSpeed(id@),
            TacticalError::InvalidAttackRange { unit_id, attack_range_mm } => TacticalErrorView::InvalidAttackRange {
                unit_id: unit_id@,
                attack_range_mm: *attack_range_mm,
            },
            TacticalError::UnitOutOfBounds { unit_id, position } => TacticalErrorView::UnitOutOfBounds {
                unit_id: unit_id@,
                position: *position,
            },
            TacticalError::UnitOnImpassableTerrain { unit_id, position } => TacticalErrorView::UnitOnImpassableTerrain {
                unit_id: unit_id@,
                position: *position,
            },
            TacticalError::UnitOutsideDeploymentZone { unit_id, side, position } => TacticalErrorView::UnitOutsideDeploymentZone {
                unit_id: unit_id@,
                side: *side,
                position: *position,
            },
            TacticalError::UnitNotFound(id) => TacticalErrorView::UnitNotFound(id@),
            TacticalError::UnitCannotReceiveOrders { unit_id } => TacticalErrorView::UnitCannotReceiveOrders {
                unit_id: unit_id@,
            },
            TacticalError::DestinationOutOfBounds { unit_id, destination } => TacticalErrorView::DestinationOutOfBounds {
                unit_id: unit_id@,
                destination: *destination,
            },
            TacticalError::DestinationImpassable { unit_id, destination } => TacticalErrorView::DestinationImpassable {
                unit_id: unit_id@,
                destination: *destination,
            },
            TacticalError::FriendlyEngagement { unit_id, target_unit_id } => TacticalErrorView::FriendlyEngagement {
                unit_id: unit_id@,
                target_unit_id: target_unit_id@,
            },
            TacticalError::TargetDestroyed(id) => TacticalErrorView::TargetDestroyed(id@),
        }
    }
}

// ---------------------------------------------------------------------------
// The battle
// ---------------------------------------------------------------------------

/// The authoritative state of one tactical battle: a fixed-tick simulation
/// whose units are stored in increasing id order.
#[derive(Debug, PartialEq, Eq)]
pub struct TacticalBattle {
    tick: u64,
    battlefield: FlatBattlefield,
    terrain: TacticalTerrain,
    units: Vec<TacticalUnit>,
}

pub ghost struct BattleView {
    pub tick: u64,
    pub battlefield: FlatBattlefield,
    pub terrain: TacticalTerrain,
    pub units: Seq<UnitView>,
}

impl View for TacticalBattle {
    type V = BattleView;

    closed spec fn view(&self) -> BattleView {
        BattleView {
            tick: self.tick,
            battlefield: self.battlefield,
            terrain: self.terrain,
            units: unit_views(self.units@),
        }
    }
}

impl BattleView {
    /// What every battle keeps: a non-empty battlefield, units in strictly
    /// increasing id order, and attack ranges that setup accepts.
    pub open spec fn wf(self) -> bool {
        &&& self.battlefield.width_mm > 0
        &&& self.battlefield.depth_mm > 0
        &&& ids_sorted(self.units)
        &&& forall|i: int| 0 <= i < self.units.len() ==> valid_attack_range(#[trigger] self.units[i].attack_range)
    }
}

/// Why unit `i` cannot take the field, checked in this order; earlier units
/// are the ones its id may not repeat.
pub open spec fn setup_error(
    units: Seq<UnitView>,
    i: int,
    battlefield: FlatBattlefield,
    terrain: TacticalTerrain,
) -> Option<TacticalErrorView> {
    let unit = units[i];
    if is_blank(unit.id) {
        Some(TacticalErrorView::EmptyUnitId)
    } else if exists|j: int| 0 <= j < i && (#[trigger] units[j]).id == unit.id {
        Some(TacticalErrorView::DuplicateUnitId(unit.id))
    } else if unit.soldiers == 0 {
        Some(TacticalErrorView::ZeroSoldiers(unit.id))
    } else if unit.formation.spec_files() == 0 {
        Some(TacticalErrorView::InvalidFormation(unit.id))
    } else if unit.speed == 0 {
        Some(TacticalErrorView::ZeroMovementSpeed(unit.id))
    } else if !valid_attack_range(unit.attack_range) {
        Some(TacticalErrorView::InvalidAttackRange { unit_id: unit.id, attack_range_mm: unit.attack_range })
    } else if !battlefield.spec_contains(unit.position) {
        Some(TacticalErrorView::UnitOutOfBounds { unit_id: unit.id, position: unit.position })
    } else if !terrain.spec_is_passable_at(battlefield, unit.position) {
        Some(TacticalErrorView::UnitOnImpassableTerrain { unit_id: unit.id, position: unit.position })
    } else {
        None
    }
}

pub open spec fn first_setup_error(
    units: Seq<UnitView>,
    i: int,
    battlefield: FlatBattlefield,
    terrain: TacticalTerrain,
) -> bool {
    &&& 0 <= i < units.len()
    &&& setup_error(units, i, battlefield, terrain) is Some
    &&& forall|j: int| 0 <= j < i ==> (#[trigger] setup_error(units, j, battlefield, terrain)) is None
}

/// The units in increasing id order.
pub open spec fn sorted_by_id(units: Seq<UnitView>) -> Seq<UnitView> {
    choose|sorted: Seq<UnitView>| ids_sorted(sorted) && sorted.to_multiset() == units.to_multiset()
}

pub open spec fn foundation_terrain() -> TacticalTerrain {
    TacticalTerrain::spec_with_profile(TacticalTerrainProfile::RiverCrossingsV3)
}

/// A battle at tick zero on the standard terrain, or the first setup error:
/// an empty battlefield, else the first unit in the given order that fails.
pub open spec fn spec_new_battle(battlefield: FlatBattlefield, units: Seq<UnitView>) -> Result<
    BattleView,
    TacticalErrorView,
> {
    if battlefield.width_mm == 0 || battlefield.depth_mm == 0 {
        Err(TacticalErrorView::InvalidBattlefield {
            width_mm: battlefield.width_mm,
            depth_mm: battlefield.depth_mm,
        })
    } else if exists|i: int| first_setup_error(units, i, battlefield, foundation_terrain()) {
        let i = choose|i: int| first_setup_error(units, i, battlefield, foundation_terrain());
        Err(setup_error(units, i, battlefield, foundation_terrain())->Some_0)
    } else {
        Ok(BattleView { tick: 0, battlefield, terrain: foundation_terrain(), units: sorted_by_id(units) })
    }
}

pub open spec fn battle_result(r: Result<TacticalBattle, TacticalError>) -> Result<
    BattleView,
    TacticalErrorView,
> {
    match r {
        Ok(b) => Ok(b@),
        Err(e) => Err(e@),
    }
}

/// The deployment check after setup: the first unit, in id order, outside
/// its side's standard zone.
pub open spec fn outside_zone(battle: BattleView, i: int) -> bool {
    &&& 0 <= i < battle.units.len()
    &&& !spec_standard_deployment_zone(battle.battlefield, battle.units[i].side).spec_contains(
        battle.units[i].position,
    )
}

pub open spec fn spec_deploy_battle(battlefield: FlatBattlefield, units: Seq<UnitView>) -> Result<
    BattleView,
    TacticalErrorView,
> {
    match spec_new_battle(battlefield, units) {
        Err(e) => Err(e),
        Ok(battle) => if exists|i: int| outside_zone(battle, i) {
            let i = choose|i: int|
                outside_zone(battle, i) && forall|j: int| 0 <= j < i ==> !#[trigger] outside_zone(battle, j);
            Err(TacticalErrorView::UnitOutsideDeploymentZone {
                unit_id: battle.units[i].id,
                side: battle.units[i].side,
                position: battle.units[i].position,
            })
        } else {
            Ok(battle)
        },
    }
}

// ---------------------------------------------------------------------------
// Sorting by id
// ---------------------------------------------------------------------------

/// Two id-sorted sequences with the same units are the same sequence.
pub proof fn lemma_sorted_unique(a: Seq<UnitView>, b: Seq<UnitView>)
    requires
        ids_sorted(a),
        ids_sorted(b),
        a.to_multiset() == b.to_multiset(),
    ensures
        a == b,
    decreases a.len(),
{
    broadcast use vstd::seq_lib::group_to_multiset_ensures;

    if a.len() == 0 {
        assert(b.to_multiset().len() == 0);
        assert(b =~= a);
    } else {
        assert(a.to_multiset().count(a[0]) > 0);
        assert(b.contains(a[0]));
        let k = choose|k: int| 0 <= k < b.len() && b[k] == a[0];
        assert(a.contains(b[0])) by {
            assert(b.to_multiset().count(b[0]) > 0);
        }
        let m = choose|m: int| 0 <= m < a.len() && a[m] == b[0];
        if k > 0 {
            assert(text_lt(b[0].id, b[k].id));
            if m > 0 {
                assert(text_lt(a[0].id, a[m].id));
                lemma_text_lt_transitive(b[0].id, a[0].id, b[0].id);
            }
            lemma_text_lt_total(b[0].id, b[0].id);
        }
        assert(a[0] == b[0]);
        assert(a.drop_first() =~= a.remove(0));
        assert(b.drop_first() =~= b.remove(0));
        vstd::seq_lib::to_multiset_remove(a, 0);
        vstd::seq_lib::to_multiset_remove(b, 0);
        lemma_sorted_unique(a.drop_first(), b.drop_first());
        assert(a =~= seq![a[0]] + a.drop_first());
        assert(b =~= seq![b[0]] + b.drop_first());
    }
}

proof fn lemma_sorted_by_id_is(units: Seq<UnitView>, sorted: Seq<UnitView>)
    requires
        ids_sorted(sorted),
        sorted.to_multiset() == units.to_multiset(),
    ensures
        sorted_by_id(units) == sorted,
{
    let c = sorted_by_id(units);
    assert(ids_sorted(c) && c.to_multiset() == units.to_multiset());
    lemma_sorted_unique(c, sorted);
}

/// Insertion sort of the units by id, stable under nothing since ids differ.
fn sort_units_by_id(units: &mut Vec<TacticalUnit>)
    requires
        distinct_ids(unit_views(old(units)@)),
    ensures
        unit_views(final(units)@).to_multiset() == unit_views(old(units)@).to_multiset(),
        ids_sorted(unit_views(final(units)@)),
        final(units).len() == old(units).len(),
{
    broadcast use vstd::seq_lib::group_to_multiset_ensures;

    let ghost initial = unit_views(units@);
    let n = units.len();
    if n == 0 {
        return;
    }
    let mut i: usize = 1;
    while i < n
        invariant
            1 <= i <= n,
            units.len() == n,
            distinct_ids(unit_views(units@)),
            ids_sorted(unit_views(units@).take(i as int)),
            unit_views(units@).to_multiset() == initial.to_multiset(),
        decreases n - i,
    {
        let ghost before = unit_views(units@);
        let unit = units.remove(i);
        let ghost removed = unit_views(units@);
        proof {
            assert(removed =~= before.remove(i as int));
            assert(unit@ == before[i as int]);
        }
        let mut p: usize = 0;
        while p < i && !text_less(&unit.id, &units[p].id)
            invariant
                p <= i,
                i < n,
                units.len() == n - 1,
                unit_views(units@) == removed,
                forall|k: int| 0 <= k < p ==> !text_lt(unit@.id, #[trigger] removed[k].id),
            decreases i - p,
        {
            p += 1;
        }
        units.insert(p, unit);
        proof {
            let after = unit_views(units@);
            let u = before[i as int];
            assert(after =~= removed.insert(p as int, u));
            // the same units
            vstd::seq_lib::to_multiset_remove(before, i as int);
            vstd::seq_lib::to_multiset_insert(removed, p as int, u);
            assert(before[i as int] == u);
            assert(before.contains(u));
            vstd::seq_lib::to_multiset_contains(before, u);
            assert(after.to_multiset() =~= before.to_multiset());
            // ids stay distinct: every position of `after` comes from a distinct position of `before`
            let f = |k: int| if k < p { k } else if k == p { i as int } else if k <= i { k - 1 } else { k };
            assert forall|k: int| 0 <= k < n implies #[trigger] after[k] == before[f(k)] by {}
            assert forall|a: int, b: int|
                0 <= a < after.len() && 0 <= b < after.len() && a != b implies (#[trigger] after[a]).id
                != (#[trigger] after[b]).id by {
                assert(after[a] == before[f(a)]);
                assert(after[b] == before[f(b)]);
            }
            // the first i + 1 units are sorted
            assert forall|k: int| 0 <= k < p implies text_lt(#[trigger] removed[k].id, u.id) by {
                assert(removed[k] == before[k]);
                lemma_text_lt_total(removed[k].id, u.id);
            }
            if p < i {
                assert(text_lt(u.id, removed[p as int].id));
                assert forall|k: int| p <= k < i implies text_lt(u.id, #[trigger] removed[k].id) by {
                    if k > p {
                        assert(removed[p as int] == before[p as int]);
                        assert(removed[k] == before[k]);
                        assert(unit_views(units@).take(i as int + 1).len() == i + 1);
                        assert(before.take(i as int)[p as int] == before[p as int]);
                        assert(before.take(i as int)[k] == before[k]);
                        lemma_text_lt_transitive(u.id, before[p as int].id, before[k].id);
                    }
                }
            }
            assert forall|a: int, b: int| 0 <= a < b < i + 1 implies text_lt(
                #[trigger] after.take(i as int + 1)[a].id,
                #[trigger] after.take(i as int + 1)[b].id,
            ) by {
                assert(after.take(i as int + 1)[a] == after[a]);
                assert(after.take(i as int + 1)[b] == after[b]);
                if a < p && b < p {
                    assert(before.take(i as int)[a] == before[a]);
                    assert(before.take(i as int)[b] == before[b]);
                } else if a < p && b == p {
                } else if a < p && b > p {
                    assert(after[b] == removed[b - 1]);
                    lemma_text_lt_transitive(removed[a].id, u.id, removed[b - 1].id);
                } else if a == p {
                    assert(after[b] == removed[b - 1]);
                } else {
                    assert(after[a] == removed[a - 1]);
                    assert(after[b] == removed[b - 1]);
                    assert(before.take(i as int)[a - 1] == before[a - 1]);
                    assert(before.take(i as int)[b - 1] == before[b - 1]);
                }
            }
        }
        i += 1;
    }
    proof {
        assert(unit_views(units@).take(n as int) =~= unit_views(units@));
    }
}


// ---------------------------------------------------------------------------
// Setup
// ---------------------------------------------------------------------------

fn unit_setup_error(
    units: &Vec<TacticalUnit>,
    i: usize,
    battlefield: FlatBattlefield,
    terrain: TacticalTerrain,
) -> (error: Option<TacticalError>)
    requires
        i < units.len(),
    ensures
        match error {
            Some(e) => setup_error(unit_views(units@), i as int, battlefield, terrain) == Some(e@),
            None => setup_error(unit_views(units@), i as int, battlefield, terrain) is None,
        },
{
    let ghost views = unit_views(units@);
    let unit = &units[i];
    assert(unit@ == views[i as int]);
    if is_blank_text(unit.id.as_str()) {
        return Some(TacticalError::EmptyUnitId);
    }
    let mut j: usize = 0;
    while j < i
        invariant
            j <= i < units.len(),
            views == unit_views(units@),
            views.len() == units.len(),
            unit@ == views[i as int],
            !is_blank(views[i as int].id),
            forall|k: int| 0 <= k < j ==> (#[trigger] views[k]).id != views[i as int].id,
        decreases i - j,
    {
        if units[j].id == unit.id {
            assert(views[j as int].id == views[i as int].id);
            return Some(TacticalError::DuplicateUnitId(unit.id.clone()));
        }
        j += 1;
    }
    if unit.soldiers == 0 {
        return Some(TacticalError::ZeroSoldiers(unit.id.clone()));
    }
    if unit.formation.files() == 0 {
        return Some(TacticalError::InvalidFormation(unit.id.clone()));
    }
    if unit.speed_mm_per_tick == 0 {
        return Some(TacticalError::ZeroMovementSpeed(unit.id.clone()));
    }
    if !valid_attack_range_mm(unit.attack_range_mm) {
        return Some(
            TacticalError::InvalidAttackRange {
                unit_id: unit.id.clone(),
                attack_range_mm: unit.attack_range_mm,
            },
        );
    }
    if !battlefield.contains(unit.position) {
        return Some(
            TacticalError::UnitOutOfBounds { unit_id: unit.id.clone(), position: unit.position },
        );
    }
    if !terrain.is_passable_at(battlefield, unit.position) {
        return Some(
            TacticalError::UnitOnImpassableTerrain {
                unit_id: unit.id.clone(),
                position: unit.position,
            },
        );
    }
    None
}

/// The index of the unit with id `id`.
pub open spec fn has_unit(units: Seq<UnitView>, id: Seq<char>) -> bool {
    exists|i: int| 0 <= i < units.len() && (#[trigger] units[i]).id == id
}

pub open spec fn unit_at(units: Seq<UnitView>, id: Seq<char>) -> int {
    choose|i: int| 0 <= i < units.len() && (#[trigger] units[i]).id == id
}

pub proof fn lemma_sorted_distinct(units: Seq<UnitView>)
    requires
        ids_sorted(units),
    ensures
        distinct_ids(units),
{
    assert forall|a: int, b: int|
        0 <= a < units.len() && 0 <= b < units.len() && a != b implies (#[trigger] units[a]).id
        != (#[trigger] units[b]).id by {
        if a < b {
            lemma_text_lt_total(units[a].id, units[b].id);
        } else {
            lemma_text_lt_total(units[b].id, units[a].id);
        }
    }
}

/// In a battle, the unit found under an id is the only one with it.
pub proof fn lemma_unit_at(units: Seq<UnitView>, id: Seq<char>, i: int)
    requires
        distinct_ids(units),
        0 <= i < units.len(),
        units[i].id == id,
    ensures
        has_unit(units, id),
        unit_at(units, id) == i,
{
    assert(has_unit(units, id));
    let k = unit_at(units, id);
    assert(units[k].id == id);
}

impl TacticalBattle {
    /// Validates the units on the standard terrain and stores them in id order.
    pub fn new(battlefield: FlatBattlefield, units: Vec<TacticalUnit>) -> (battle: Result<
        Self,
        TacticalError,
    >)
        ensures
            battle_result(battle) == spec_new_battle(battlefield, unit_views(units@)),
            battle matches Ok(b) ==> b@.wf(),
    {
        broadcast use vstd::seq_lib::group_to_multiset_ensures;

        if battlefield.width_mm == 0 || battlefield.depth_mm == 0 {
            return Err(
                TacticalError::InvalidBattlefield {
                    width_mm: battlefield.width_mm,
                    depth_mm: battlefield.depth_mm,
                },
            );
        }
        let terrain = TacticalTerrain::battlefield_foundation();
        let ghost views = unit_views(units@);
        let mut i: usize = 0;
        while i < units.len()
            invariant
                i <= units.len(),
                views == unit_views(units@),
                views.len() == units.len(),
                battlefield.width_mm > 0,
                battlefield.depth_mm > 0,
                terrain == foundation_terrain(),
                forall|j: int| 0 <= j < i ==> (#[trigger] setup_error(views, j, battlefield, terrain)) is None,
            decreases units.len() - i,
        {
            match unit_setup_error(&units, i, battlefield, terrain) {
                Some(e) => {
                    proof {
                        assert(first_setup_error(views, i as int, battlefield, terrain));
                        let k = choose|k: int| first_setup_error(views, k, battlefield, terrain);
                        if k < i {
                            assert(setup_error(views, k, battlefield, terrain) is None);
                        }
                        if i < k {
                            assert(setup_error(views, i as int, battlefield, terrain) is None);
                        }
                    }
                    return Err(e);
                },
                None => {},
            }
            i += 1;
        }
        proof {
            assert(!exists|k: int| first_setup_error(views, k, battlefield, terrain));
            assert forall|a: int, b: int|
                0 <= a < views.len() && 0 <= b < views.len() && a != b implies (#[trigger] views[a]).id
                != (#[trigger] views[b]).id by {
                assert(setup_error(views, a, battlefield, terrain) is None);
                assert(setup_error(views, b, battlefield, terrain) is None);
            }
        }
        let mut units = units;
        sort_units_by_id(&mut units);
        let battle = TacticalBattle { tick: 0, battlefield, terrain, units };
        proof {
            let sorted = unit_views(battle.units@);
            lemma_sorted_by_id_is(views, sorted);
            assert forall|k: int| 0 <= k < sorted.len() implies valid_attack_range(
                #[trigger] sorted[k].attack_range,
            ) by {
                assert(sorted.contains(sorted[k]));
                vstd::seq_lib::to_multiset_contains(sorted, sorted[k]);
                vstd::seq_lib::to_multiset_contains(views, sorted[k]);
                let j = choose|j: int| 0 <= j < views.len() && views[j] == sorted[k];
                assert(setup_error(views, j, battlefield, terrain) is None);
            }
        }
        Ok(battle)
    }

    /// Sets up a battle whose units all start in their side's standard zone.
    pub fn deploy(battlefield: FlatBattlefield, units: Vec<TacticalUnit>) -> (battle: Result<
        Self,
        TacticalError,
    >)
        ensures
            battle_result(battle) == spec_deploy_battle(battlefield, unit_views(units@)),
            battle matches Ok(b) ==> b@.wf(),
    {
        let ghost input = unit_views(units@);
        let battle = match Self::new(battlefield, units) {
            Ok(battle) => battle,
            Err(e) => return Err(e),
        };
        let ghost b = battle@;
        let mut i: usize = 0;
        while i < battle.units.len()
            invariant
                i <= battle.units.len(),
                b == battle@,
                spec_new_battle(battlefield, input) == Ok::<BattleView, TacticalErrorView>(b),
                input == unit_views(units@),
                b.units.len() == battle.units.len(),
                b.battlefield == battlefield,
                forall|j: int| 0 <= j < i ==> !#[trigger] outside_zone(b, j),
            decreases battle.units.len() - i,
        {
            let unit = &battle.units[i];
            assert(unit@ == b.units[i as int]);
            let zone = standard_deployment_zone(battlefield, unit.side);
            if !zone.contains(unit.position) {
                proof {
                    assert(outside_zone(b, i as int));
                    let k = choose|k: int|
                        outside_zone(b, k) && forall|j: int| 0 <= j < k ==> !#[trigger] outside_zone(b, j);
                    assert(outside_zone(b, i as int) && forall|j: int|
                        0 <= j < i ==> !#[trigger] outside_zone(b, j));
                    if k < i {
                        assert(!outside_zone(b, k));
                    }
                    if i < k {
                        assert(!outside_zone(b, i as int));
                    }
                }
                return Err(
                    TacticalError::UnitOutsideDeploymentZone {
                        unit_id: unit.id.clone(),
                        side: unit.side,
                        position: unit.position,
                    },
                );
            }
            i += 1;
        }
        Ok(battle)
    }

    /// The two standard deployment zones, attacker first.
    pub fn deployment_zones(&self) -> (zones: [DeploymentZone; 2])
        ensures
            zones[0] == spec_standard_deployment_zone(self@.battlefield, BattleSide::Attacker),
            zones[1] == spec_standard_deployment_zone(self@.battlefield, BattleSide::Defender),
    {
        standard_deployment_zones(self.battlefield)
    }

    pub fn terrain(&self) -> (terrain: TacticalTerrain)
        ensures
            terrain == self@.terrain,
    {
        self.terrain
    }

    pub fn tick(&self) -> (tick: u64)
        ensures
            tick == self@.tick,
    {
        self.tick
    }

    pub fn battlefield(&self) -> (battlefield: FlatBattlefield)
        ensures
            battlefield == self@.battlefield,
    {
        self.battlefield
    }

    /// The units in increasing id order.
    pub fn units(&self) -> (units: &[TacticalUnit])
        ensures
            unit_views(units@) == self@.units,
    {
        self.units.as_slice()
    }

    /// The storage index of the unit with `unit_id`.
    fn unit_index(&self, unit_id: &str) -> (index: Option<usize>)
        requires
            self@.wf(),
        ensures
            match index {
                Some(i) => has_unit(self@.units, unit_id@) && i == unit_at(self@.units, unit_id@)
                    && i < self@.units.len(),
                None => !has_unit(self@.units, unit_id@),
            },
    {
        let ghost units = self@.units;
        proof {
            lemma_sorted_distinct(units);
        }
        let target = crate::text::owned(unit_id);
        let mut i: usize = 0;
        while i < self.units.len()
            invariant
                i <= self.units.len(),
                units == unit_views(self.units@),
                units.len() == self.units.len(),
                target@ == unit_id@,
                distinct_ids(units),
                forall|k: int| 0 <= k < i ==> (#[trigger] units[k]).id != unit_id@,
            decreases self.units.len() - i,
        {
            assert(self.units@[i as int]@ == units[i as int]);
            if self.units[i].id == target {
                proof {
                    lemma_unit_at(units, unit_id@, i as int);
                }
                return Some(i);
            }
            i += 1;
        }
        None
    }
}


// ---------------------------------------------------------------------------
// Orders
// ---------------------------------------------------------------------------

pub open spec fn order_result(r: Result<(), TacticalError>) -> Result<(), TacticalErrorView> {
    match r {
        Ok(()) => Ok(()),
        Err(e) => Err(e@),
    }
}

impl BattleView {
    pub open spec fn with_unit(self, i: int, unit: UnitView) -> BattleView {
        BattleView { units: self.units.update(i, unit), ..self }
    }

    /// Why the unit `unit_id` cannot take an order: it does not exist, or it
    /// is no longer formed.
    pub open spec fn order_refusal(self, unit_id: Seq<char>) -> Option<TacticalErrorView> {
        if !has_unit(self.units, unit_id) {
            Some(TacticalErrorView::UnitNotFound(unit_id))
        } else if self.units[unit_at(self.units, unit_id)].state != TacticalUnitState::Formed {
            Some(TacticalErrorView::UnitCannotReceiveOrders { unit_id })
        } else {
            None
        }
    }

    /// A move order replaces any engagement; ordering a unit to where it
    /// stands leaves it without a destination.
    pub open spec fn spec_move_order(self, unit_id: Seq<char>, destination: BattlePoint) -> (
        BattleView,
        Result<(), TacticalErrorView>,
    ) {
        match self.order_refusal(unit_id) {
            Some(e) => (self, Err(e)),
            None => if !self.battlefield.spec_contains(destination) {
                (self, Err(TacticalErrorView::DestinationOutOfBounds { unit_id, destination }))
            } else if !self.terrain.spec_is_passable_at(self.battlefield, destination) {
                (self, Err(TacticalErrorView::DestinationImpassable { unit_id, destination }))
            } else {
                let i = unit_at(self.units, unit_id);
                let unit = self.units[i];
                (
                    self.with_unit(
                        i,
                        UnitView {
                            target: None,
                            destination: if unit.position != destination {
                                Some(destination)
                            } else {
                                None
                            },
                            ..unit
                        },
                    ),
                    Ok(()),
                )
            },
        }
    }

    /// An engagement order replaces any destination; the target must be an
    /// enemy that still stands.
    pub open spec fn spec_engagement_order(self, unit_id: Seq<char>, target_id: Seq<char>) -> (
        BattleView,
        Result<(), TacticalErrorView>,
    ) {
        match self.order_refusal(unit_id) {
            Some(e) => (self, Err(e)),
            None => if !has_unit(self.units, target_id) {
                (self, Err(TacticalErrorView::UnitNotFound(target_id)))
            } else {
                let i = unit_at(self.units, unit_id);
                let t = unit_at(self.units, target_id);
                if self.units[i].side == self.units[t].side {
                    (
                        self,
                        Err(
                            TacticalErrorView::FriendlyEngagement {
                                unit_id,
                                target_unit_id: target_id,
                            },
                        ),
                    )
                } else if self.units[t].state == TacticalUnitState::Destroyed {
                    (self, Err(TacticalErrorView::TargetDestroyed(target_id)))
                } else {
                    (
                        self.with_unit(
                            i,
                            UnitView { destination: None, target: Some(target_id), ..self.units[i] },
                        ),
                        Ok(()),
                    )
                }
            },
        }
    }

    /// A formation order keeps every other order of the unit.
    pub open spec fn spec_formation_order(self, unit_id: Seq<char>, formation: Formation) -> (
        BattleView,
        Result<(), TacticalErrorView>,
    ) {
        match self.order_refusal(unit_id) {
            Some(e) => (self, Err(e)),
            None => if formation.spec_files() == 0 {
                (self, Err(TacticalErrorView::InvalidFormation(unit_id)))
            } else {
                let i = unit_at(self.units, unit_id);
                (self.with_unit(i, UnitView { formation, ..self.units[i] }), Ok(()))
            },
        }
    }
}

impl TacticalBattle {
    /// The index of a unit that may take orders, or the refusal.
    fn ordered_unit(&self, unit_id: &str) -> (found: Result<usize, TacticalError>)
        requires
            self@.wf(),
        ensures
            match found {
                Ok(i) => self@.order_refusal(unit_id@) is None && i == unit_at(self@.units, unit_id@)
                    && i < self@.units.len(),
                Err(e) => self@.order_refusal(unit_id@) == Some(e@),
            },
    {
        let index = match self.unit_index(unit_id) {
            Some(index) => index,
            None => return Err(TacticalError::UnitNotFound(unit_id.to_owned())),
        };
        assert(self.units@[index as int]@ == self@.units[index as int]);
        if self.units[index].state == TacticalUnitState::Formed {
            Ok(index)
        } else {
            Err(TacticalError::UnitCannotReceiveOrders { unit_id: self.units[index].id.clone() })
        }
    }

    pub fn issue_move_order(&mut self, order: MovementOrder) -> (result: Result<(), TacticalError>)
        requires
            old(self)@.wf(),
        ensures
            final(self)@ == old(self)@.spec_move_order(order.unit_id@, order.destination).0,
            order_result(result) == old(self)@.spec_move_order(order.unit_id@, order.destination).1,
            final(self)@.wf(),
    {
        let ghost before = self@;
        let index = match self.ordered_unit(order.unit_id.as_str()) {
            Ok(index) => index,
            Err(e) => return Err(e),
        };
        if !self.battlefield.contains(order.destination) {
            return Err(
                TacticalError::DestinationOutOfBounds {
                    unit_id: order.unit_id,
                    destination: order.destination,
                },
            );
        }
        if !self.terrain.is_passable_at(self.battlefield, order.destination) {
            return Err(
                TacticalError::DestinationImpassable {
                    unit_id: order.unit_id,
                    destination: order.destination,
                },
            );
        }
        let ghost old_units = self.units@;
        let destination = if self.units[index].position != order.destination {
            Some(order.destination)
        } else {
            None
        };
        self.units[index].engagement_target = None;
        self.units[index].destination = destination;
        proof {
            let expected = before.spec_move_order(order.unit_id@, order.destination).0;
            assert forall|j: int| 0 <= j < self.units.len() && j != index implies self.units@[j]
                == old_units[j] by {}
            assert(self@.units =~= expected.units);
        }
        Ok(())
    }

    pub fn issue_engagement_order(&mut self, unit_id: &str, target_unit_id: &str) -> (result:
        Result<(), TacticalError>)
        requires
            old(self)@.wf(),
        ensures
            final(self)@ == old(self)@.spec_engagement_order(unit_id@, target_unit_id@).0,
            order_result(result) == old(self)@.spec_engagement_order(unit_id@, target_unit_id@).1,
            final(self)@.wf(),
    {
        let ghost before = self@;
        let index = match self.ordered_unit(unit_id) {
            Ok(index) => index,
            Err(e) => return Err(e),
        };
        let target = match self.unit_index(target_unit_id) {
            Some(target) => target,
            None => return Err(TacticalError::UnitNotFound(target_unit_id.to_owned())),
        };
        assert(self.units@[index as int]@ == self@.units[index as int]);
        assert(self.units@[target as int]@ == self@.units[target as int]);
        if self.units[index].side == self.units[target].side {
            return Err(
                TacticalError::FriendlyEngagement {
                    unit_id: unit_id.to_owned(),
                    target_unit_id: target_unit_id.to_owned(),
                },
            );
        }
        if self.units[target].state == TacticalUnitState::Destroyed {
            return Err(TacticalError::TargetDestroyed(target_unit_id.to_owned()));
        }
        let ghost old_units = self.units@;
        self.units[index].destination = None;
        self.units[index].engagement_target = Some(target_unit_id.to_owned());
        proof {
            let expected = before.spec_engagement_order(unit_id@, target_unit_id@).0;
            assert forall|j: int| 0 <= j < self.units.len() && j != index implies self.units@[j]
                == old_units[j] by {}
            assert(self@.units =~= expected.units);
        }
        Ok(())
    }

    pub fn issue_formation_order(&mut self, unit_id: &str, formation: Formation) -> (result: Result<
        (),
        TacticalError,
    >)
        requires
            old(self)@.wf(),
        ensures
            final(self)@ == old(self)@.spec_formation_order(unit_id@, formation).0,
            order_result(result) == old(self)@.spec_formation_order(unit_id@, formation).1,
            final(self)@.wf(),
    {
        let ghost before = self@;
        let index = match self.ordered_unit(unit_id) {
            Ok(index) => index,
            Err(e) => return Err(e),
        };
        if formation.files() == 0 {
            return Err(TacticalError::InvalidFormation(unit_id.to_owned()));
        }
        let ghost old_units = self.units@;
        self.units[index].formation = formation;
        proof {
            let expected = before.spec_formation_order(unit_id@, formation).0;
            assert forall|j: int| 0 <= j < self.units.len() && j != index implies self.units@[j]
                == old_units[j] by {}
            assert(self@.units =~= expected.units);
        }
        Ok(())
    }
}


// ---------------------------------------------------------------------------
// Movement phase
// ---------------------------------------------------------------------------

pub const MOVEMENT_FATIGUE_PER_TICK: u16 = 1;
pub const ROUT_FATIGUE_PER_TICK: u16 = 2;
pub const IDLE_FATIGUE_RECOVERY_PER_TICK: u16 = 1;

pub open spec fn sat_sub_u16(a: u16, b: u16) -> u16 {
    if a >= b { (a - b) as u16 } else { 0 }
}

/// Fatigue after exertion, never beyond the maximum.
pub open spec fn tire(fatigue: u16, amount: u16) -> u16 {
    let raised = sat_add_u16(fatigue, amount);
    if raised < MAX_TACTICAL_FATIGUE { raised } else { MAX_TACTICAL_FATIGUE }
}

/// Twice a speed, saturating at the largest representable one.
fn double_speed(speed: u32) -> (doubled: u32)
    ensures
        doubled == sat_mul_u32(speed, 2),
{
    if speed <= 0x7fff_ffff {
        speed * 2
    } else {
        0xffff_ffff
    }
}

fn tire_by(fatigue: u16, amount: u16) -> (tired: u16)
    ensures
        tired == tire(fatigue, amount),
{
    let raised = fatigue.saturating_add(amount);
    if raised < MAX_TACTICAL_FATIGUE {
        raised
    } else {
        MAX_TACTICAL_FATIGUE
    }
}

/// The unit that `unit` targets, unless it has been destroyed.
pub open spec fn live_target(units: Seq<UnitView>, unit: UnitView) -> Option<int> {
    match unit.target {
        Some(target_id) => if has_unit(units, target_id) && units[unit_at(
            units,
            target_id,
        )].state != TacticalUnitState::Destroyed {
            Some(unit_at(units, target_id))
        } else {
            None
        },
        None => None,
    }
}

/// A formed unit's tick: it gives up a routed target that fled beyond
/// pursuit distance, holds when its engagement target is within reach (its
/// attack range against a formed target, contact distance otherwise), and
/// otherwise marches toward its destination or target (twice as fast after
/// a routed one), through the terrain's waypoint. Idle units recover.
pub open spec fn spec_formed_step(
    battlefield: FlatBattlefield,
    terrain: TacticalTerrain,
    units: Seq<UnitView>,
    i: int,
) -> UnitView {
    let unit = units[i];
    let target = live_target(units, unit);
    let rested = UnitView { fatigue: sat_sub_u16(unit.fatigue, IDLE_FATIGUE_RECOVERY_PER_TICK), ..unit };
    if target is Some && units[target->0].state == TacticalUnitState::Routed && !spec_within(
        unit.position,
        units[target->0].position,
        PURSUIT_DISTANCE_MM,
    ) {
        UnitView { target: None, ..rested }
    } else {
        let destination = if unit.destination is Some {
            unit.destination
        } else if target is Some {
            Some(units[target->0].position)
        } else {
            None
        };
        match destination {
            None => rested,
            Some(destination) => {
                let stop = if target is Some && units[target->0].state == TacticalUnitState::Formed {
                    unit.attack_range
                } else {
                    COMBAT_CONTACT_DISTANCE_MM
                };
                if unit.target is Some && spec_within(unit.position, destination, stop) {
                    rested
                } else {
                    let base = if target is Some && units[target->0].state == TacticalUnitState::Routed {
                        sat_mul_u32(unit.speed, 2)
                    } else {
                        unit.speed
                    };
                    let speed = terrain.spec_movement_speed(battlefield, unit.position, base);
                    let waypoint = terrain.spec_movement_waypoint(battlefield, unit.position, destination);
                    let next = spec_move_toward(unit.position, waypoint, speed);
                    UnitView {
                        position: next,
                        destination: if unit.destination == Some(destination) && next == destination {
                            None
                        } else {
                            unit.destination
                        },
                        fatigue: if next != unit.position {
                            tire(unit.fatigue, MOVEMENT_FATIGUE_PER_TICK)
                        } else {
                            unit.fatigue
                        },
                        ..unit
                    }
                }
            },
        }
    }
}

/// A formed enemy of unit `i`.
pub open spec fn is_enemy(units: Seq<UnitView>, i: int, c: int) -> bool {
    0 <= c < units.len() && units[c].side != units[i].side && units[c].state == TacticalUnitState::Formed
}

/// `e` is the enemy nearest to unit `i`; among equally near ones, the one
/// stored first, which is the one with the smallest id.
pub open spec fn is_nearest_enemy(units: Seq<UnitView>, i: int, e: int) -> bool {
    &&& is_enemy(units, i, e)
    &&& forall|c: int|
        #![trigger is_enemy(units, i, c)]
        is_enemy(units, i, c) && c != e ==> spec_dist2(units[i].position, units[e].position)
            < spec_dist2(units[i].position, units[c].position) || (spec_dist2(
            units[i].position,
            units[e].position,
        ) == spec_dist2(units[i].position, units[c].position) && e < c)
}

/// A routed unit's tick: it flees from the nearest formed enemy at twice
/// its speed, through the terrain's waypoint; without enemies it stays.
pub open spec fn spec_routed_step(
    battlefield: FlatBattlefield,
    terrain: TacticalTerrain,
    units: Seq<UnitView>,
    i: int,
) -> UnitView {
    let unit = units[i];
    if exists|e: int| is_nearest_enemy(units, i, e) {
        let e = choose|e: int| is_nearest_enemy(units, i, e);
        let speed = terrain.spec_movement_speed(battlefield, unit.position, sat_mul_u32(unit.speed, 2));
        let desired = spec_move_away(unit.position, units[e].position, speed, battlefield, unit.side);
        let waypoint = terrain.spec_movement_waypoint(battlefield, unit.position, desired);
        let next = spec_move_toward(unit.position, waypoint, speed);
        UnitView {
            position: next,
            fatigue: if next != unit.position {
                tire(unit.fatigue, ROUT_FATIGUE_PER_TICK)
            } else {
                unit.fatigue
            },
            ..unit
        }
    } else {
        unit
    }
}

/// Every unit moves against the positions all units had at the start of
/// the tick.
pub open spec fn spec_unit_movement(
    battlefield: FlatBattlefield,
    terrain: TacticalTerrain,
    units: Seq<UnitView>,
    i: int,
) -> UnitView {
    match units[i].state {
        TacticalUnitState::Formed => spec_formed_step(battlefield, terrain, units, i),
        TacticalUnitState::Routed => spec_routed_step(battlefield, terrain, units, i),
        TacticalUnitState::Destroyed => units[i],
    }
}

pub open spec fn movement_of(battlefield: FlatBattlefield, terrain: TacticalTerrain, units: Seq<UnitView>) -> spec_fn(int) -> UnitView {
    |i: int| spec_unit_movement(battlefield, terrain, units, i)
}

/// The fields a tick may change of a unit.
#[derive(Copy, Clone)]
struct UnitStep {
    position: BattlePoint,
    destination: Option<BattlePoint>,
    fatigue: u16,
    clear_target: bool,
}

spec fn stepped(unit: UnitView, step: UnitStep) -> UnitView {
    UnitView {
        position: step.position,
        destination: step.destination,
        fatigue: step.fatigue,
        target: if step.clear_target { None } else { unit.target },
        ..unit
    }
}

/// The storage index of the unit with id `id`.
fn position_of(units: &Vec<TacticalUnit>, id: &String) -> (found: Option<usize>)
    requires
        distinct_ids(unit_views(units@)),
    ensures
        match found {
            Some(i) => has_unit(unit_views(units@), id@) && i == unit_at(unit_views(units@), id@)
                && i < units.len(),
            None => !has_unit(unit_views(units@), id@),
        },
{
    let ghost views = unit_views(units@);
    let mut i: usize = 0;
    while i < units.len()
        invariant
            i <= units.len(),
            views == unit_views(units@),
            views.len() == units.len(),
            distinct_ids(views),
            forall|k: int| 0 <= k < i ==> (#[trigger] views[k]).id != id@,
        decreases units.len() - i,
    {
        assert(units@[i as int]@ == views[i as int]);
        if units[i].id == *id {
            proof {
                lemma_unit_at(views, id@, i as int);
            }
            return Some(i);
        }
        i += 1;
    }
    None
}

fn live_target_of(units: &Vec<TacticalUnit>, i: usize) -> (target: Option<usize>)
    requires
        distinct_ids(unit_views(units@)),
        i < units.len(),
    ensures
        match target {
            Some(t) => live_target(unit_views(units@), unit_views(units@)[i as int]) == Some(t as int)
                && t < units.len(),
            None => live_target(unit_views(units@), unit_views(units@)[i as int]) is None,
        },
{
    assert(units@[i as int]@ == unit_views(units@)[i as int]);
    match &units[i].engagement_target {
        Some(target_id) => match position_of(units, target_id) {
            Some(t) => {
                assert(units@[t as int]@ == unit_views(units@)[t as int]);
                if units[t].state != TacticalUnitState::Destroyed {
                    Some(t)
                } else {
                    None
                }
            },
            None => None,
        },
        None => None,
    }
}

fn formed_step(
    battlefield: FlatBattlefield,
    terrain: TacticalTerrain,
    units: &Vec<TacticalUnit>,
    i: usize,
) -> (step: UnitStep)
    requires
        distinct_ids(unit_views(units@)),
        i < units.len(),
        battlefield.width_mm > 0,
        battlefield.depth_mm > 0,
        valid_attack_range(unit_views(units@)[i as int].attack_range),
    ensures
        stepped(unit_views(units@)[i as int], step) == spec_formed_step(
            battlefield,
            terrain,
            unit_views(units@),
            i as int,
        ),
{
    let ghost views = unit_views(units@);
    let unit = &units[i];
    assert(unit@ == views[i as int]);
    let rested = UnitStep {
        position: unit.position,
        destination: unit.destination,
        fatigue: unit.fatigue.saturating_sub(IDLE_FATIGUE_RECOVERY_PER_TICK),
        clear_target: false,
    };
    let target = live_target_of(units, i);
    if let Some(t) = target {
        assert(units@[t as int]@ == views[t as int]);
        if units[t].state == TacticalUnitState::Routed && !points_within_distance(
            unit.position,
            units[t].position,
            PURSUIT_DISTANCE_MM,
        ) {
            return UnitStep { clear_target: true, ..rested };
        }
    }
    let destination = match unit.destination {
        Some(d) => d,
        None => match target {
            Some(t) => units[t].position,
            None => return rested,
        },
    };
    let stop = match target {
        Some(t) => if units[t].state == TacticalUnitState::Formed {
            unit.attack_range_mm
        } else {
            COMBAT_CONTACT_DISTANCE_MM
        },
        None => COMBAT_CONTACT_DISTANCE_MM,
    };
    if unit.engagement_target.is_some() && points_within_distance(unit.position, destination, stop) {
        return rested;
    }
    let base = match target {
        Some(t) => if units[t].state == TacticalUnitState::Routed {
            double_speed(unit.speed_mm_per_tick)
        } else {
            unit.speed_mm_per_tick
        },
        None => unit.speed_mm_per_tick,
    };
    let speed = terrain.movement_speed_mm_per_tick(battlefield, unit.position, base);
    let waypoint = terrain.movement_waypoint(battlefield, unit.position, destination);
    let next = move_point_toward(unit.position, waypoint, speed);
    let arrived = match unit.destination {
        Some(d) => d == destination && next == destination,
        None => false,
    };
    UnitStep {
        position: next,
        destination: if arrived {
            None
        } else {
            unit.destination
        },
        fatigue: if next != unit.position {
            tire_by(unit.fatigue, MOVEMENT_FATIGUE_PER_TICK)
        } else {
            unit.fatigue
        },
        clear_target: false,
    }
}

/// The nearest formed enemy of unit `i`, the first stored among equals.
fn nearest_enemy(units: &Vec<TacticalUnit>, i: usize) -> (enemy: Option<usize>)
    requires
        i < units.len(),
    ensures
        match enemy {
            Some(e) => is_nearest_enemy(unit_views(units@), i as int, e as int),
            None => !exists|c: int| is_enemy(unit_views(units@), i as int, c),
        },
{
    let ghost views = unit_views(units@);
    assert(units@[i as int]@ == views[i as int]);
    let mut best: Option<(usize, u128)> = None;
    let mut c: usize = 0;
    while c < units.len()
        invariant
            c <= units.len(),
            i < units.len(),
            views == unit_views(units@),
            views.len() == units.len(),
            match best {
                Some((e, d)) => e < c && is_enemy(views, i as int, e as int) && d == spec_dist2(
                    views[i as int].position,
                    views[e as int].position,
                ) && forall|k: int|
                    #![trigger is_enemy(views, i as int, k)]
                    0 <= k < c && is_enemy(views, i as int, k) && k != e ==> d < spec_dist2(
                        views[i as int].position,
                        views[k].position,
                    ) || (d == spec_dist2(views[i as int].position, views[k].position) && e < k),
                None => forall|k: int| 0 <= k < c ==> !#[trigger] is_enemy(views, i as int, k),
            },
        decreases units.len() - c,
    {
        assert(units@[c as int]@ == views[c as int]);
        if units[c].side != units[i].side && units[c].state == TacticalUnitState::Formed {
            let d = point_distance_squared(units[i].position, units[c].position);
            match best {
                Some((_, best_d)) => {
                    if d < best_d {
                        best = Some((c, d));
                    }
                },
                None => {
                    best = Some((c, d));
                },
            }
        }
        c += 1;
    }
    match best {
        Some((e, _)) => Some(e),
        None => None,
    }
}

fn routed_step(
    battlefield: FlatBattlefield,
    terrain: TacticalTerrain,
    units: &Vec<TacticalUnit>,
    i: usize,
) -> (step: UnitStep)
    requires
        i < units.len(),
        battlefield.width_mm > 0,
        battlefield.depth_mm > 0,
    ensures
        stepped(unit_views(units@)[i as int], step) == spec_routed_step(
            battlefield,
            terrain,
            unit_views(units@),
            i as int,
        ),
{
    let ghost views = unit_views(units@);
    let unit = &units[i];
    assert(unit@ == views[i as int]);
    let stay = UnitStep {
        position: unit.position,
        destination: unit.destination,
        fatigue: unit.fatigue,
        clear_target: false,
    };
    let enemy = match nearest_enemy(units, i) {
        Some(e) => e,
        None => {
            assert(!exists|e: int| is_nearest_enemy(views, i as int, e));
            return stay;
        },
    };
    proof {
        let e = choose|e: int| is_nearest_enemy(views, i as int, e);
        if e != enemy {
            assert(is_enemy(views, i as int, e));
            assert(is_enemy(views, i as int, enemy as int));
        }
    }
    assert(units@[enemy as int]@ == views[enemy as int]);
    let speed = terrain.movement_speed_mm_per_tick(
        battlefield,
        unit.position,
        double_speed(unit.speed_mm_per_tick),
    );
    let desired = move_point_away(unit.position, units[enemy].position, speed, battlefield, unit.side);
    let waypoint = terrain.movement_waypoint(battlefield, unit.position, desired);
    let next = move_point_toward(unit.position, waypoint, speed);
    UnitStep {
        position: next,
        destination: unit.destination,
        fatigue: if next != unit.position {
            tire_by(unit.fatigue, ROUT_FATIGUE_PER_TICK)
        } else {
            unit.fatigue
        },
        clear_target: false,
    }
}


// ---------------------------------------------------------------------------
// Casualty formulas
// ---------------------------------------------------------------------------

pub const COMBAT_FATIGUE_PER_PULSE: u16 = 30;
pub const PURSUIT_CASUALTY_DIVISOR: u32 = 4;
pub const MELEE_CASUALTY_DIVISOR: u32 = 8;
pub const RANGED_CASUALTY_DIVISOR: u32 = 12;

/// Fatigue costs up to half of a unit's fighting effectiveness (per mille).
pub open spec fn fatigue_factor(unit: UnitView) -> u32 {
    if unit.fatigue / 2 <= 1000 { (1000 - unit.fatigue / 2) as u32 } else { 0 }
}

/// Morale scales effectiveness from 750 per mille upward.
pub open spec fn morale_factor(unit: UnitView) -> u32 {
    (750 + unit.morale / 4) as u32
}

/// Soldiers effectively fighting from `frontage` slots.
pub open spec fn effective_frontage(frontage: u32, unit: UnitView) -> u32 {
    (sat_mul_u32(sat_mul_u32(frontage, fatigue_factor(unit)), morale_factor(unit)) / 1_000_000) as u32
}

pub open spec fn at_least_one(losses: u32) -> u32 {
    if losses >= 1 { losses } else { 1 }
}

pub open spec fn capped_losses(losses: u32, soldiers: u16) -> u16 {
    if losses < soldiers { losses as u16 } else { soldiers }
}

/// Melee losses that `attacker`, fighting with `frontage` slots, inflicts.
pub open spec fn spec_melee_casualties(attacker: UnitView, defender: UnitView, frontage: u16) -> u16 {
    if attacker.state != TacticalUnitState::Formed || defender.soldiers == 0 || frontage == 0 {
        0
    } else {
        capped_losses(
            at_least_one(effective_frontage(frontage as u32, attacker) / MELEE_CASUALTY_DIVISOR),
            defender.soldiers,
        )
    }
}

/// Losses that a volley of `attacker` inflicts at range.
pub open spec fn spec_ranged_casualties(attacker: UnitView, defender: UnitView) -> u16 {
    if attacker.state != TacticalUnitState::Formed || defender.soldiers == 0 {
        0
    } else {
        capped_losses(
            at_least_one(effective_frontage(attacker.frontage() as u32, attacker) / RANGED_CASUALTY_DIVISOR),
            defender.soldiers,
        )
    }
}

/// Losses that `pursuer` inflicts on a routed unit.
pub open spec fn spec_pursuit_casualties(pursuer: UnitView) -> u16 {
    at_least_one(
        (sat_mul_u32(pursuer.frontage() as u32, fatigue_factor(pursuer)) / 1000) / PURSUIT_CASUALTY_DIVISOR,
    ) as u16
}

/// The morale lost to `casualties` out of `before` soldiers: eight points a
/// casualty plus half the casualty ratio in per mille, at most all morale.
pub open spec fn spec_morale_shock(before: u16, casualties: u16) -> u16 {
    if before == 0 || casualties == 0 {
        0
    } else {
        let shock: int = casualties * 8 + (casualties as int * 1000 / before as int) / 2;
        if shock < MAX_TACTICAL_MORALE { shock as u16 } else { MAX_TACTICAL_MORALE }
    }
}

fn mul_saturating(a: u32, b: u32) -> (product: u32)
    ensures
        product == sat_mul_u32(a, b),
{
    match a.checked_mul(b) {
        Some(product) => product,
        None => 0xffff_ffff,
    }
}

fn fatigue_factor_of(unit: &TacticalUnit) -> (factor: u32)
    ensures
        factor == fatigue_factor(unit@),
{
    let half = (unit.fatigue / 2) as u32;
    if half <= 1000 {
        1000 - half
    } else {
        0
    }
}

fn effective_frontage_of(frontage: u32, unit: &TacticalUnit) -> (effective: u32)
    ensures
        effective == effective_frontage(frontage, unit@),
{
    let morale_factor = 750 + (unit.morale / 4) as u32;
    mul_saturating(mul_saturating(frontage, fatigue_factor_of(unit)), morale_factor) / 1_000_000
}

fn cap_losses(losses: u32, soldiers: u16) -> (capped: u16)
    ensures
        capped == capped_losses(losses, soldiers),
{
    if losses < soldiers as u32 {
        losses as u16
    } else {
        soldiers
    }
}

fn melee_casualties(attacker: &TacticalUnit, defender: &TacticalUnit, frontage: u16) -> (losses: u16)
    ensures
        losses == spec_melee_casualties(attacker@, defender@, frontage),
{
    if attacker.state != TacticalUnitState::Formed || defender.soldiers == 0 || frontage == 0 {
        return 0;
    }
    let losses = effective_frontage_of(frontage as u32, attacker) / MELEE_CASUALTY_DIVISOR;
    cap_losses(if losses >= 1 { losses } else { 1 }, defender.soldiers)
}

fn ranged_casualties(attacker: &TacticalUnit, defender: &TacticalUnit) -> (losses: u16)
    ensures
        losses == spec_ranged_casualties(attacker@, defender@),
{
    if attacker.state != TacticalUnitState::Formed || defender.soldiers == 0 {
        return 0;
    }
    let frontage = attacker.frontage_slots() as u32;
    let losses = effective_frontage_of(frontage, attacker) / RANGED_CASUALTY_DIVISOR;
    cap_losses(if losses >= 1 { losses } else { 1 }, defender.soldiers)
}

fn pursuit_casualties(pursuer: &TacticalUnit) -> (losses: u16)
    ensures
        losses == spec_pursuit_casualties(pursuer@),
{
    let frontage = pursuer.frontage_slots() as u32;
    let factor = fatigue_factor_of(pursuer);
    let product = mul_saturating(frontage, factor);
    assert(frontage * factor <= 0xffff * 1000) by (nonlinear_arith)
        requires
            frontage <= 0xffff,
            factor <= 1000,
    ;
    let effective = product / 1000;
    let losses = effective / PURSUIT_CASUALTY_DIVISOR;
    (if losses >= 1 { losses } else { 1 }) as u16
}

fn casualty_morale_shock(before: u16, casualties: u16) -> (shock: u16)
    ensures
        shock == spec_morale_shock(before, casualties),
{
    if before == 0 || casualties == 0 {
        return 0;
    }
    let ratio = casualties as u32 * 1000 / before as u32;
    let shock = casualties as u32 * 8 + ratio / 2;
    if shock < MAX_TACTICAL_MORALE as u32 {
        shock as u16
    } else {
        MAX_TACTICAL_MORALE
    }
}


// ---------------------------------------------------------------------------
// Combat pulse
// ---------------------------------------------------------------------------

/// The storage index of the unit that unit `i` is ordered to engage.
pub open spec fn engaged_index(units: Seq<UnitView>, i: int) -> Option<int> {
    match units[i].target {
        Some(id) => if has_unit(units, id) {
            Some(unit_at(units, id))
        } else {
            None
        },
        None => None,
    }
}

/// Formed unit `i` is ordered to engage `t`, a standing enemy.
pub open spec fn proposes(units: Seq<UnitView>, i: int, t: int) -> bool {
    &&& units[i].state == TacticalUnitState::Formed
    &&& engaged_index(units, i) == Some(t)
    &&& units[t].state != TacticalUnitState::Destroyed
    &&& units[t].side != units[i].side
}

/// `u` and `v` fight hand to hand: one is ordered to engage the other, both
/// stand formed, and they are within contact distance.
pub open spec fn in_melee(units: Seq<UnitView>, u: int, v: int) -> bool {
    &&& 0 <= u < units.len()
    &&& 0 <= v < units.len()
    &&& proposes(units, u, v) || proposes(units, v, u)
    &&& units[u].state == TacticalUnitState::Formed
    &&& units[v].state == TacticalUnitState::Formed
    &&& spec_within(units[u].position, units[v].position, COMBAT_CONTACT_DISTANCE_MM)
}

/// Formed `v`, ordered to engage the routed `u`, is within pursuit distance.
pub open spec fn pursues(units: Seq<UnitView>, v: int, u: int) -> bool {
    &&& 0 <= u < units.len()
    &&& 0 <= v < units.len()
    &&& proposes(units, v, u)
    &&& units[u].state == TacticalUnitState::Routed
    &&& spec_within(units[u].position, units[v].position, PURSUIT_DISTANCE_MM)
}

/// How many of the units stored before `k` fight `u` hand to hand.
pub open spec fn melee_count(units: Seq<UnitView>, u: int, k: int) -> int
    decreases k,
{
    if k <= 0 {
        0
    } else {
        melee_count(units, u, k - 1) + if in_melee(units, u, k - 1) { 1int } else { 0 }
    }
}

pub open spec fn contacts(units: Seq<UnitView>, u: int) -> int {
    melee_count(units, u, units.len() as int)
}

/// The frontage that `u` turns against its melee opponent `v`: its slots
/// shared evenly among all its opponents, the earlier stored ones taking
/// one more slot each while the remainder lasts.
pub open spec fn allocation(units: Seq<UnitView>, u: int, v: int) -> int {
    let c = contacts(units, u);
    let r = melee_count(units, u, v);
    let f = units[u].frontage() as int;
    if c == 0 || r >= c {
        0
    } else {
        f / c + if r < f % c { 1int } else { 0 }
    }
}

/// Unit `i` shoots its target this pulse: a formed unit with more than
/// contact reach and no melee opponent, whose formed enemy target lies
/// beyond contact distance and within range, and the volley hits someone.
pub open spec fn volley(units: Seq<UnitView>, i: int) -> bool {
    &&& 0 <= i < units.len()
    &&& units[i].state == TacticalUnitState::Formed
    &&& units[i].attack_range > COMBAT_CONTACT_DISTANCE_MM
    &&& contacts(units, i) == 0
    &&& engaged_index(units, i) is Some
    &&& ({
        let t = engaged_index(units, i)->0;
        &&& units[t].state == TacticalUnitState::Formed
        &&& units[t].side != units[i].side
        &&& !spec_within(units[i].position, units[t].position, COMBAT_CONTACT_DISTANCE_MM)
        &&& spec_within(units[i].position, units[t].position, units[i].attack_range)
        &&& spec_ranged_casualties(units[i], units[t]) > 0
    })
}

/// The losses unit `u` suffers at the hands of unit `k` this pulse.
pub open spec fn received(units: Seq<UnitView>, u: int, k: int) -> int {
    (if volley(units, k) && engaged_index(units, k) == Some(u) {
        spec_ranged_casualties(units[k], units[u]) as int
    } else {
        0
    }) + (if in_melee(units, u, k) {
        spec_melee_casualties(units[k], units[u], allocation(units, k, u) as u16) as int
    } else {
        0
    }) + (if pursues(units, k, u) {
        spec_pursuit_casualties(units[k]) as int
    } else {
        0
    })
}

pub open spec fn received_total(units: Seq<UnitView>, u: int, k: int) -> int
    decreases k,
{
    if k <= 0 {
        0
    } else {
        received_total(units, u, k - 1) + received(units, u, k - 1)
    }
}

/// Unit `k` strikes unit `u` this pulse (even for no losses, in melee).
pub open spec fn strikes(units: Seq<UnitView>, k: int, u: int) -> bool {
    ||| volley(units, k) && engaged_index(units, k) == Some(u)
    ||| in_melee(units, u, k)
    ||| pursues(units, k, u)
}

pub open spec fn struck(units: Seq<UnitView>, u: int) -> bool {
    exists|k: int| 0 <= k < units.len() && #[trigger] strikes(units, k, u)
}

/// Unit `u` exerts itself this pulse: it shoots, fights hand to hand, or
/// pursues.
pub open spec fn fought(units: Seq<UnitView>, u: int) -> bool {
    volley(units, u) || exists|k: int| 0 <= k < units.len() && #[trigger] exerts(units, u, k)
}

/// `u` fights `k` hand to hand or pursues it.
pub open spec fn exerts(units: Seq<UnitView>, u: int, k: int) -> bool {
    in_melee(units, u, k) || pursues(units, u, k)
}

/// A unit after a combat pulse: exertion tires it; then its losses, never
/// more than it has, are applied; a unit left without soldiers is destroyed,
/// and a formed one whose morale the losses shake to the rout threshold
/// routs. Either way it drops its orders.
pub open spec fn spec_pulse_unit(units: Seq<UnitView>, u: int) -> UnitView {
    let unit = units[u];
    let tired = UnitView {
        fatigue: if fought(units, u) {
            tire(unit.fatigue, COMBAT_FATIGUE_PER_PULSE)
        } else {
            unit.fatigue
        },
        ..unit
    };
    if !struck(units, u) || unit.soldiers == 0 || unit.state == TacticalUnitState::Destroyed {
        tired
    } else {
        let total = received_total(units, u, units.len() as int);
        let applied: u16 = if total < unit.soldiers {
            total as u16
        } else {
            unit.soldiers
        };
        let left = (unit.soldiers - applied) as u16;
        if left == 0 {
            UnitView {
                soldiers: 0,
                morale: 0,
                state: TacticalUnitState::Destroyed,
                destination: None,
                target: None,
                ..tired
            }
        } else if unit.state == TacticalUnitState::Formed {
            let morale = sat_sub_u16(unit.morale, spec_morale_shock(unit.soldiers, applied));
            if morale <= ROUT_MORALE_THRESHOLD {
                UnitView {
                    soldiers: left,
                    morale,
                    state: TacticalUnitState::Routed,
                    destination: None,
                    target: None,
                    ..tired
                }
            } else {
                UnitView { soldiers: left, morale, ..tired }
            }
        } else {
            UnitView { soldiers: left, ..tired }
        }
    }
}

pub open spec fn pulse_of(units: Seq<UnitView>) -> spec_fn(int) -> UnitView {
    |u: int| spec_pulse_unit(units, u)
}

spec fn idx(o: Option<usize>) -> Option<int> {
    match o {
        Some(i) => Some(i as int),
        None => None,
    }
}

/// `targets` holds the engaged index of every unit.
spec fn targets_of(units: Seq<UnitView>, targets: Seq<Option<usize>>) -> bool {
    &&& targets.len() == units.len()
    &&& forall|k: int| 0 <= k < units.len() ==> idx(#[trigger] targets[k]) == engaged_index(units, k)
    &&& forall|k: int| 0 <= k < units.len() && (#[trigger] targets[k]) is Some ==> targets[k]->0 < units.len()
}

fn engaged_indices(units: &Vec<TacticalUnit>) -> (targets: Vec<Option<usize>>)
    requires
        distinct_ids(unit_views(units@)),
    ensures
        targets_of(unit_views(units@), targets@),
{
    let ghost views = unit_views(units@);
    let mut targets: Vec<Option<usize>> = Vec::new();
    let mut k: usize = 0;
    while k < units.len()
        invariant
            k <= units.len(),
            views == unit_views(units@),
            views.len() == units.len(),
            distinct_ids(views),
            targets.len() == k,
            forall|j: int| 0 <= j < k ==> idx(#[trigger] targets@[j]) == engaged_index(views, j),
            forall|j: int| 0 <= j < k && (#[trigger] targets@[j]) is Some ==> targets@[j]->0 < units.len(),
        decreases units.len() - k,
    {
        assert(units@[k as int]@ == views[k as int]);
        let target = match &units[k].engagement_target {
            Some(id) => position_of(units, id),
            None => None,
        };
        targets.push(target);
        k += 1;
    }
    targets
}

fn proposes_at(units: &Vec<TacticalUnit>, targets: &Vec<Option<usize>>, i: usize, t: usize) -> (p:
    bool)
    requires
        targets_of(unit_views(units@), targets@),
        i < units.len(),
        t < units.len(),
    ensures
        p == proposes(unit_views(units@), i as int, t as int),
{
    assert(units@[i as int]@ == unit_views(units@)[i as int]);
    assert(units@[t as int]@ == unit_views(units@)[t as int]);
    assert(idx(targets@[i as int]) == engaged_index(unit_views(units@), i as int));
    let aims = match targets[i] {
        Some(x) => x == t,
        None => false,
    };
    units[i].state == TacticalUnitState::Formed && aims && units[t].state
        != TacticalUnitState::Destroyed && units[t].side != units[i].side
}

fn in_melee_at(units: &Vec<TacticalUnit>, targets: &Vec<Option<usize>>, u: usize, v: usize) -> (m:
    bool)
    requires
        targets_of(unit_views(units@), targets@),
        u < units.len(),
        v < units.len(),
    ensures
        m == in_melee(unit_views(units@), u as int, v as int),
{
    assert(units@[u as int]@ == unit_views(units@)[u as int]);
    assert(units@[v as int]@ == unit_views(units@)[v as int]);
    (proposes_at(units, targets, u, v) || proposes_at(units, targets, v, u)) && units[u].state
        == TacticalUnitState::Formed && units[v].state == TacticalUnitState::Formed
        && points_within_distance(units[u].position, units[v].position, COMBAT_CONTACT_DISTANCE_MM)
}

fn pursues_at(units: &Vec<TacticalUnit>, targets: &Vec<Option<usize>>, v: usize, u: usize) -> (p:
    bool)
    requires
        targets_of(unit_views(units@), targets@),
        u < units.len(),
        v < units.len(),
    ensures
        p == pursues(unit_views(units@), v as int, u as int),
{
    assert(units@[u as int]@ == unit_views(units@)[u as int]);
    assert(units@[v as int]@ == unit_views(units@)[v as int]);
    proposes_at(units, targets, v, u) && units[u].state == TacticalUnitState::Routed
        && points_within_distance(units[u].position, units[v].position, PURSUIT_DISTANCE_MM)
}

fn melee_count_at(units: &Vec<TacticalUnit>, targets: &Vec<Option<usize>>, u: usize, k: usize) -> (count: usize)
    requires
        targets_of(unit_views(units@), targets@),
        u < units.len(),
        k <= units.len(),
    ensures
        count == melee_count(unit_views(units@), u as int, k as int),
        count <= k,
{
    let mut count: usize = 0;
    let mut w: usize = 0;
    while w < k
        invariant
            targets_of(unit_views(units@), targets@),
            u < units.len(),
            w <= k <= units.len(),
            count == melee_count(unit_views(units@), u as int, w as int),
            count <= w,
        decreases k - w,
    {
        if in_melee_at(units, targets, u, w) {
            count += 1;
        }
        w += 1;
    }
    count
}

proof fn lemma_allocation_bound(f: int, c: int, r: int)
    requires
        0 <= f <= 0xffff,
        c > 0,
        0 <= r,
    ensures
        0 <= f / c + (if r < f % c { 1int } else { 0 }) <= 0xffff,
{
    if f % c > 0 {
        assert(c >= 2);
        assert(f / c <= f / 2) by (nonlinear_arith) requires c >= 2, f >= 0;
    } else {
        assert(f / c <= f) by (nonlinear_arith) requires c >= 1, f >= 0;
    }
    assert(f / c >= 0) by (nonlinear_arith) requires c >= 1, f >= 0;
}

fn allocation_at(
    units: &Vec<TacticalUnit>,
    targets: &Vec<Option<usize>>,
    contacts_of: &Vec<usize>,
    u: usize,
    v: usize,
) -> (slots: u16)
    requires
        targets_of(unit_views(units@), targets@),
        contacts_of.len() == units.len(),
        forall|k: int| 0 <= k < units.len() ==> #[trigger] contacts_of@[k] == contacts(unit_views(units@), k),
        u < units.len(),
        v < units.len(),
    ensures
        slots == allocation(unit_views(units@), u as int, v as int),
{
    let c = contacts_of[u];
    let r = melee_count_at(units, targets, u, v);
    assert(units@[u as int]@ == unit_views(units@)[u as int]);
    let f = units[u].frontage_slots() as usize;
    if c == 0 || r >= c {
        return 0;
    }
    proof {
        lemma_allocation_bound(f as int, c as int, r as int);
    }
    let extra: usize = if r < f % c {
        1
    } else {
        0
    };
    (f / c + extra) as u16
}

/// Whether unit `i` shoots this pulse, and the losses of its volley.
fn volley_at(
    units: &Vec<TacticalUnit>,
    targets: &Vec<Option<usize>>,
    contacts_of: &Vec<usize>,
    i: usize,
) -> (shot: Option<(usize, u16)>)
    requires
        targets_of(unit_views(units@), targets@),
        contacts_of.len() == units.len(),
        forall|k: int| 0 <= k < units.len() ==> #[trigger] contacts_of@[k] == contacts(unit_views(units@), k),
        i < units.len(),
        valid_attack_range(unit_views(units@)[i as int].attack_range),
    ensures
        match shot {
            Some((t, losses)) => volley(unit_views(units@), i as int) && engaged_index(
                unit_views(units@),
                i as int,
            ) == Some(t as int) && losses == spec_ranged_casualties(
                unit_views(units@)[i as int],
                unit_views(units@)[t as int],
            ) && t < units.len(),
            None => !volley(unit_views(units@), i as int),
        },
{
    let ghost views = unit_views(units@);
    assert(units@[i as int]@ == views[i as int]);
    assert(idx(targets@[i as int]) == engaged_index(views, i as int));
    let unit = &units[i];
    if unit.state != TacticalUnitState::Formed || unit.attack_range_mm <= COMBAT_CONTACT_DISTANCE_MM
        || contacts_of[i] != 0 {
        return None;
    }
    let t = match targets[i] {
        Some(t) => t,
        None => return None,
    };
    assert(units@[t as int]@ == views[t as int]);
    let target = &units[t];
    if target.state != TacticalUnitState::Formed || target.side == unit.side {
        return None;
    }
    if points_within_distance(unit.position, target.position, COMBAT_CONTACT_DISTANCE_MM)
        || !points_within_distance(unit.position, target.position, unit.attack_range_mm) {
        return None;
    }
    let losses = ranged_casualties(unit, target);
    if losses == 0 {
        return None;
    }
    Some((t, losses))
}

/// What unit `u` receives and does in a pulse: its losses (capped at its
/// soldiers), whether anything struck it, and whether it fought.
fn pulse_tally(
    units: &Vec<TacticalUnit>,
    targets: &Vec<Option<usize>>,
    contacts_of: &Vec<usize>,
    u: usize,
) -> (tally: (u16, bool, bool))
    requires
        targets_of(unit_views(units@), targets@),
        contacts_of.len() == units.len(),
        forall|k: int| 0 <= k < units.len() ==> #[trigger] contacts_of@[k] == contacts(unit_views(units@), k),
        forall|k: int| 0 <= k < units.len() ==> valid_attack_range(#[trigger] unit_views(units@)[k].attack_range),
        u < units.len(),
    ensures
        tally.0 as int == if received_total(unit_views(units@), u as int, units.len() as int)
            < unit_views(units@)[u as int].soldiers {
            received_total(unit_views(units@), u as int, units.len() as int)
        } else {
            unit_views(units@)[u as int].soldiers as int
        },
        tally.1 == struck(unit_views(units@), u as int),
        tally.2 == fought(unit_views(units@), u as int),
{
    let ghost s = unit_views(units@);
    assert(units@[u as int]@ == s[u as int]);
    let cap = units[u].soldiers as u32;
    let mut total: u32 = 0;
    let mut hit = false;
    let mut exerted = match volley_at(units, targets, contacts_of, u) {
        Some(_) => true,
        None => false,
    };
    let mut k: usize = 0;
    while k < units.len()
        invariant
            s == unit_views(units@),
            s.len() == units.len(),
            targets_of(s, targets@),
            contacts_of.len() == units.len(),
            forall|j: int| 0 <= j < units.len() ==> #[trigger] contacts_of@[j] == contacts(s, j),
            forall|j: int| 0 <= j < units.len() ==> valid_attack_range(#[trigger] s[j].attack_range),
            u < units.len(),
            k <= units.len(),
            cap == s[u as int].soldiers,
            total as int == if received_total(s, u as int, k as int) < cap {
                received_total(s, u as int, k as int)
            } else {
                cap as int
            },
            hit == exists|j: int| 0 <= j < k && #[trigger] strikes(s, j, u as int),
            exerted == (volley(s, u as int) || exists|j: int| 0 <= j < k && #[trigger] exerts(s, u as int, j)),
        decreases units.len() - k,
    {
        let mut term: u32 = 0;
        let mut strikes_now = false;
        match volley_at(units, targets, contacts_of, k) {
            Some((t, losses)) => {
                if t == u {
                    term = losses as u32;
                    strikes_now = true;
                }
            },
            None => {},
        }
        let melee = in_melee_at(units, targets, u, k);
        if melee {
            let slots = allocation_at(units, targets, contacts_of, k, u);
            term = term + melee_casualties(&units[k], &units[u], slots) as u32;
            strikes_now = true;
        }
        let pursuit = pursues_at(units, targets, k, u);
        if pursuit {
            term = term + pursuit_casualties(&units[k]) as u32;
            strikes_now = true;
        }
        proof {
            assert(units@[k as int]@ == s[k as int]);
            assert(term as int == received(s, u as int, k as int));
            assert(received(s, u as int, k as int) >= 0);
        }
        let raised = total + term;
        total = if raised < cap {
            raised
        } else {
            cap
        };
        if strikes_now {
            hit = true;
        }
        if in_melee_at(units, targets, u, k) || pursues_at(units, targets, u, k) {
            exerted = true;
        }
        proof {
            assert(strikes_now == strikes(s, k as int, u as int));
            if hit {
                if strikes_now {
                    assert(strikes(s, k as int, u as int));
                }
            }
            assert(hit == exists|j: int| 0 <= j < k + 1 && #[trigger] strikes(s, j, u as int)) by {
                if exists|j: int| 0 <= j < k + 1 && #[trigger] strikes(s, j, u as int) {
                    let j = choose|j: int| 0 <= j < k + 1 && #[trigger] strikes(s, j, u as int);
                    if j < k {
                    } else {
                        assert(strikes_now);
                    }
                }
            }
            assert(exerted == (volley(s, u as int) || exists|j: int| 0 <= j < k + 1 && #[trigger] exerts(s, u as int, j))) by {
                if exerts(s, u as int, k as int) {
                    assert(exerted);
                }
                if exists|j: int| 0 <= j < k + 1 && #[trigger] exerts(s, u as int, j) {
                    let j = choose|j: int| 0 <= j < k + 1 && #[trigger] exerts(s, u as int, j);
                    if j == k {
                        assert(exerted);
                    }
                }
            }
        }
        k += 1;
    }
    (total as u16, hit, exerted)
}


// ---------------------------------------------------------------------------
// Ticks
// ---------------------------------------------------------------------------

/// A unit drops its order to engage once it no longer stands formed, or
/// once its target has been destroyed.
pub open spec fn spec_cleared_unit(units: Seq<UnitView>, u: int) -> UnitView {
    let unit = units[u];
    if unit.state != TacticalUnitState::Formed {
        UnitView { target: None, ..unit }
    } else {
        match unit.target {
            Some(id) => if has_unit(units, id) && units[unit_at(units, id)].state
                == TacticalUnitState::Destroyed {
                UnitView { target: None, ..unit }
            } else {
                unit
            },
            None => unit,
        }
    }
}

pub open spec fn cleared_of(units: Seq<UnitView>) -> spec_fn(int) -> UnitView {
    |u: int| spec_cleared_unit(units, u)
}

pub open spec fn sat_add_u64(a: u64, b: u64) -> u64 {
    if a as int + b as int <= u64::MAX { (a + b) as u64 } else { u64::MAX }
}

/// One fixed tick: every unit moves against the start-of-tick positions,
/// the clock advances, every full second a combat pulse resolves, and
/// orders against destroyed targets lapse.
pub open spec fn spec_tick(battle: BattleView) -> BattleView {
    let n = battle.units.len() as int;
    let moved = Seq::new(n as nat, movement_of(battle.battlefield, battle.terrain, battle.units));
    let tick = sat_add_u64(battle.tick, 1);
    let fought = if tick % (TACTICAL_TICKS_PER_SECOND as u64) == 0 {
        Seq::new(n as nat, pulse_of(moved))
    } else {
        moved
    };
    BattleView { tick, units: Seq::new(n as nat, cleared_of(fought)), ..battle }
}

/// The battle after `ticks` fixed ticks.
pub open spec fn spec_advance(battle: BattleView, ticks: nat) -> BattleView
    decreases ticks,
{
    if ticks == 0 {
        battle
    } else {
        spec_tick(spec_advance(battle, (ticks - 1) as nat))
    }
}

fn clone_units(units: &Vec<TacticalUnit>) -> (copy: Vec<TacticalUnit>)
    ensures
        unit_views(copy@) == unit_views(units@),
{
    let mut copy: Vec<TacticalUnit> = Vec::new();
    let mut i: usize = 0;
    while i < units.len()
        invariant
            i <= units.len(),
            copy.len() == i,
            forall|j: int| 0 <= j < i ==> (#[trigger] copy@[j])@ == units@[j]@,
        decreases units.len() - i,
    {
        copy.push(units[i].clone());
        i += 1;
    }
    assert(unit_views(copy@) =~= unit_views(units@));
    copy
}

/// Units that keep their ids and attack ranges keep a battle well formed.
proof fn lemma_same_identities(before: BattleView, after: BattleView)
    requires
        before.wf(),
        after.battlefield == before.battlefield,
        after.units.len() == before.units.len(),
        forall|j: int| 0 <= j < before.units.len() ==> (#[trigger] after.units[j]).id == before.units[j].id
            && after.units[j].attack_range == before.units[j].attack_range,
    ensures
        after.wf(),
{
    assert forall|a: int, b: int| 0 <= a < b < after.units.len() implies text_lt(
        #[trigger] after.units[a].id,
        #[trigger] after.units[b].id,
    ) by {
        assert(text_lt(before.units[a].id, before.units[b].id));
    }
    assert forall|i: int| 0 <= i < after.units.len() implies valid_attack_range(
        #[trigger] after.units[i].attack_range,
    ) by {
        assert(valid_attack_range(before.units[i].attack_range));
    }
}

impl TacticalBattle {
    fn advance_movement_phase(&mut self)
        requires
            old(self)@.wf(),
        ensures
            final(self)@ == (BattleView {
                units: Seq::new(
                    old(self)@.units.len(),
                    movement_of(old(self)@.battlefield, old(self)@.terrain, old(self)@.units),
                ),
                ..old(self)@
            }),
            final(self)@.wf(),
    {
        let ghost b0 = self@;
        proof {
            lemma_sorted_distinct(b0.units);
        }
        let snapshot = clone_units(&self.units);
        let n = self.units.len();
        let mut i: usize = 0;
        while i < n
            invariant
                i <= n,
                n == self.units.len(),
                n == snapshot.len(),
                b0.wf(),
                distinct_ids(b0.units),
                unit_views(snapshot@) == b0.units,
                b0.units.len() == n,
                self.battlefield == b0.battlefield,
                self.terrain == b0.terrain,
                self.tick == b0.tick,
                forall|j: int| 0 <= j < i ==> (#[trigger] self.units@[j])@ == spec_unit_movement(
                    b0.battlefield,
                    b0.terrain,
                    b0.units,
                    j,
                ),
                forall|j: int| i <= j < n ==> (#[trigger] self.units@[j])@ == b0.units[j],
            decreases n - i,
        {
            assert(snapshot@[i as int]@ == b0.units[i as int]);
            assert(valid_attack_range(b0.units[i as int].attack_range));
            let step = match snapshot[i].state {
                TacticalUnitState::Formed => Some(
                    formed_step(self.battlefield, self.terrain, &snapshot, i),
                ),
                TacticalUnitState::Routed => Some(
                    routed_step(self.battlefield, self.terrain, &snapshot, i),
                ),
                TacticalUnitState::Destroyed => None,
            };
            let ghost old_units = self.units@;
            if let Some(step) = step {
                self.units[i].position = step.position;
                self.units[i].destination = step.destination;
                self.units[i].fatigue = step.fatigue;
                if step.clear_target {
                    self.units[i].engagement_target = None;
                }
                assert(self.units@[i as int]@ == stepped(b0.units[i as int], step));
            }
            assert forall|j: int| 0 <= j < n && j != i implies self.units@[j] == old_units[j] by {}
            i += 1;
        }
        proof {
            let expected = Seq::new(n as nat, movement_of(b0.battlefield, b0.terrain, b0.units));
            assert(unit_views(self.units@) =~= expected);
            lemma_same_identities(b0, self@);
        }
    }

    fn resolve_combat_pulse(&mut self)
        requires
            old(self)@.wf(),
        ensures
            final(self)@ == (BattleView {
                units: Seq::new(old(self)@.units.len(), pulse_of(old(self)@.units)),
                ..old(self)@
            }),
            final(self)@.wf(),
    {
        let ghost b0 = self@;
        proof {
            lemma_sorted_distinct(b0.units);
        }
        let snapshot = clone_units(&self.units);
        let n = self.units.len();
        let targets = engaged_indices(&snapshot);
        let mut contacts_of: Vec<usize> = Vec::new();
        let mut c: usize = 0;
        while c < n
            invariant
                c <= n,
                n == snapshot.len(),
                targets_of(unit_views(snapshot@), targets@),
                contacts_of.len() == c,
                forall|k: int| 0 <= k < c ==> #[trigger] contacts_of@[k] == contacts(unit_views(snapshot@), k),
            decreases n - c,
        {
            let count = melee_count_at(&snapshot, &targets, c, n);
            contacts_of.push(count);
            c += 1;
        }
        let mut u: usize = 0;
        while u < n
            invariant
                u <= n,
                n == self.units.len(),
                n == snapshot.len(),
                b0.wf(),
                unit_views(snapshot@) == b0.units,
                b0.units.len() == n,
                targets_of(b0.units, targets@),
                contacts_of.len() == n,
                forall|k: int| 0 <= k < n ==> #[trigger] contacts_of@[k] == contacts(b0.units, k),
                self.battlefield == b0.battlefield,
                self.terrain == b0.terrain,
                self.tick == b0.tick,
                forall|j: int| 0 <= j < u ==> (#[trigger] self.units@[j])@ == spec_pulse_unit(b0.units, j),
                forall|j: int| u <= j < n ==> (#[trigger] self.units@[j])@ == b0.units[j],
            decreases n - u,
        {
            let (applied, hit, exerted) = pulse_tally(&snapshot, &targets, &contacts_of, u);
            let ghost old_units = self.units@;
            assert(self.units@[u as int]@ == b0.units[u as int]);
            if exerted {
                let tired = tire_by(self.units[u].fatigue, COMBAT_FATIGUE_PER_PULSE);
                self.units[u].fatigue = tired;
            }
            if hit && self.units[u].soldiers != 0 && self.units[u].state != TacticalUnitState::Destroyed {
                let before = self.units[u].soldiers;
                let left = before - applied;
                self.units[u].soldiers = left;
                if left == 0 {
                    self.units[u].morale = 0;
                    self.units[u].state = TacticalUnitState::Destroyed;
                    self.units[u].destination = None;
                    self.units[u].engagement_target = None;
                } else if self.units[u].state == TacticalUnitState::Formed {
                    let shock = casualty_morale_shock(before, applied);
                    let morale = self.units[u].morale.saturating_sub(shock);
                    self.units[u].morale = morale;
                    if morale <= ROUT_MORALE_THRESHOLD {
                        self.units[u].state = TacticalUnitState::Routed;
                        self.units[u].destination = None;
                        self.units[u].engagement_target = None;
                    }
                }
            }
            assert(self.units@[u as int]@ == spec_pulse_unit(b0.units, u as int));
            assert forall|j: int| 0 <= j < n && j != u implies self.units@[j] == old_units[j] by {}
            u += 1;
        }
        proof {
            assert(unit_views(self.units@) =~= Seq::new(n as nat, pulse_of(b0.units)));
            lemma_same_identities(b0, self@);
        }
    }

    fn clear_invalid_engagement_targets(&mut self)
        requires
            old(self)@.wf(),
        ensures
            final(self)@ == (BattleView {
                units: Seq::new(old(self)@.units.len(), cleared_of(old(self)@.units)),
                ..old(self)@
            }),
            final(self)@.wf(),
    {
        let ghost b0 = self@;
        proof {
            lemma_sorted_distinct(b0.units);
        }
        let snapshot = clone_units(&self.units);
        let n = self.units.len();
        let mut u: usize = 0;
        while u < n
            invariant
                u <= n,
                n == self.units.len(),
                n == snapshot.len(),
                b0.wf(),
                distinct_ids(b0.units),
                unit_views(snapshot@) == b0.units,
                b0.units.len() == n,
                self.battlefield == b0.battlefield,
                self.terrain == b0.terrain,
                self.tick == b0.tick,
                forall|j: int| 0 <= j < u ==> (#[trigger] self.units@[j])@ == spec_cleared_unit(b0.units, j),
                forall|j: int| u <= j < n ==> (#[trigger] self.units@[j])@ == b0.units[j],
            decreases n - u,
        {
            let ghost old_units = self.units@;
            assert(snapshot@[u as int]@ == b0.units[u as int]);
            let clear = if snapshot[u].state != TacticalUnitState::Formed {
                true
            } else {
                match &snapshot[u].engagement_target {
                    Some(id) => match position_of(&snapshot, id) {
                        Some(t) => {
                            assert(snapshot@[t as int]@ == b0.units[t as int]);
                            snapshot[t].state == TacticalUnitState::Destroyed
                        },
                        None => false,
                    },
                    None => false,
                }
            };
            if clear {
                self.units[u].engagement_target = None;
            }
            assert(self.units@[u as int]@ == spec_cleared_unit(b0.units, u as int));
            assert forall|j: int| 0 <= j < n && j != u implies self.units@[j] == old_units[j] by {}
            u += 1;
        }
        proof {
            assert(unit_views(self.units@) =~= Seq::new(n as nat, cleared_of(b0.units)));
            lemma_same_identities(b0, self@);
        }
    }

    fn advance_one_tick(&mut self)
        requires
            old(self)@.wf(),
        ensures
            final(self)@ == spec_tick(old(self)@),
            final(self)@.wf(),
    {
        self.advance_movement_phase();
        self.tick = self.tick.saturating_add(1);
        if self.tick % (TACTICAL_TICKS_PER_SECOND as u64) == 0 {
            self.resolve_combat_pulse();
        }
        self.clear_invalid_engagement_targets();
    }

    /// Runs `ticks` fixed simulation ticks.
    pub fn advance_ticks(&mut self, ticks: u32)
        requires
            old(self)@.wf(),
        ensures
            final(self)@ == spec_advance(old(self)@, ticks as nat),
            final(self)@.wf(),
    {
        let ghost start = self@;
        let mut k: u32 = 0;
        while k < ticks
            invariant
                k <= ticks,
                self@ == spec_advance(start, k as nat),
                self@.wf(),
            decreases ticks - k,
        {
            self.advance_one_tick();
            k += 1;
        }
    }
}


// ---------------------------------------------------------------------------
// Laws
// ---------------------------------------------------------------------------

proof fn lemma_first_error_exists(
    units: Seq<UnitView>,
    battlefield: FlatBattlefield,
    terrain: TacticalTerrain,
    i: int,
)
    requires
        0 <= i < units.len(),
        setup_error(units, i, battlefield, terrain) is Some,
    ensures
        exists|k: int| first_setup_error(units, k, battlefield, terrain),
    decreases i,
{
    if exists|j: int| 0 <= j < i && (#[trigger] setup_error(units, j, battlefield, terrain)) is Some {
        let j = choose|j: int| 0 <= j < i && (#[trigger] setup_error(units, j, battlefield, terrain)) is Some;
        lemma_first_error_exists(units, battlefield, terrain, j);
    } else {
        assert(first_setup_error(units, i, battlefield, terrain));
    }
}

/// Setting up a battle depends only on which units take the field, not on
/// the order in which they are listed: once a setup succeeds, every
/// reordering of the same units gives the same battle.
pub proof fn battle_setup_ignores_listing_order(
    battlefield: FlatBattlefield,
    listed: Seq<UnitView>,
    reordered: Seq<UnitView>,
)
    requires
        listed.to_multiset() == reordered.to_multiset(),
        spec_new_battle(battlefield, listed) is Ok,
    ensures
        spec_new_battle(battlefield, reordered) == spec_new_battle(battlefield, listed),
{
    broadcast use vstd::seq_lib::group_to_multiset_ensures;

    let terrain = foundation_terrain();
    assert forall|i: int| 0 <= i < listed.len() implies (#[trigger] setup_error(
        listed,
        i,
        battlefield,
        terrain,
    )) is None by {
        if setup_error(listed, i, battlefield, terrain) is Some {
            lemma_first_error_exists(listed, battlefield, terrain, i);
        }
    }
    // the listed units have distinct ids, hence no duplicates
    assert forall|a: int, b: int| 0 <= a < listed.len() && 0 <= b < listed.len() && a != b implies (
    #[trigger] listed[a]).id != (#[trigger] listed[b]).id by {
        assert(setup_error(listed, a, battlefield, terrain) is None);
        assert(setup_error(listed, b, battlefield, terrain) is None);
    }
    assert(listed.no_duplicates());
    listed.lemma_multiset_has_no_duplicates();
    reordered.lemma_multiset_has_no_duplicates_conv();
    // every reordered unit is a listed one
    assert forall|i: int| 0 <= i < reordered.len() implies exists|j: int|
        0 <= j < listed.len() && listed[j] == #[trigger] reordered[i] by {
        assert(reordered.contains(reordered[i]));
        vstd::seq_lib::to_multiset_contains(reordered, reordered[i]);
        vstd::seq_lib::to_multiset_contains(listed, reordered[i]);
    }
    assert forall|i: int| 0 <= i < reordered.len() implies (#[trigger] setup_error(
        reordered,
        i,
        battlefield,
        terrain,
    )) is None by {
        let j = choose|j: int| 0 <= j < listed.len() && listed[j] == reordered[i];
        assert(setup_error(listed, j, battlefield, terrain) is None);
        if exists|k: int| 0 <= k < i && (#[trigger] reordered[k]).id == reordered[i].id {
            let k = choose|k: int| 0 <= k < i && (#[trigger] reordered[k]).id == reordered[i].id;
            let m = choose|m: int| 0 <= m < listed.len() && listed[m] == reordered[k];
            assert(reordered[k] != reordered[i]);
            assert(listed[m].id == listed[j].id && m != j);
        }
    }
    assert(!exists|k: int| first_setup_error(reordered, k, battlefield, terrain));
}

spec fn insert_by_id(sorted: Seq<UnitView>, unit: UnitView) -> Seq<UnitView>
    decreases sorted.len(),
{
    if sorted.len() == 0 {
        seq![unit]
    } else if text_lt(unit.id, sorted[0].id) {
        seq![unit] + sorted
    } else {
        seq![sorted[0]] + insert_by_id(sorted.drop_first(), unit)
    }
}

spec fn sort_by_id(units: Seq<UnitView>) -> Seq<UnitView>
    decreases units.len(),
{
    if units.len() == 0 {
        units
    } else {
        insert_by_id(sort_by_id(units.drop_last()), units.last())
    }
}

proof fn lemma_insert_by_id(sorted: Seq<UnitView>, unit: UnitView)
    requires
        ids_sorted(sorted),
        forall|k: int| 0 <= k < sorted.len() ==> (#[trigger] sorted[k]).id != unit.id,
    ensures
        ids_sorted(insert_by_id(sorted, unit)),
        insert_by_id(sorted, unit).to_multiset() == sorted.to_multiset().insert(unit),
        insert_by_id(sorted, unit).len() == sorted.len() + 1,
        insert_by_id(sorted, unit)[0] == unit || (sorted.len() > 0 && insert_by_id(sorted, unit)[0]
            == sorted[0]),
    decreases sorted.len(),
{
    broadcast use vstd::seq_lib::group_to_multiset_ensures;

    if sorted.len() > 0 {
        let rest = sorted.drop_first();
        lemma_text_lt_total(unit.id, sorted[0].id);
        if text_lt(unit.id, sorted[0].id) {
            let r = seq![unit] + sorted;
            assert forall|a: int, b: int| 0 <= a < b < r.len() implies text_lt(
                #[trigger] r[a].id,
                #[trigger] r[b].id,
            ) by {
                if a == 0 && b > 1 {
                    lemma_text_lt_transitive(unit.id, sorted[0].id, sorted[b - 1].id);
                }
            }
            assert(r =~= sorted.insert(0, unit));
        } else {
            assert forall|k: int| 0 <= k < rest.len() implies (#[trigger] rest[k]).id != unit.id by {
                assert(rest[k] == sorted[k + 1]);
            }
            lemma_insert_by_id(rest, unit);
            let tail = insert_by_id(rest, unit);
            let r = seq![sorted[0]] + tail;
            assert forall|a: int, b: int| 0 <= a < b < r.len() implies text_lt(
                #[trigger] r[a].id,
                #[trigger] r[b].id,
            ) by {
                if a == 0 {
                    // sorted[0] precedes the head of the tail, and the tail is sorted
                    assert(text_lt(sorted[0].id, tail[0].id)) by {
                        if rest.len() > 0 && tail[0] == rest[0] {
                            assert(rest[0] == sorted[1]);
                        }
                    }
                    if b > 1 {
                        lemma_text_lt_transitive(sorted[0].id, tail[0].id, tail[b - 1].id);
                    }
                }
            }
            assert(sorted =~= seq![sorted[0]] + rest);
            assert(r.to_multiset() =~= sorted.to_multiset().insert(unit)) by {
                vstd::seq_lib::lemma_multiset_commutative(seq![sorted[0]], tail);
                vstd::seq_lib::lemma_multiset_commutative(seq![sorted[0]], rest);
            }
        }
    }
}

proof fn lemma_sort_by_id(units: Seq<UnitView>)
    requires
        distinct_ids(units),
    ensures
        ids_sorted(sort_by_id(units)),
        sort_by_id(units).to_multiset() == units.to_multiset(),
    decreases units.len(),
{
    broadcast use vstd::seq_lib::group_to_multiset_ensures;

    if units.len() > 0 {
        let front = units.drop_last();
        let last = units.last();
        assert forall|a: int, b: int| 0 <= a < front.len() && 0 <= b < front.len() && a != b implies (
        #[trigger] front[a]).id != (#[trigger] front[b]).id by {
            assert(front[a] == units[a] && front[b] == units[b]);
        }
        lemma_sort_by_id(front);
        let sorted = sort_by_id(front);
        assert forall|k: int| 0 <= k < sorted.len() implies (#[trigger] sorted[k]).id != last.id by {
            assert(sorted.contains(sorted[k]));
            vstd::seq_lib::to_multiset_contains(sorted, sorted[k]);
            vstd::seq_lib::to_multiset_contains(front, sorted[k]);
            let j = choose|j: int| 0 <= j < front.len() && front[j] == sorted[k];
            assert(units[j] == front[j]);
            assert(units[units.len() - 1] == last);
        }
        lemma_insert_by_id(sorted, last);
        assert(units =~= front.push(last));
    }
}

/// A listing with distinct ids has an arrangement in increasing id order.
proof fn lemma_sorted_by_id(units: Seq<UnitView>)
    requires
        distinct_ids(units),
    ensures
        ids_sorted(sorted_by_id(units)),
        sorted_by_id(units).to_multiset() == units.to_multiset(),
{
    lemma_sort_by_id(units);
}

/// Every unit can take the field: a non-blank id that no other unit
/// repeats, soldiers, files and speed, an attack range that setup accepts,
/// and a position on the battlefield on passable ground of the standard
/// terrain.
pub open spec fn units_can_deploy(battlefield: FlatBattlefield, units: Seq<UnitView>) -> bool {
    &&& distinct_ids(units)
    &&& forall|i: int|
        0 <= i < units.len() ==> {
            let unit = #[trigger] units[i];
            &&& !is_blank(unit.id)
            &&& unit.soldiers > 0
            &&& unit.formation.spec_files() > 0
            &&& unit.speed > 0
            &&& valid_attack_range(unit.attack_range)
            &&& battlefield.spec_contains(unit.position)
            &&& foundation_terrain().spec_is_passable_at(battlefield, unit.position)
        }
}

/// Setting up a battle succeeds exactly when the battlefield is not empty
/// and every unit can take the field; the battle then starts at tick zero on
/// the standard terrain with the given units.
pub proof fn battle_setup_succeeds_exactly_when_every_unit_can_deploy(
    battlefield: FlatBattlefield,
    units: Seq<UnitView>,
)
    ensures
        spec_new_battle(battlefield, units) is Ok <==> (battlefield.width_mm > 0
            && battlefield.depth_mm > 0 && units_can_deploy(battlefield, units)),
        spec_new_battle(battlefield, units) is Ok ==> {
            let battle = spec_new_battle(battlefield, units)->Ok_0;
            &&& battle.tick == 0
            &&& battle.battlefield == battlefield
            &&& battle.terrain == foundation_terrain()
            &&& battle.units == sorted_by_id(units)
            &&& ids_sorted(battle.units)
            &&& battle.units.to_multiset() == units.to_multiset()
        },
{
    let terrain = foundation_terrain();
    if battlefield.width_mm > 0 && battlefield.depth_mm > 0 {
        if units_can_deploy(battlefield, units) {
            assert forall|i: int| 0 <= i < units.len() implies !first_setup_error(
                units,
                i,
                battlefield,
                terrain,
            ) by {
                if exists|j: int| 0 <= j < i && (#[trigger] units[j]).id == units[i].id {
                    let j = choose|j: int| 0 <= j < i && (#[trigger] units[j]).id == units[i].id;
                    assert(units[j].id != units[i].id);
                }
            }
            lemma_sorted_by_id(units);
        } else {
            if exists|i: int| 0 <= i < units.len() && (#[trigger] setup_error(
                units,
                i,
                battlefield,
                terrain,
            )) is Some {
                let i = choose|i: int| 0 <= i < units.len() && (#[trigger] setup_error(
                    units,
                    i,
                    battlefield,
                    terrain,
                )) is Some;
                lemma_first_error_exists(units, battlefield, terrain, i);
            } else {
                assert forall|a: int, b: int|
                    0 <= a < units.len() && 0 <= b < units.len() && a != b implies (
                #[trigger] units[a]).id != (#[trigger] units[b]).id by {
                    assert(setup_error(units, a, battlefield, terrain) is None);
                    assert(setup_error(units, b, battlefield, terrain) is None);
                }
                assert forall|i: int| 0 <= i < units.len() implies {
                    let unit = #[trigger] units[i];
                    &&& !is_blank(unit.id)
                    &&& unit.soldiers > 0
                    &&& unit.formation.spec_files() > 0
                    &&& unit.speed > 0
                    &&& valid_attack_range(unit.attack_range)
                    &&& battlefield.spec_contains(unit.position)
                    &&& terrain.spec_is_passable_at(battlefield, unit.position)
                } by {
                    assert(setup_error(units, i, battlefield, terrain) is None);
                }
            }
        }
    }
}

/// One combat pulse, unit by unit: soldiers never increase and a unit keeps
/// its id, side, position, formation, speed and range; a destroyed unit is
/// left exactly as it was; a unit that loses its last soldier is destroyed
/// with no morale and no orders; a formed unit that survives losses loses
/// the morale shock of those losses and routs, dropping its orders, exactly
/// when its morale falls to the rout threshold; and a unit that loses no one
/// keeps its morale and its state, a formed one whenever its morale is above
/// the threshold, a routed or destroyed one always.
pub proof fn combat_pulse_shocks_and_routs(units: Seq<UnitView>, u: int)
    requires
        0 <= u < units.len(),
    ensures
        ({
            let before = units[u];
            let after = spec_pulse_unit(units, u);
            let lost = (before.soldiers - after.soldiers) as u16;
            &&& after.soldiers <= before.soldiers
            &&& after.id == before.id && after.side == before.side && after.position
                == before.position && after.formation == before.formation && after.speed
                == before.speed && after.attack_range == before.attack_range
            &&& before.state == TacticalUnitState::Destroyed ==> after == before
            &&& before.soldiers > 0 && after.soldiers == 0 ==> after.state
                == TacticalUnitState::Destroyed && after.morale == 0 && after.destination is None
                && after.target is None
            &&& before.state == TacticalUnitState::Formed && 0 < after.soldiers < before.soldiers
                ==> {
                &&& after.morale == sat_sub_u16(before.morale, spec_morale_shock(before.soldiers, lost))
                &&& (after.state == TacticalUnitState::Routed <==> after.morale
                    <= ROUT_MORALE_THRESHOLD)
                &&& after.state == TacticalUnitState::Routed ==> after.destination is None
                    && after.target is None
            }
            &&& (before.state != TacticalUnitState::Formed || before.morale > ROUT_MORALE_THRESHOLD)
                && after.soldiers == before.soldiers ==> after.morale == before.morale
                && after.state == before.state
        }),
{
    let before = units[u];
    lemma_received_total_nonneg(units, u, units.len() as int);
    if before.state != TacticalUnitState::Formed {
        assert(!volley(units, u));
        assert forall|k: int| 0 <= k < units.len() implies !#[trigger] exerts(units, u, k) by {}
    }
}

proof fn lemma_melee_count_positive(units: Seq<UnitView>, u: int, v: int, k: int)
    requires
        0 <= v < k,
        in_melee(units, u, v),
    ensures
        melee_count(units, u, k) > 0,
    decreases k,
{
    if v < k - 1 {
        lemma_melee_count_positive(units, u, v, k - 1);
    }
    lemma_melee_count_nonnegative(units, u, k - 1);
}

proof fn lemma_melee_count_nonnegative(units: Seq<UnitView>, u: int, k: int)
    ensures
        melee_count(units, u, k) >= 0,
    decreases k,
{
    if k > 0 {
        lemma_melee_count_nonnegative(units, u, k - 1);
    }
}

proof fn lemma_received_total_covers(units: Seq<UnitView>, u: int, v: int, k: int)
    requires
        0 <= v < k,
    ensures
        received_total(units, u, k) >= received(units, u, v),
    decreases k,
{
    if v < k - 1 {
        lemma_received_total_covers(units, u, v, k - 1);
    } else {
        lemma_received_total_nonneg(units, u, k - 1);
    }
}

/// Ranged fire in a combat pulse: a formed unit that reaches beyond contact
/// distance, fights no one hand to hand, and targets a formed enemy beyond
/// contact distance but within its range shoots, and its target loses at
/// least one soldier in the pulse. A unit locked in melee fires no volley,
/// so a target that only such a unit shoots at keeps its soldiers.
pub proof fn free_archers_always_hit_and_melee_silences_them(units: Seq<UnitView>, i: int, t: int)
    requires
        0 <= i < units.len(),
        0 <= t < units.len(),
    ensures
        ({
            let shooter = units[i];
            let target = units[t];
            (shooter.state == TacticalUnitState::Formed && shooter.attack_range
                > COMBAT_CONTACT_DISTANCE_MM && engaged_index(units, i) == Some(t) && target.state
                == TacticalUnitState::Formed && target.side != shooter.side && target.soldiers > 0
                && !spec_within(shooter.position, target.position, COMBAT_CONTACT_DISTANCE_MM)
                && spec_within(shooter.position, target.position, shooter.attack_range) && (forall|
                k: int,
            | 0 <= k < units.len() ==> !#[trigger] in_melee(units, i, k))) ==> volley(units, i)
                && spec_pulse_unit(units, t).soldiers < target.soldiers
        }),
        (exists|k: int| 0 <= k < units.len() && #[trigger] in_melee(units, i, k)) ==> !volley(
            units,
            i,
        ),
        (exists|k: int| 0 <= k < units.len() && #[trigger] in_melee(units, i, k)) && !in_melee(
            units,
            t,
            i,
        ) && !pursues(units, i, t) && (forall|k: int|
            0 <= k < units.len() && k != i ==> !#[trigger] strikes(units, k, t))
            ==> spec_pulse_unit(units, t).soldiers == units[t].soldiers,
{
    let n = units.len() as int;
    if exists|k: int| 0 <= k < n && #[trigger] in_melee(units, i, k) {
        let k = choose|k: int| 0 <= k < n && #[trigger] in_melee(units, i, k);
        lemma_melee_count_positive(units, i, k, n);
        if !in_melee(units, t, i) && !pursues(units, i, t) && (forall|k: int|
            0 <= k < n && k != i ==> !#[trigger] strikes(units, k, t)) {
            assert(!strikes(units, i, t));
            assert(!struck(units, t));
        }
    }
    let shooter = units[i];
    let target = units[t];
    if shooter.state == TacticalUnitState::Formed && shooter.attack_range > COMBAT_CONTACT_DISTANCE_MM
        && engaged_index(units, i) == Some(t) && target.state == TacticalUnitState::Formed
        && target.side != shooter.side && target.soldiers > 0 && !spec_within(
        shooter.position,
        target.position,
        COMBAT_CONTACT_DISTANCE_MM,
    ) && spec_within(shooter.position, target.position, shooter.attack_range) && (forall|k: int|
        0 <= k < n ==> !#[trigger] in_melee(units, i, k)) {
        lemma_no_melee_count(units, i, n);
        assert(spec_ranged_casualties(shooter, target) > 0);
        assert(volley(units, i));
        assert(strikes(units, i, t));
        assert(struck(units, t));
        lemma_received_total_covers(units, t, i, n);
    }
}

proof fn lemma_no_melee_count(units: Seq<UnitView>, u: int, k: int)
    requires
        k <= units.len(),
        forall|j: int| 0 <= j < units.len() ==> !#[trigger] in_melee(units, u, j),
    ensures
        melee_count(units, u, k) == 0,
    decreases k,
{
    if k > 0 {
        lemma_no_melee_count(units, u, k - 1);
    }
}

/// A refused order changes nothing.
pub proof fn refused_orders_change_nothing(
    battle: BattleView,
    unit_id: Seq<char>,
    target_id: Seq<char>,
    destination: BattlePoint,
    formation: Formation,
)
    ensures
        battle.spec_move_order(unit_id, destination).1 is Err ==> battle.spec_move_order(
            unit_id,
            destination,
        ).0 == battle,
        battle.spec_engagement_order(unit_id, target_id).1 is Err ==> battle.spec_engagement_order(
            unit_id,
            target_id,
        ).0 == battle,
        battle.spec_formation_order(unit_id, formation).1 is Err ==> battle.spec_formation_order(
            unit_id,
            formation,
        ).0 == battle,
{
}

/// What a tick never changes of a unit: its id, side, formation, speed and
/// attack range. It never gains soldiers, and a destroyed unit stays
/// destroyed with the soldiers it had.
pub open spec fn tick_keeps(before: UnitView, after: UnitView) -> bool {
    &&& after.id == before.id
    &&& after.side == before.side
    &&& after.formation == before.formation
    &&& after.speed == before.speed
    &&& after.attack_range == before.attack_range
    &&& after.soldiers <= before.soldiers
    &&& before.state == TacticalUnitState::Destroyed ==> after.state == TacticalUnitState::Destroyed
        && after.soldiers == before.soldiers
}

/// Ticks preserve every unit's identity, side, formation, speed and attack
/// range; soldiers never increase; destroyed units are never restored.
pub proof fn ticks_preserve_identity_and_never_restore(battle: BattleView, ticks: nat, i: int)
    requires
        0 <= i < battle.units.len(),
    ensures
        spec_advance(battle, ticks).units.len() == battle.units.len(),
        tick_keeps(battle.units[i], spec_advance(battle, ticks).units[i]),
    decreases ticks,
{
    if ticks > 0 {
        ticks_preserve_identity_and_never_restore(battle, (ticks - 1) as nat, i);
        let mid = spec_advance(battle, (ticks - 1) as nat);
        lemma_tick_keeps(mid, i);
    }
}

proof fn lemma_advance_len(battle: BattleView, ticks: nat)
    ensures
        spec_advance(battle, ticks).units.len() == battle.units.len(),
    decreases ticks,
{
    if ticks > 0 {
        lemma_advance_len(battle, (ticks - 1) as nat);
    }
}

/// Two listings name the same units at the same positions.
pub open spec fn same_roster(before: Seq<UnitView>, after: Seq<UnitView>) -> bool {
    &&& after.len() == before.len()
    &&& forall|j: int| 0 <= j < before.len() ==> (#[trigger] after[j]).id == before[j].id
}

/// Unit ids never change: every order, accepted or refused, and every run of
/// ticks keeps the same units under the same ids at the same places of the
/// listing, so a battle's units stay in increasing id order.
pub proof fn unit_ids_never_change(
    battle: BattleView,
    unit_id: Seq<char>,
    target_id: Seq<char>,
    destination: BattlePoint,
    formation: Formation,
    ticks: nat,
)
    ensures
        same_roster(battle.units, battle.spec_move_order(unit_id, destination).0.units),
        same_roster(battle.units, battle.spec_engagement_order(unit_id, target_id).0.units),
        same_roster(battle.units, battle.spec_formation_order(unit_id, formation).0.units),
        same_roster(battle.units, spec_advance(battle, ticks).units),
        ids_sorted(battle.units) ==> ids_sorted(spec_advance(battle, ticks).units)
            && ids_sorted(battle.spec_move_order(unit_id, destination).0.units) && ids_sorted(
            battle.spec_engagement_order(unit_id, target_id).0.units,
        ) && ids_sorted(battle.spec_formation_order(unit_id, formation).0.units),
{
    let advanced = spec_advance(battle, ticks).units;
    lemma_advance_len(battle, ticks);
    assert forall|j: int| 0 <= j < battle.units.len() implies (#[trigger] advanced[j]).id
        == battle.units[j].id by {
        ticks_preserve_identity_and_never_restore(battle, ticks, j);
    }
    let moved = battle.spec_move_order(unit_id, destination).0.units;
    let engaged = battle.spec_engagement_order(unit_id, target_id).0.units;
    let reformed = battle.spec_formation_order(unit_id, formation).0.units;
    assert(same_roster(battle.units, moved));
    assert(same_roster(battle.units, engaged));
    assert(same_roster(battle.units, reformed));
    if ids_sorted(battle.units) {
        assert forall|a: int, b: int| 0 <= a < b < advanced.len() implies text_lt(
            #[trigger] advanced[a].id,
            #[trigger] advanced[b].id,
        ) by {
            assert(text_lt(battle.units[a].id, battle.units[b].id));
        }
        assert forall|a: int, b: int| 0 <= a < b < moved.len() implies text_lt(
            #[trigger] moved[a].id,
            #[trigger] moved[b].id,
        ) by {
            assert(text_lt(battle.units[a].id, battle.units[b].id));
        }
        assert forall|a: int, b: int| 0 <= a < b < engaged.len() implies text_lt(
            #[trigger] engaged[a].id,
            #[trigger] engaged[b].id,
        ) by {
            assert(text_lt(battle.units[a].id, battle.units[b].id));
        }
        assert forall|a: int, b: int| 0 <= a < b < reformed.len() implies text_lt(
            #[trigger] reformed[a].id,
            #[trigger] reformed[b].id,
        ) by {
            assert(text_lt(battle.units[a].id, battle.units[b].id));
        }
    }
}

/// One step of play on a battle: an order to a unit, or a run of ticks.
pub ghost enum BattleCommand {
    Move(Seq<char>, BattlePoint),
    Engage(Seq<char>, Seq<char>),
    Reform(Seq<char>, Formation),
    Advance(nat),
}

/// The battle after the commands, in order; a refused order changes
/// nothing and play goes on.
pub open spec fn spec_play(battle: BattleView, commands: Seq<BattleCommand>) -> BattleView
    decreases commands.len(),
{
    if commands.len() == 0 {
        battle
    } else {
        let before = spec_play(battle, commands.drop_last());
        match commands.last() {
            BattleCommand::Move(id, d) => before.spec_move_order(id, d).0,
            BattleCommand::Engage(id, t) => before.spec_engagement_order(id, t).0,
            BattleCommand::Reform(id, f) => before.spec_formation_order(id, f).0,
            BattleCommand::Advance(n) => spec_advance(before, n),
        }
    }
}

/// A battle keeps its units under any play: from the setup of a battle,
/// through any sequence of orders and ticks, the units are those given at
/// setup, each under its id at the same place, in strictly increasing id
/// order, none added and none removed.
pub proof fn battle_ids_hold_across_any_play(
    battlefield: FlatBattlefield,
    units: Seq<UnitView>,
    commands: Seq<BattleCommand>,
)
    requires
        spec_new_battle(battlefield, units) is Ok,
    ensures
        ({
            let start = spec_new_battle(battlefield, units)->Ok_0;
            let end = spec_play(start, commands);
            &&& start.units.to_multiset() == units.to_multiset()
            &&& same_roster(start.units, end.units)
            &&& ids_sorted(end.units)
        }),
    decreases commands.len(),
{
    battle_setup_succeeds_exactly_when_every_unit_can_deploy(battlefield, units);
    let start = spec_new_battle(battlefield, units)->Ok_0;
    if commands.len() > 0 {
        let rest = commands.drop_last();
        battle_ids_hold_across_any_play(battlefield, units, rest);
        let before = spec_play(start, rest);
        let end = spec_play(start, commands);
        match commands.last() {
            BattleCommand::Move(id, d) => {
                unit_ids_never_change(before, id, id, d, Formation::Line { files: 1 }, 0);
            },
            BattleCommand::Engage(id, t) => {
                unit_ids_never_change(
                    before,
                    id,
                    t,
                    BattlePoint { x_mm: 0, y_mm: 0 },
                    Formation::Line { files: 1 },
                    0,
                );
            },
            BattleCommand::Reform(id, f) => {
                unit_ids_never_change(before, id, id, BattlePoint { x_mm: 0, y_mm: 0 }, f, 0);
            },
            BattleCommand::Advance(n) => {
                unit_ids_never_change(
                    before,
                    Seq::empty(),
                    Seq::empty(),
                    BattlePoint { x_mm: 0, y_mm: 0 },
                    Formation::Line { files: 1 },
                    n,
                );
            },
        }
        assert forall|j: int| 0 <= j < start.units.len() implies (#[trigger] end.units[j]).id
            == start.units[j].id by {
            assert(before.units[j].id == start.units[j].id);
        }
    }
}

proof fn lemma_received_total_nonneg(units: Seq<UnitView>, u: int, k: int)
    ensures
        received_total(units, u, k) >= 0,
    decreases k,
{
    if k > 0 {
        lemma_received_total_nonneg(units, u, k - 1);
    }
}

proof fn lemma_tick_keeps(battle: BattleView, i: int)
    requires
        0 <= i < battle.units.len(),
    ensures
        spec_tick(battle).units.len() == battle.units.len(),
        tick_keeps(battle.units[i], spec_tick(battle).units[i]),
{
    let n = battle.units.len();
    let moved = Seq::new(n, movement_of(battle.battlefield, battle.terrain, battle.units));
    let tick = sat_add_u64(battle.tick, 1);
    let fought = if tick % (TACTICAL_TICKS_PER_SECOND as u64) == 0 {
        Seq::new(n, pulse_of(moved))
    } else {
        moved
    };
    assert(moved[i] == spec_unit_movement(battle.battlefield, battle.terrain, battle.units, i));
    assert(tick_keeps(battle.units[i], moved[i]));
    if tick % (TACTICAL_TICKS_PER_SECOND as u64) == 0 {
        assert(fought[i] == spec_pulse_unit(moved, i));
        lemma_received_total_nonneg(moved, i, n as int);
        if moved[i].state == TacticalUnitState::Destroyed {
            assert(!volley(moved, i));
            assert forall|k: int| 0 <= k < moved.len() implies !#[trigger] exerts(moved, i, k) by {}
        }
    }
    assert(tick_keeps(moved[i], fought[i]));
    assert(spec_tick(battle).units[i] == spec_cleared_unit(fought, i));
}

/// A march order is done exactly on arrival: a formed unit marching to a
/// destination, with no engagement order, keeps its destination until the
/// tick in which it reaches it, and drops it then.
pub proof fn arrival_clears_the_destination(
    battlefield: FlatBattlefield,
    terrain: TacticalTerrain,
    units: Seq<UnitView>,
    i: int,
    destination: BattlePoint,
)
    requires
        0 <= i < units.len(),
        units[i].state == TacticalUnitState::Formed,
        units[i].destination == Some(destination),
        units[i].target is None,
    ensures
        ({
            let after = spec_unit_movement(battlefield, terrain, units, i);
            after.destination == if after.position == destination {
                None::<BattlePoint>
            } else {
                Some(destination)
            }
        }),
{
}

/// One whole tick of a marching unit, movement, combat and cleanup
/// included: a formed unit with a destination and no engagement order covers
/// at most its speed, and when it stands on its destination afterwards the
/// order is done.
pub proof fn one_tick_marches_within_speed_and_stops_on_arrival(
    battle: BattleView,
    i: int,
    destination: BattlePoint,
)
    requires
        battle.wf(),
        0 <= i < battle.units.len(),
        battle.units[i].state == TacticalUnitState::Formed,
        battle.units[i].speed >= 1,
        battle.units[i].destination == Some(destination),
        battle.units[i].target is None,
    ensures
        ({
            let before = battle.units[i];
            let after = spec_tick(battle).units[i];
            &&& spec_dist2(before.position, after.position) <= before.speed as int * before.speed as int
            &&& after.position == destination ==> after.destination is None
        }),
{
    formed_march_within_speed(battle, i);
    arrival_clears_the_destination(battle.battlefield, battle.terrain, battle.units, i, destination);
    let n = battle.units.len();
    let moved = Seq::new(n, movement_of(battle.battlefield, battle.terrain, battle.units));
    let tick = sat_add_u64(battle.tick, 1);
    let fought = if tick % (TACTICAL_TICKS_PER_SECOND as u64) == 0 {
        Seq::new(n, pulse_of(moved))
    } else {
        moved
    };
    assert(moved[i] == spec_unit_movement(battle.battlefield, battle.terrain, battle.units, i));
    if tick % (TACTICAL_TICKS_PER_SECOND as u64) == 0 {
        assert(fought[i] == spec_pulse_unit(moved, i));
        lemma_received_total_nonneg(moved, i, n as int);
    }
    assert(fought[i].position == moved[i].position);
    assert(fought[i].destination == moved[i].destination || fought[i].destination is None);
    assert(spec_tick(battle).units[i] == spec_cleared_unit(fought, i));
}

/// A formed unit that is not chasing a routed enemy covers at most its
/// speed in one tick.
pub proof fn formed_march_within_speed(battle: BattleView, i: int)
    requires
        battle.wf(),
        0 <= i < battle.units.len(),
        battle.units[i].state == TacticalUnitState::Formed,
        battle.units[i].speed >= 1,
        !(live_target(battle.units, battle.units[i]) matches Some(t)
            && battle.units[t].state == TacticalUnitState::Routed),
    ensures
        spec_dist2(battle.units[i].position, spec_tick(battle).units[i].position)
            <= battle.units[i].speed as int * battle.units[i].speed as int,
{
    let unit = battle.units[i];
    let n = battle.units.len();
    let moved = Seq::new(n, movement_of(battle.battlefield, battle.terrain, battle.units));
    assert(moved[i] == spec_formed_step(battle.battlefield, battle.terrain, battle.units, i));
    let speed = battle.terrain.spec_movement_speed(battle.battlefield, unit.position, unit.speed);
    assert(1 <= speed <= unit.speed);
    let target = live_target(battle.units, unit);
    let destination = if unit.destination is Some {
        unit.destination
    } else if target is Some {
        Some(battle.units[target->0].position)
    } else {
        None
    };
    if let Some(d) = destination {
        let waypoint = battle.terrain.spec_movement_waypoint(battle.battlefield, unit.position, d);
        lemma_move_toward(unit.position, waypoint, speed);
        crate::motion::lemma_square_le(speed as int, unit.speed as int);
    } else {
        assert(spec_dist2(unit.position, unit.position) == 0);
    }
}

/// A pursuer never takes more soldiers in one pulse than its frontage.
pub proof fn pursuit_losses_within_frontage(pursuer: UnitView)
    requires
        pursuer.frontage() >= 1,
    ensures
        spec_pursuit_casualties(pursuer) <= pursuer.frontage(),
{
    let f = pursuer.frontage() as int;
    let ff = fatigue_factor(pursuer) as int;
    assert(f * ff <= f * 1000) by (nonlinear_arith) requires 0 <= ff <= 1000, f >= 0;
    assert(f * ff >= 0) by (nonlinear_arith) requires 0 <= ff, f >= 0;
    assert((f * ff) / 1000 <= f) by (nonlinear_arith) requires f * ff <= f * 1000, f * ff >= 0;
}


// ---------------------------------------------------------------------------
// Messages
// ---------------------------------------------------------------------------

pub open spec fn point_text(point: BattlePoint) -> Seq<char> {
    "("@ + decimal(point.x_mm as nat) + ", "@ + decimal(point.y_mm as nat) + ")"@
}

pub open spec fn side_name(side: BattleSide) -> Seq<char> {
    match side {
        BattleSide::Attacker => "Attacker"@,
        BattleSide::Defender => "Defender"@,
    }
}

impl TacticalErrorView {
    /// The human-readable description of a tactical error.
    pub open spec fn message(self) -> Seq<char> {
        match self {
            TacticalErrorView::InvalidBattlefield { width_mm, depth_mm } => "battlefield dimensions must be positive, got "@
                + decimal(width_mm as nat) + "x"@ + decimal(depth_mm as nat) + " mm"@,
            TacticalErrorView::EmptyUnitId => "tactical unit IDs must not be empty"@,
            TacticalErrorView::DuplicateUnitId(id) => "tactical unit ID "@ + id + " is duplicated"@,
            TacticalErrorView::ZeroSoldiers(id) => "tactical unit "@ + id + " must contain soldiers"@,
            TacticalErrorView::InvalidFormation(id) => "tactical unit "@ + id + " has an empty formation"@,
            TacticalErrorView::ZeroMovementSpeed(id) => "tactical unit "@ + id
                + " must have a positive movement speed"@,
            TacticalErrorView::InvalidAttackRange { unit_id, attack_range_mm } => "tactical unit "@
                + unit_id + " has invalid attack range "@ + decimal(attack_range_mm as nat) + " mm"@,
            TacticalErrorView::UnitOutOfBounds { unit_id, position } => "tactical unit "@ + unit_id
                + " starts outside the battlefield at "@ + point_text(position) + " mm"@,
            TacticalErrorView::UnitOnImpassableTerrain { unit_id, position } => "tactical unit "@
                + unit_id + " starts on impassable terrain at "@ + point_text(position) + " mm"@,
            TacticalErrorView::UnitOutsideDeploymentZone { unit_id, side, position } => "tactical unit "@
                + unit_id + " starts outside the "@ + side_name(side) + " deployment zone at "@
                + point_text(position) + " mm"@,
            TacticalErrorView::UnitNotFound(id) => "tactical unit "@ + id + " does not exist"@,
            TacticalErrorView::UnitCannotReceiveOrders { unit_id } => "tactical unit "@ + unit_id
                + " cannot receive orders"@,
            TacticalErrorView::DestinationOutOfBounds { unit_id, destination } => "movement order for "@
                + unit_id + " leaves the battlefield at "@ + point_text(destination) + " mm"@,
            TacticalErrorView::DestinationImpassable { unit_id, destination } => "movement order for "@
                + unit_id + " targets impassable terrain at "@ + point_text(destination) + " mm"@,
            TacticalErrorView::FriendlyEngagement { unit_id, target_unit_id } => "tactical unit "@
                + unit_id + " cannot engage friendly unit "@ + target_unit_id,
            TacticalErrorView::TargetDestroyed(id) => "tactical unit "@ + id + " is already destroyed"@,
        }
    }
}

fn append_point(text: &mut String, point: BattlePoint)
    ensures
        final(text)@ == old(text)@ + point_text(point),
{
    text.append("(");
    let x = decimal_text(point.x_mm as u64);
    text.append(x.as_str());
    text.append(", ");
    let y = decimal_text(point.y_mm as u64);
    text.append(y.as_str());
    text.append(")");
}

fn unit_sentence(prefix: &str, id: &String, suffix: &str) -> (text: String)
    ensures
        text@ == prefix@ + id@ + suffix@,
{
    let mut text = owned(prefix);
    text.append(id.as_str());
    text.append(suffix);
    text
}

impl TacticalError {
    /// The human-readable description of the error.
    pub fn message(&self) -> (text: String)
        ensures
            text@ == self@.message(),
    {
        match self {
            TacticalError::InvalidBattlefield { width_mm, depth_mm } => {
                let mut text = owned("battlefield dimensions must be positive, got ");
                let w = decimal_text(*width_mm as u64);
                text.append(w.as_str());
                text.append("x");
                let d = decimal_text(*depth_mm as u64);
                text.append(d.as_str());
                text.append(" mm");
                text
            },
            TacticalError::EmptyUnitId => owned("tactical unit IDs must not be empty"),
            TacticalError::DuplicateUnitId(id) => unit_sentence("tactical unit ID ", id, " is duplicated"),
            TacticalError::ZeroSoldiers(id) => unit_sentence("tactical unit ", id, " must contain soldiers"),
            TacticalError::InvalidFormation(id) => unit_sentence(
                "tactical unit ",
                id,
                " has an empty formation",
            ),
            TacticalError::ZeroMovementSpeed(id) => unit_sentence(
                "tactical unit ",
                id,
                " must have a positive movement speed",
            ),
            TacticalError::InvalidAttackRange { unit_id, attack_range_mm } => {
                let mut text = unit_sentence("tactical unit ", unit_id, " has invalid attack range ");
                let r = decimal_text(*attack_range_mm as u64);
                text.append(r.as_str());
                text.append(" mm");
                text
            },
            TacticalError::UnitOutOfBounds { unit_id, position } => {
                let mut text = unit_sentence(
                    "tactical unit ",
                    unit_id,
                    " starts outside the battlefield at ",
                );
                append_point(&mut text, *position);
                text.append(" mm");
                text
            },
            TacticalError::UnitOnImpassableTerrain { unit_id, position } => {
                let mut text = unit_sentence(
                    "tactical unit ",
                    unit_id,
                    " starts on impassable terrain at ",
                );
                append_point(&mut text, *position);
                text.append(" mm");
                text
            },
            TacticalError::UnitOutsideDeploymentZone { unit_id, side, position } => {
                let mut text = unit_sentence("tactical unit ", unit_id, " starts outside the ");
                match side {
                    BattleSide::Attacker => text.append("Attacker"),
                    BattleSide::Defender => text.append("Defender"),
                }
                text.append(" deployment zone at ");
                append_point(&mut text, *position);
                text.append(" mm");
                text
            },
            TacticalError::UnitNotFound(id) => unit_sentence("tactical unit ", id, " does not exist"),
            TacticalError::UnitCannotReceiveOrders { unit_id } => unit_sentence(
                "tactical unit ",
                unit_id,
                " cannot receive orders",
            ),
            TacticalError::DestinationOutOfBounds { unit_id, destination } => {
                let mut text = unit_sentence(
                    "movement order for ",
                    unit_id,
                    " leaves the battlefield at ",
                );
                append_point(&mut text, *destination);
                text.append(" mm");
                text
            },
            TacticalError::DestinationImpassable { unit_id, destination } => {
                let mut text = unit_sentence(
                    "movement order for ",
                    unit_id,
                    " targets impassable terrain at ",
                );
                append_point(&mut text, *destination);
                text.append(" mm");
                text
            },
            TacticalError::FriendlyEngagement { unit_id, target_unit_id } => {
                let mut text = unit_sentence("tactical unit ", unit_id, " cannot engage friendly unit ");
                text.append(target_unit_id.as_str());
                text
            },
            TacticalError::TargetDestroyed(id) => unit_sentence(
                "tactical unit ",
                id,
                " is already destroyed",
            ),
        }
    }
}


// ---------------------------------------------------------------------------
// Copies and lookups for callers
// ---------------------------------------------------------------------------

impl Clone for TacticalBattle {
    fn clone(&self) -> (copy: Self)
        ensures
            copy@ == self@,
    {
        TacticalBattle {
            tick: self.tick,
            battlefield: self.battlefield,
            terrain: self.terrain,
            units: clone_units(&self.units),
        }
    }
}

impl TacticalUnit {
    /// Whether the unit carries the id `id`.
    pub fn has_id(&self, id: &String) -> (same: bool)
        ensures
            same == (self@.id == id@),
    {
        self.id == *id
    }
}

} // verus!
