use vstd::prelude::*;

use crate::campaign::{opt_text_view, text_views, spec_unit_cost, spec_unit_kinds, spec_unit_label, UnitKind};
use crate::motion::{point_distance_squared, spec_dist2};
use crate::tactical::{
    has_unit, ids_sorted, lemma_sorted_distinct, lemma_unit_at, distinct_ids, unit_at, unit_views,
    BattlePoint, BattleSide, BattleView, Formation, TacticalBattle, TacticalError, TacticalUnit,
    TacticalUnitState, UnitView, COMBAT_CONTACT_DISTANCE_MM, MAX_TACTICAL_MORALE,
};
use crate::session::text_result;
use crate::text::{decimal, decimal_text, lemma_text_lt_total, owned, text_is, text_lt};

verus! {

// ---------------------------------------------------------------------------
// The opponent of the battle sandbox
// ---------------------------------------------------------------------------

/// A unit of `side` that still stands in formation.
pub open spec fn is_live(unit: UnitView, side: BattleSide) -> bool {
    unit.side == side && unit.state == TacticalUnitState::Formed
}

pub open spec fn has_live(units: Seq<UnitView>, side: BattleSide) -> bool {
    exists|j: int| 0 <= j < units.len() && is_live(#[trigger] units[j], side)
}

/// Unit `k` is the live attacker nearest to `from`; of equally near ones,
/// the one with the smaller id.
pub open spec fn is_nearest_attacker(units: Seq<UnitView>, from: BattlePoint, k: int) -> bool {
    &&& 0 <= k < units.len()
    &&& is_live(units[k], BattleSide::Attacker)
    &&& forall|j: int|
        0 <= j < units.len() && is_live(#[trigger] units[j], BattleSide::Attacker) ==> spec_dist2(
            from,
            units[k].position,
        ) < spec_dist2(from, units[j].position) || (spec_dist2(from, units[k].position)
            == spec_dist2(from, units[j].position) && !text_lt(units[j].id, units[k].id))
}

pub open spec fn nearest_attacker(units: Seq<UnitView>, from: BattlePoint) -> int {
    choose|k: int| is_nearest_attacker(units, from, k)
}

/// A live defender is sent against its nearest live attacker unless it is
/// already engaging it; every other unit is left alone.
pub open spec fn opponent_order(units: Seq<UnitView>, unit: UnitView) -> UnitView {
    if is_live(unit, BattleSide::Defender) {
        let target = units[nearest_attacker(units, unit.position)].id;
        if unit.target == Some(target) {
            unit
        } else {
            UnitView { destination: None, target: Some(target), ..unit }
        }
    } else {
        unit
    }
}

/// The sandbox opponent's plan: while the player has a unit in formation,
/// every defender in formation engages the nearest one.
pub open spec fn spec_drive_opponent(battle: BattleView) -> BattleView {
    if !has_live(battle.units, BattleSide::Attacker) {
        battle
    } else {
        BattleView {
            units: battle.units.map_values(|unit: UnitView| opponent_order(battle.units, unit)),
            ..battle
        }
    }
}

/// Units that agree on what the opponent's plan reads.
pub open spec fn same_bearing(a: UnitView, b: UnitView) -> bool {
    a.id == b.id && a.side == b.side && a.state == b.state && a.position == b.position
}

proof fn lemma_nearest_unique(units: Seq<UnitView>, from: BattlePoint, k: int)
    requires
        distinct_ids(units),
        is_nearest_attacker(units, from, k),
    ensures
        nearest_attacker(units, from) == k,
{
    let c = nearest_attacker(units, from);
    assert(is_nearest_attacker(units, from, c));
    lemma_text_lt_total(units[c].id, units[k].id);
    if c != k {
        assert(units[c].id != units[k].id);
    }
}

proof fn lemma_nearest_same_bearing(a: Seq<UnitView>, b: Seq<UnitView>, from: BattlePoint, k: int)
    requires
        a.len() == b.len(),
        forall|m: int| 0 <= m < a.len() ==> same_bearing(#[trigger] a[m], b[m]),
        is_nearest_attacker(a, from, k),
    ensures
        is_nearest_attacker(b, from, k),
{
    assert forall|j: int| 0 <= j < b.len() && is_live(#[trigger] b[j], BattleSide::Attacker) implies spec_dist2(
        from,
        b[k].position,
    ) < spec_dist2(from, b[j].position) || (spec_dist2(from, b[k].position) == spec_dist2(
        from,
        b[j].position,
    ) && !text_lt(b[j].id, b[k].id)) by {
        assert(same_bearing(a[j], b[j]));
        assert(same_bearing(a[k], b[k]));
        assert(is_live(a[j], BattleSide::Attacker));
    }
}

fn is_live_unit(unit: &TacticalUnit, side: BattleSide) -> (live: bool)
    ensures
        live == is_live(unit@, side),
{
    unit.side() == side && !unit.is_routed() && !unit.is_destroyed()
}

/// The storage index of the live attacker nearest to `from`, if any.
fn nearest_live_attacker(units: &[TacticalUnit], from: BattlePoint) -> (found: Option<usize>)
    requires
        ids_sorted(unit_views(units@)),
    ensures
        match found {
            Some(k) => is_nearest_attacker(unit_views(units@), from, k as int),
            None => !has_live(unit_views(units@), BattleSide::Attacker),
        },
{
    let ghost views = unit_views(units@);
    let mut best: Option<usize> = None;
    let mut best_d: u128 = 0;
    let mut j: usize = 0;
    while j < units.len()
        invariant
            j <= units.len(),
            views == unit_views(units@),
            views.len() == units.len(),
            match best {
                None => forall|m: int| 0 <= m < j ==> !is_live(#[trigger] views[m], BattleSide::Attacker),
                Some(k) => {
                    &&& k < j
                    &&& is_live(views[k as int], BattleSide::Attacker)
                    &&& best_d == spec_dist2(from, views[k as int].position)
                    &&& forall|m: int|
                        0 <= m < j && is_live(#[trigger] views[m], BattleSide::Attacker) ==> best_d
                            < spec_dist2(from, views[m].position) || (best_d == spec_dist2(
                            from,
                            views[m].position,
                        ) && k <= m)
                },
            },
        decreases units.len() - j,
    {
        assert(units@[j as int]@ == views[j as int]);
        if is_live_unit(&units[j], BattleSide::Attacker) {
            let d = point_distance_squared(from, units[j].position());
            match best {
                None => {
                    best = Some(j);
                    best_d = d;
                },
                Some(_) => {
                    if d < best_d {
                        best = Some(j);
                        best_d = d;
                    }
                },
            }
        }
        j += 1;
    }
    proof {
        match best {
            Some(k) => {
                assert forall|m: int|
                    0 <= m < views.len() && is_live(#[trigger] views[m], BattleSide::Attacker) implies spec_dist2(
                    from,
                    views[k as int].position,
                ) < spec_dist2(from, views[m].position) || (spec_dist2(from, views[k as int].position)
                    == spec_dist2(from, views[m].position) && !text_lt(views[m].id, views[k as int].id)) by {
                    lemma_text_lt_total(views[k as int].id, views[m].id);
                    if m != k && best_d == spec_dist2(from, views[m].position) {
                        assert(text_lt(views[k as int].id, views[m].id));
                    }
                }
            },
            None => {},
        }
    }
    best
}

/// Sends every defender in formation against the nearest attacker in
/// formation; see `spec_drive_opponent`. Every order it gives is legal.
pub fn drive_opponent(battle: &mut TacticalBattle) -> (result: Result<(), TacticalError>)
    requires
        old(battle)@.wf(),
    ensures
        final(battle)@.wf(),
        final(battle)@ == spec_drive_opponent(old(battle)@),
        result is Ok,
{
    let ghost start = battle@;
    proof {
        lemma_sorted_distinct(start.units);
    }
    if nearest_live_attacker(battle.units(), BattlePoint { x_mm: 0, y_mm: 0 }).is_none() {
        return Ok(());
    }
    let n = battle.units().len();
    let mut i: usize = 0;
    while i < n
        invariant
            i <= n,
            n == start.units.len(),
            start.wf(),
            distinct_ids(start.units),
            has_live(start.units, BattleSide::Attacker),
            battle@.wf(),
            battle@.tick == start.tick,
            battle@.battlefield == start.battlefield,
            battle@.terrain == start.terrain,
            battle@.units.len() == n,
            forall|m: int| 0 <= m < i ==> #[trigger] battle@.units[m] == opponent_order(start.units, start.units[m]),
            forall|m: int| i <= m < n ==> #[trigger] battle@.units[m] == start.units[m],
        decreases n - i,
    {
        let ghost now = battle@;
        assert forall|m: int| 0 <= m < n implies same_bearing(#[trigger] now.units[m], start.units[m]) by {
            if m < i {
                assert(now.units[m] == opponent_order(start.units, start.units[m]));
            }
        }
        let mut order: Option<(String, String)> = None;
        {
            let units = battle.units();
            assert(units@[i as int]@ == now.units[i as int]);
            if is_live_unit(&units[i], BattleSide::Defender) {
                match nearest_live_attacker(units, units[i].position()) {
                    Some(k) => {
                        assert(units@[k as int]@ == now.units[k as int]);
                        let target = units[k].id();
                        let current = units[i].engagement_target();
                        let engaged = match current {
                            Some(t) => {
                                let a = crate::text::owned(t);
                                let b = crate::text::owned(target);
                                a == b
                            },
                            None => false,
                        };
                        proof {
                            assert forall|m: int| 0 <= m < n implies same_bearing(
                                #[trigger] now.units[m],
                                start.units[m],
                            ) by {}
                            lemma_nearest_same_bearing(now.units, start.units, now.units[i as int].position, k as int);
                            lemma_nearest_unique(start.units, start.units[i as int].position, k as int);
                        }
                        if !engaged {
                            order = Some((crate::text::owned(units[i].id()), crate::text::owned(target)));
                        }
                    },
                    None => {
                        proof {
                            let w = choose|j: int| 0 <= j < start.units.len() && is_live(#[trigger] start.units[j], BattleSide::Attacker);
                            assert(same_bearing(now.units[w], start.units[w]));
                            assert(is_live(now.units[w], BattleSide::Attacker));
                        }
                    },
                }
            }
        }
        match order {
            Some((unit_id, target_id)) => {
                let ghost k = nearest_attacker(start.units, start.units[i as int].position);
                proof {
                    assert(now.units[i as int].id == unit_id@);
                    lemma_sorted_distinct(now.units);
                    lemma_unit_at(now.units, unit_id@, i as int);
                    lemma_unit_at(now.units, target_id@, k);
                }
                let issued = battle.issue_engagement_order(unit_id.as_str(), target_id.as_str());
                assert(issued is Ok);
                assert(battle@.units =~= now.units.update(
                    i as int,
                    opponent_order(start.units, start.units[i as int]),
                ));
            },
            None => {},
        }
        i += 1;
    }
    assert(battle@.units =~= start.units.map_values(
        |unit: UnitView| opponent_order(start.units, unit),
    ));
    Ok(())
}

// ---------------------------------------------------------------------------
// Mustering the player's army
// ---------------------------------------------------------------------------

/// The muster budget of the battle sandbox.
pub const SANDBOX_ARMY_BUDGET: u32 = 1_500;
/// The most battalions the sandbox army may field.
pub const MAX_SANDBOX_BATTALIONS: u32 = 12;
/// Where the player's battalions deploy: one column, rows top to bottom.
pub const PLAYER_DEPLOYMENT_X_MM: u32 = 22_000;
pub const PLAYER_DEPLOYMENT_FIRST_Y_MM: u32 = 10_000;
pub const PLAYER_DEPLOYMENT_ROW_SPACING_MM: u32 = 7_000;
/// The reach of the sandbox's archers.
pub const ARCHER_RANGE_MM: u32 = 25_000;
/// The opponent replans once a second of battle.
pub const OPPONENT_REPLAN_TICKS: u64 = 20;

/// How many battalions of each kind the player musters.
#[derive(Copy, Clone, Debug, PartialEq, Eq, Structural)]
pub struct SandboxArmySelection {
    pub levy: u16,
    pub spearmen: u16,
    pub archers: u16,
    pub knights: u16,
}

impl SandboxArmySelection {
    pub open spec fn count(self, kind: UnitKind) -> u16 {
        match kind {
            UnitKind::Levy => self.levy,
            UnitKind::Spearmen => self.spearmen,
            UnitKind::Archers => self.archers,
            UnitKind::Knights => self.knights,
        }
    }

    pub open spec fn spec_battalion_count(self) -> int {
        self.levy + self.spearmen + self.archers + self.knights
    }

    /// The muster cost of the selection.
    pub open spec fn spec_spent(self) -> int {
        self.levy * spec_unit_cost(UnitKind::Levy) + self.spearmen * spec_unit_cost(
            UnitKind::Spearmen,
        ) + self.archers * spec_unit_cost(UnitKind::Archers) + self.knights * spec_unit_cost(
            UnitKind::Knights,
        )
    }

    /// Why the selection cannot take the field, if it cannot.
    pub open spec fn spec_refusal(self) -> Option<Seq<char>> {
        if self.spec_battalion_count() == 0 {
            Some("Choose at least one battalion."@)
        } else if self.spec_battalion_count() > MAX_SANDBOX_BATTALIONS {
            Some("The field command can coordinate at most 12 battalions."@)
        } else if self.spec_spent() > SANDBOX_ARMY_BUDGET {
            Some("This army exceeds the available muster budget."@)
        } else {
            None
        }
    }

    pub fn battalion_count(self) -> (count: u32)
        ensures
            count == self.spec_battalion_count(),
    {
        self.levy as u32 + self.spearmen as u32 + self.archers as u32 + self.knights as u32
    }
}

/// One line of the muster quote.
#[derive(Debug, PartialEq, Eq)]
pub struct ArmySetupUnit {
    pub unit: UnitKind,
    pub label: String,
    pub cost: u32,
    pub selected: u16,
}

/// What a selection costs, what is left of the budget, and whether the
/// army may take the field.
#[derive(Debug, PartialEq, Eq)]
pub struct ArmySetupQuote {
    pub budget: u32,
    pub spent: u32,
    pub remaining: u32,
    pub battalions: u32,
    pub max_battalions: u32,
    pub can_start: bool,
    pub reason: Option<String>,
    pub units: Vec<ArmySetupUnit>,
}

fn quote_line(unit: UnitKind, selected: u16) -> (line: ArmySetupUnit)
    ensures
        line.unit == unit,
        line.label@ == spec_unit_label(unit),
        line.cost == spec_unit_cost(unit),
        line.selected == selected,
{
    let spec = unit.spec();
    ArmySetupUnit { unit, label: spec.label, cost: spec.cost, selected }
}

/// The muster quote of a selection: one line per kind in the fixed kind
/// order, the cost against the budget, and the first reason, if any, why
/// the army cannot start.
pub fn army_setup_quote(selection: SandboxArmySelection) -> (quote: ArmySetupQuote)
    ensures
        quote.budget == SANDBOX_ARMY_BUDGET,
        quote.spent == selection.spec_spent(),
        quote.remaining == (if selection.spec_spent() <= SANDBOX_ARMY_BUDGET {
            SANDBOX_ARMY_BUDGET - selection.spec_spent()
        } else {
            0
        }),
        quote.battalions == selection.spec_battalion_count(),
        quote.max_battalions == MAX_SANDBOX_BATTALIONS,
        quote.can_start == selection.spec_refusal() is None,
        opt_text_view(quote.reason) == selection.spec_refusal(),
        quote.units@.len() == 4,
        forall|k: int|
            0 <= k < 4 ==> {
                let kind = #[trigger] spec_unit_kinds()[k];
                &&& quote.units@[k].unit == kind
                &&& quote.units@[k].label@ == spec_unit_label(kind)
                &&& quote.units@[k].cost == spec_unit_cost(kind)
                &&& quote.units@[k].selected == selection.count(kind)
            },
{
    let battalions = selection.battalion_count();
    let spent = selection.levy as u32 * 120 + selection.spearmen as u32 * 220 + selection.archers as u32
        * 260 + selection.knights as u32 * 500;
    let mut units: Vec<ArmySetupUnit> = Vec::new();
    units.push(quote_line(UnitKind::Levy, selection.levy));
    units.push(quote_line(UnitKind::Spearmen, selection.spearmen));
    units.push(quote_line(UnitKind::Archers, selection.archers));
    units.push(quote_line(UnitKind::Knights, selection.knights));
    let reason = if battalions == 0 {
        Some(owned("Choose at least one battalion."))
    } else if battalions > MAX_SANDBOX_BATTALIONS {
        Some(owned("The field command can coordinate at most 12 battalions."))
    } else if spent > SANDBOX_ARMY_BUDGET {
        Some(owned("This army exceeds the available muster budget."))
    } else {
        None
    };
    let remaining = if spent <= SANDBOX_ARMY_BUDGET {
        SANDBOX_ARMY_BUDGET - spent
    } else {
        0
    };
    let can_start = reason.is_none();
    ArmySetupQuote {
        budget: SANDBOX_ARMY_BUDGET,
        spent,
        remaining,
        battalions,
        max_battalions: MAX_SANDBOX_BATTALIONS,
        can_start,
        reason,
        units,
    }
}

/// Accepts a selection that may take the field; otherwise the quote's reason.
pub fn validate_army_selection(selection: SandboxArmySelection) -> (result: Result<(), String>)
    ensures
        match result {
            Ok(()) => selection.spec_refusal() is None,
            Err(m) => selection.spec_refusal() == Some(m@),
        },
{
    let quote = army_setup_quote(selection);
    match quote.reason {
        None => Ok(()),
        Some(reason) => Err(reason),
    }
}

// ---------------------------------------------------------------------------
// The sandbox's battalions
// ---------------------------------------------------------------------------

pub open spec fn slug(kind: UnitKind) -> Seq<char> {
    match kind {
        UnitKind::Levy => "levy"@,
        UnitKind::Spearmen => "spears"@,
        UnitKind::Archers => "archers"@,
        UnitKind::Knights => "knights"@,
    }
}

/// The `index`-th player battalion of a kind: `attacker-spears`, then
/// `attacker-spears-2`, `attacker-spears-3`, ...
pub open spec fn battalion_id(kind: UnitKind, index: int) -> Seq<char> {
    if index == 0 {
        "attacker-"@ + slug(kind)
    } else {
        "attacker-"@ + slug(kind) + "-"@ + decimal((index + 1) as nat)
    }
}

pub open spec fn battalion_soldiers(kind: UnitKind) -> u16 {
    match kind {
        UnitKind::Levy => 120,
        UnitKind::Spearmen => 110,
        UnitKind::Archers => 80,
        UnitKind::Knights => 44,
    }
}

pub open spec fn battalion_formation(kind: UnitKind) -> Formation {
    match kind {
        UnitKind::Levy => Formation::Line { files: 30 },
        UnitKind::Spearmen => Formation::Line { files: 28 },
        UnitKind::Archers => Formation::Line { files: 24 },
        UnitKind::Knights => Formation::Column { files: 12 },
    }
}

pub open spec fn battalion_speed(kind: UnitKind) -> u32 {
    match kind {
        UnitKind::Levy => 380,
        UnitKind::Spearmen => 450,
        UnitKind::Archers => 420,
        UnitKind::Knights => 850,
    }
}

/// A fresh unit as the sandbox fields it.
pub open spec fn fresh_unit(
    id: Seq<char>,
    side: BattleSide,
    soldiers: u16,
    position: BattlePoint,
    formation: Formation,
    speed: u32,
    attack_range: u32,
) -> UnitView {
    UnitView {
        id,
        side,
        soldiers,
        position,
        formation,
        speed,
        attack_range,
        destination: None,
        target: None,
        fatigue: 0,
        morale: MAX_TACTICAL_MORALE,
        state: TacticalUnitState::Formed,
    }
}

/// The `index`-th player battalion of a kind, deployed at height `y_mm`.
pub open spec fn player_battalion(kind: UnitKind, index: int, y_mm: u32) -> UnitView {
    fresh_unit(
        battalion_id(kind, index),
        BattleSide::Attacker,
        battalion_soldiers(kind),
        BattlePoint { x_mm: PLAYER_DEPLOYMENT_X_MM, y_mm },
        battalion_formation(kind),
        battalion_speed(kind),
        if kind == UnitKind::Archers { ARCHER_RANGE_MM } else { COMBAT_CONTACT_DISTANCE_MM },
    )
}

/// The height of the deployment row that the `placed`-th battalion takes;
/// rows stop advancing after the largest `u16` row.
pub open spec fn row_y(placed: int) -> u32 {
    (PLAYER_DEPLOYMENT_FIRST_Y_MM + (if placed < 0xffff { placed } else { 0xffff })
        * PLAYER_DEPLOYMENT_ROW_SPACING_MM) as u32
}

/// The battalions of one kind, placed after `before` earlier battalions.
pub open spec fn kind_block(kind: UnitKind, count: u16, before: int) -> Seq<UnitView> {
    Seq::new(count as nat, |i: int| player_battalion(kind, i, row_y(before + i)))
}

/// The player's battalions: kind by kind in the fixed kind order, one
/// deployment row each.
pub open spec fn spec_player_units(selection: SandboxArmySelection) -> Seq<UnitView> {
    kind_block(UnitKind::Levy, selection.levy, 0) + kind_block(
        UnitKind::Spearmen,
        selection.spearmen,
        selection.levy as int,
    ) + kind_block(UnitKind::Archers, selection.archers, selection.levy + selection.spearmen)
        + kind_block(
        UnitKind::Knights,
        selection.knights,
        selection.levy + selection.spearmen + selection.archers,
    )
}

fn slug_text(kind: UnitKind) -> (text: String)
    ensures
        text@ == slug(kind),
{
    match kind {
        UnitKind::Levy => owned("levy"),
        UnitKind::Spearmen => owned("spears"),
        UnitKind::Archers => owned("archers"),
        UnitKind::Knights => owned("knights"),
    }
}

/// The first battalion of the kinds the sandbox fields by name.
pub fn canonical_player_unit(kind: UnitKind, y_mm: u32) -> (unit: Option<TacticalUnit>)
    ensures
        match unit {
            Some(u) => kind != UnitKind::Levy && u@ == player_battalion(kind, 0, y_mm),
            None => kind == UnitKind::Levy,
        },
{
    let position = BattlePoint { x_mm: PLAYER_DEPLOYMENT_X_MM, y_mm };
    proof {
        reveal_strlit("attacker-");
        reveal_strlit("spears");
        reveal_strlit("archers");
        reveal_strlit("knights");
        reveal_strlit("attacker-spears");
        reveal_strlit("attacker-archers");
        reveal_strlit("attacker-knights");
        assert("attacker-spears"@ =~= "attacker-"@ + "spears"@);
        assert("attacker-archers"@ =~= "attacker-"@ + "archers"@);
        assert("attacker-knights"@ =~= "attacker-"@ + "knights"@);
    }
    match kind {
        UnitKind::Levy => None,
        UnitKind::Spearmen => Some(
            TacticalUnit::new(
                "attacker-spears",
                BattleSide::Attacker,
                110,
                position,
                Formation::Line { files: 28 },
                450,
            ),
        ),
        UnitKind::Archers => Some(
            TacticalUnit::new(
                "attacker-archers",
                BattleSide::Attacker,
                80,
                position,
                Formation::Line { files: 24 },
                420,
            ).with_attack_range_mm(ARCHER_RANGE_MM),
        ),
        UnitKind::Knights => Some(
            TacticalUnit::new(
                "attacker-knights",
                BattleSide::Attacker,
                44,
                position,
                Formation::Column { files: 12 },
                850,
            ),
        ),
    }
}

/// The `index`-th player battalion of a kind, by its numbered name.
pub fn extra_player_unit(kind: UnitKind, index: u16, y_mm: u32) -> (unit: TacticalUnit)
    ensures
        unit@ == player_battalion(kind, index as int, y_mm),
{
    let mut id = owned("attacker-");
    let name = slug_text(kind);
    id.append(name.as_str());
    if index != 0 {
        id.append("-");
        let number = decimal_text(index as u64 + 1);
        id.append(number.as_str());
    }
    let (soldiers, formation, speed_mm_per_tick) = match kind {
        UnitKind::Levy => (120u16, Formation::Line { files: 30 }, 380u32),
        UnitKind::Spearmen => (110u16, Formation::Line { files: 28 }, 450u32),
        UnitKind::Archers => (80u16, Formation::Line { files: 24 }, 420u32),
        UnitKind::Knights => (44u16, Formation::Column { files: 12 }, 850u32),
    };
    let unit = TacticalUnit::new(
        id.as_str(),
        BattleSide::Attacker,
        soldiers,
        BattlePoint { x_mm: PLAYER_DEPLOYMENT_X_MM, y_mm },
        formation,
        speed_mm_per_tick,
    );
    if kind == UnitKind::Archers {
        unit.with_attack_range_mm(ARCHER_RANGE_MM)
    } else {
        unit
    }
}

fn push_kind(
    units: &mut Vec<TacticalUnit>,
    kind: UnitKind,
    count: u16,
    slot: &mut u16,
    Ghost(before): Ghost<int>,
)
    requires
        0 <= before <= 3 * 0xffff,
        *old(slot) == (if before < 0xffff { before } else { 0xffff }),
    ensures
        unit_views(final(units)@) == unit_views(old(units)@) + kind_block(kind, count, before),
        *final(slot) == (if before + count < 0xffff { before + count } else { 0xffff }),
{
    let ghost start = unit_views(units@);
    let mut index: u16 = 0;
    while index < count
        invariant
            index <= count,
            0 <= before <= 3 * 0xffff,
            *slot == (if before + index < 0xffff { before + index } else { 0xffff }),
            unit_views(units@) == start + kind_block(kind, index, before),
        decreases count - index,
    {
        let y_mm = PLAYER_DEPLOYMENT_FIRST_Y_MM + *slot as u32 * PLAYER_DEPLOYMENT_ROW_SPACING_MM;
        assert(y_mm == row_y(before + index));
        let ghost prior = unit_views(units@);
        let mut placed = false;
        if index == 0 {
            if let Some(unit) = canonical_player_unit(kind, y_mm) {
                units.push(unit);
                placed = true;
            }
        }
        if !placed {
            units.push(extra_player_unit(kind, index, y_mm));
        }
        assert(unit_views(units@) =~= prior.push(player_battalion(kind, index as int, row_y(before + index))));
        assert(kind_block(kind, (index + 1) as u16, before) =~= kind_block(kind, index, before).push(
            player_battalion(kind, index as int, row_y(before + index)),
        ));
        assert(unit_views(units@) =~= start + kind_block(kind, (index + 1) as u16, before));
        *slot = if *slot < 0xffff { *slot + 1 } else { 0xffff };
        index += 1;
    }
}

/// The player's battalions for a selection; see `spec_player_units`.
pub fn player_units(selection: SandboxArmySelection) -> (units: Vec<TacticalUnit>)
    ensures
        unit_views(units@) == spec_player_units(selection),
{
    let mut units: Vec<TacticalUnit> = Vec::new();
    let mut slot: u16 = 0;
    assert(unit_views(units@) =~= Seq::<UnitView>::empty());
    push_kind(&mut units, UnitKind::Levy, selection.levy, &mut slot, Ghost(0));
    push_kind(&mut units, UnitKind::Spearmen, selection.spearmen, &mut slot, Ghost(selection.levy as int));
    push_kind(
        &mut units,
        UnitKind::Archers,
        selection.archers,
        &mut slot,
        Ghost(selection.levy + selection.spearmen),
    );
    push_kind(
        &mut units,
        UnitKind::Knights,
        selection.knights,
        &mut slot,
        Ghost(selection.levy + selection.spearmen + selection.archers),
    );
    assert(unit_views(units@) =~= spec_player_units(selection));
    units
}

/// The sandbox opponent's three battalions.
pub open spec fn spec_opponent_units() -> Seq<UnitView> {
    seq![
        fresh_unit(
            "defender-spears"@,
            BattleSide::Defender,
            110,
            BattlePoint { x_mm: 78_000, y_mm: 24_000 },
            Formation::Line { files: 28 },
            430,
            COMBAT_CONTACT_DISTANCE_MM,
        ),
        fresh_unit(
            "defender-archers"@,
            BattleSide::Defender,
            80,
            BattlePoint { x_mm: 82_000, y_mm: 50_000 },
            Formation::Line { files: 24 },
            400,
            ARCHER_RANGE_MM,
        ),
        fresh_unit(
            "defender-knights"@,
            BattleSide::Defender,
            44,
            BattlePoint { x_mm: 78_000, y_mm: 76_000 },
            Formation::Column { files: 12 },
            800,
            COMBAT_CONTACT_DISTANCE_MM,
        ),
    ]
}

pub fn opponent_units() -> (units: Vec<TacticalUnit>)
    ensures
        unit_views(units@) == spec_opponent_units(),
{
    let mut units: Vec<TacticalUnit> = Vec::new();
    units.push(
        TacticalUnit::new(
            "defender-spears",
            BattleSide::Defender,
            110,
            BattlePoint { x_mm: 78_000, y_mm: 24_000 },
            Formation::Line { files: 28 },
            430,
        ),
    );
    units.push(
        TacticalUnit::new(
            "defender-archers",
            BattleSide::Defender,
            80,
            BattlePoint { x_mm: 82_000, y_mm: 50_000 },
            Formation::Line { files: 24 },
            400,
        ).with_attack_range_mm(ARCHER_RANGE_MM),
    );
    units.push(
        TacticalUnit::new(
            "defender-knights",
            BattleSide::Defender,
            44,
            BattlePoint { x_mm: 78_000, y_mm: 76_000 },
            Formation::Column { files: 12 },
            800,
        ),
    );
    assert(unit_views(units@) =~= spec_opponent_units());
    units
}

// ---------------------------------------------------------------------------
// The end of a sandbox battle, and formation changes of the selection
// ---------------------------------------------------------------------------

/// The sandbox battle is over once a side has no unit left in formation:
/// the player wins when only its own units stand, loses when only the
/// opponent's do, and it is a draw when neither does.
pub open spec fn spec_outcome(units: Seq<UnitView>) -> Option<Seq<char>> {
    let attacker = has_live(units, BattleSide::Attacker);
    let defender = has_live(units, BattleSide::Defender);
    if attacker && defender {
        None
    } else if attacker {
        Some("playerVictory"@)
    } else if defender {
        Some("playerDefeat"@)
    } else {
        Some("draw"@)
    }
}

fn any_live(units: &[TacticalUnit], side: BattleSide) -> (found: bool)
    ensures
        found == has_live(unit_views(units@), side),
{
    let ghost views = unit_views(units@);
    let mut j: usize = 0;
    while j < units.len()
        invariant
            j <= units.len(),
            views == unit_views(units@),
            views.len() == units.len(),
            forall|m: int| 0 <= m < j ==> !is_live(#[trigger] views[m], side),
        decreases units.len() - j,
    {
        assert(units@[j as int]@ == views[j as int]);
        if is_live_unit(&units[j], side) {
            return true;
        }
        j += 1;
    }
    false
}

pub fn sandbox_outcome(units: &[TacticalUnit]) -> (outcome: Option<&'static str>)
    ensures
        match outcome {
            Some(name) => spec_outcome(unit_views(units@)) == Some(name@),
            None => spec_outcome(unit_views(units@)) is None,
        },
{
    let attacker = any_live(units, BattleSide::Attacker);
    let defender = any_live(units, BattleSide::Defender);
    if attacker && defender {
        None
    } else if attacker {
        Some("playerVictory")
    } else if defender {
        Some("playerDefeat")
    } else {
        Some("draw")
    }
}

/// How the sandbox names a side.
pub fn side_name(side: BattleSide) -> (name: &'static str)
    ensures
        name@ == (match side {
            BattleSide::Attacker => "player"@,
            BattleSide::Defender => "opponent"@,
        }),
{
    match side {
        BattleSide::Attacker => "player",
        BattleSide::Defender => "opponent",
    }
}

/// A formation's shape and its number of files.
pub fn formation_status(formation: Formation) -> (status: (&'static str, u16))
    ensures
        status.1 == formation.spec_files(),
        status.0@ == (match formation {
            Formation::Line { .. } => "line"@,
            Formation::Column { .. } => "column"@,
        }),
{
    match formation {
        Formation::Line { files } => ("line", files),
        Formation::Column { files } => ("column", files),
    }
}

pub open spec fn reshaped(line: bool, files: u16) -> Formation {
    if line {
        Formation::Line { files }
    } else {
        Formation::Column { files }
    }
}

pub open spec fn missing_unit_message(id: Seq<char>) -> Seq<char> {
    "selected tactical unit "@ + id + " no longer exists"@
}

/// The first `k` selected units re-formed one after another, keeping each
/// unit's files; the first refusal ends the sequence.
pub open spec fn formation_steps(battle: BattleView, ids: Seq<Seq<char>>, line: bool, k: int) -> Result<
    BattleView,
    Seq<char>,
>
    decreases k,
{
    if k <= 0 {
        Ok(battle)
    } else {
        match formation_steps(battle, ids, line, k - 1) {
            Err(e) => Err(e),
            Ok(current) => {
                let id = ids[k - 1];
                if !has_unit(current.units, id) {
                    Err(missing_unit_message(id))
                } else {
                    let files = current.units[unit_at(current.units, id)].formation.spec_files();
                    let (next, result) = current.spec_formation_order(id, reshaped(line, files));
                    match result {
                        Ok(()) => Ok(next),
                        Err(e) => Err(e.message()),
                    }
                }
            },
        }
    }
}

/// Re-forms every selected unit into a line or a column of its own width,
/// all or nothing.
pub open spec fn spec_set_selected_formation(battle: BattleView, ids: Seq<Seq<char>>, kind: Seq<char>) -> (
    BattleView,
    Result<(), Seq<char>>,
) {
    if kind != "line"@ && kind != "column"@ {
        (battle, Err("unknown formation "@ + kind))
    } else if ids.len() == 0 {
        (battle, Err("no tactical units are selected"@))
    } else {
        match formation_steps(battle, ids, kind == "line"@, ids.len() as int) {
            Ok(next) => (next, Ok(())),
            Err(e) => (battle, Err(e)),
        }
    }
}

fn unit_files(battle: &TacticalBattle, id: &String) -> (files: Option<u16>)
    requires
        battle@.wf(),
    ensures
        match files {
            Some(f) => has_unit(battle@.units, id@) && f == battle@.units[unit_at(
                battle@.units,
                id@,
            )].formation.spec_files(),
            None => !has_unit(battle@.units, id@),
        },
{
    let units = battle.units();
    let ghost views = battle@.units;
    proof {
        lemma_sorted_distinct(views);
    }
    let mut j: usize = 0;
    while j < units.len()
        invariant
            j <= units.len(),
            views == unit_views(units@),
            views == battle@.units,
            views.len() == units.len(),
            distinct_ids(views),
            forall|m: int| 0 <= m < j ==> (#[trigger] views[m]).id != id@,
        decreases units.len() - j,
    {
        assert(units@[j as int]@ == views[j as int]);
        let candidate = owned(units[j].id());
        if candidate == *id {
            proof {
                lemma_unit_at(views, id@, j as int);
            }
            return Some(units[j].formation().files());
        }
        j += 1;
    }
    None
}

pub fn set_selected_formation(battle: &mut TacticalBattle, selected: &Vec<String>, kind: &str) -> (result:
    Result<(), String>)
    requires
        old(battle)@.wf(),
    ensures
        final(battle)@.wf(),
        final(battle)@ == spec_set_selected_formation(old(battle)@, text_views(selected@), kind@).0,
        text_result(result) == spec_set_selected_formation(old(battle)@, text_views(selected@), kind@).1,
{
    let ghost start = battle@;
    let ghost ids = text_views(selected@);
    let line = if text_is(kind, "line") {
        true
    } else if text_is(kind, "column") {
        false
    } else {
        let mut message = owned("unknown formation ");
        message.append(kind);
        return Err(message);
    };
    if selected.len() == 0 {
        return Err(owned("no tactical units are selected"));
    }
    let mut next = battle.clone();
    let mut k: usize = 0;
    while k < selected.len()
        invariant
            k <= selected.len(),
            ids == text_views(selected@),
            ids.len() == selected.len(),
            line == (kind@ == "line"@),
            kind@ == "line"@ || kind@ == "column"@,
            ids.len() > 0,
            battle@ == start,
            start.wf(),
            next@.wf(),
            formation_steps(start, ids, line, k as int) == Ok::<BattleView, Seq<char>>(next@),
        decreases selected.len() - k,
    {
        let id = &selected[k];
        assert(id@ == ids[k as int]);
        let files = match unit_files(&next, id) {
            Some(files) => files,
            None => {
                let mut message = owned("selected tactical unit ");
                message.append(id.as_str());
                message.append(" no longer exists");
                proof {
                    assert(formation_steps(start, ids, line, k + 1) == Err::<BattleView, Seq<char>>(
                        missing_unit_message(ids[k as int]),
                    ));
                    lemma_steps_stop(start, ids, line, k as int + 1);
                }
                return Err(message);
            },
        };
        let formation = if line {
            Formation::Line { files }
        } else {
            Formation::Column { files }
        };
        match next.issue_formation_order(id.as_str(), formation) {
            Ok(()) => {},
            Err(e) => {
                proof {
                    lemma_steps_stop(start, ids, line, k as int + 1);
                }
                return Err(e.message());
            },
        }
        k += 1;
    }
    *battle = next;
    Ok(())
}

/// Once a step is refused, every longer sequence is refused the same way.
proof fn lemma_steps_stop(battle: BattleView, ids: Seq<Seq<char>>, line: bool, k: int)
    requires
        formation_steps(battle, ids, line, k) is Err,
        k <= ids.len(),
    ensures
        formation_steps(battle, ids, line, ids.len() as int) == formation_steps(battle, ids, line, k),
    decreases ids.len() - k,
{
    if k < ids.len() {
        lemma_steps_stop(battle, ids, line, k + 1);
    }
}

} // verus!
