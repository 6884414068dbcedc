use vstd::prelude::*;

use crate::campaign::text_views;
use crate::idset::{
    id_set, id_set_contains, id_set_insert, id_set_remove, lemma_sorted_of,
    lemma_sorted_of_finite, sorted_of, stored_sorted, strictly_sorted,
};
use crate::tactical::{
    distinct_ids, has_unit, lemma_sorted_distinct, lemma_unit_at, unit_at, unit_views, BattlePoint,
    BattleSide, BattleView, MovementOrder, TacticalBattle, TacticalErrorView, TacticalUnitState,
    UnitView,
};
use crate::text::{decimal, decimal_text, owned};

verus! {

/// Control groups are numbered 0 to 9.
pub const CONTROL_GROUP_COUNT: u8 = 10;

/// How a selection request combines with the current selection.
#[derive(Copy, Clone, Debug, PartialEq, Eq, Structural)]
pub enum SelectionMode {
    Replace,
    Add,
    Toggle,
}

#[derive(Debug, PartialEq, Eq)]
pub enum TacticalControlError {
    InvalidCameraDelta,
    InvalidZoomFactor,
    InvalidControlGroup(u8),
    UnknownUnit(String),
    UncontrollableUnit(String),
    NoUnitsSelected,
    RuleRejected(String),
    MissingArgument { intent: String, argument: String },
    UnknownIntent(String),
}

pub ghost enum ControlErrorView {
    InvalidCameraDelta,
    InvalidZoomFactor,
    InvalidControlGroup(u8),
    UnknownUnit(Seq<char>),
    UncontrollableUnit(Seq<char>),
    NoUnitsSelected,
    RuleRejected(Seq<char>),
    MissingArgument { intent: Seq<char>, argument: Seq<char> },
    UnknownIntent(Seq<char>),
}

impl View for TacticalControlError {
    type V = ControlErrorView;

    open spec fn view(&self) -> ControlErrorView {
        match self {
            TacticalControlError::InvalidCameraDelta => ControlErrorView::InvalidCameraDelta,
            TacticalControlError::InvalidZoomFactor => ControlErrorView::InvalidZoomFactor,
            TacticalControlError::InvalidControlGroup(g) => ControlErrorView::InvalidControlGroup(*g),
            TacticalControlError::UnknownUnit(id) => ControlErrorView::UnknownUnit(id@),
            TacticalControlError::UncontrollableUnit(id) => ControlErrorView::UncontrollableUnit(id@),
            TacticalControlError::NoUnitsSelected => ControlErrorView::NoUnitsSelected,
            TacticalControlError::RuleRejected(e) => ControlErrorView::RuleRejected(e@),
            TacticalControlError::MissingArgument { intent, argument } => ControlErrorView::MissingArgument {
                intent: intent@,
                argument: argument@,
            },
            TacticalControlError::UnknownIntent(i) => ControlErrorView::UnknownIntent(i@),
        }
    }
}

impl ControlErrorView {
    pub open spec fn message(self) -> Seq<char> {
        match self {
            ControlErrorView::InvalidCameraDelta => "camera pan must be finite"@,
            ControlErrorView::InvalidZoomFactor => "camera zoom factor must be finite and positive"@,
            ControlErrorView::InvalidControlGroup(g) => "control group "@ + decimal(g as nat)
                + " must be between 0 and 9"@,
            ControlErrorView::UnknownUnit(id) => "unknown tactical unit "@ + id,
            ControlErrorView::UncontrollableUnit(id) => "tactical unit "@ + id
                + " is not controllable by this player"@,
            ControlErrorView::NoUnitsSelected => "no tactical units are selected"@,
            ControlErrorView::RuleRejected(e) => "tactical rules rejected the command: "@ + e,
            ControlErrorView::MissingArgument { intent, argument } => "tactical control "@ + intent
                + " requires "@ + argument,
            ControlErrorView::UnknownIntent(i) => "unknown tactical control "@ + i,
        }
    }
}

impl TacticalControlError {
    /// The human-readable description of the error.
    pub fn message(&self) -> (text: String)
        ensures
            text@ == self@.message(),
    {
        match self {
            TacticalControlError::InvalidCameraDelta => owned("camera pan must be finite"),
            TacticalControlError::InvalidZoomFactor => owned(
                "camera zoom factor must be finite and positive",
            ),
            TacticalControlError::InvalidControlGroup(g) => {
                let mut text = owned("control group ");
                let number = decimal_text(*g as u64);
                text.append(number.as_str());
                text.append(" must be between 0 and 9");
                text
            },
            TacticalControlError::UnknownUnit(id) => {
                let mut text = owned("unknown tactical unit ");
                text.append(id.as_str());
                text
            },
            TacticalControlError::UncontrollableUnit(id) => {
                let mut text = owned("tactical unit ");
                text.append(id.as_str());
                text.append(" is not controllable by this player");
                text
            },
            TacticalControlError::NoUnitsSelected => owned("no tactical units are selected"),
            TacticalControlError::RuleRejected(e) => {
                let mut text = owned("tactical rules rejected the command: ");
                text.append(e.as_str());
                text
            },
            TacticalControlError::MissingArgument { intent, argument } => {
                let mut text = owned("tactical control ");
                text.append(intent.as_str());
                text.append(" requires ");
                text.append(argument.as_str());
                text
            },
            TacticalControlError::UnknownIntent(i) => {
                let mut text = owned("unknown tactical control ");
                text.append(i.as_str());
                text
            },
        }
    }
}

pub open spec fn control_result(r: Result<(), TacticalControlError>) -> Result<(), ControlErrorView> {
    match r {
        Ok(()) => Ok(()),
        Err(e) => Err(e@),
    }
}

// ---------------------------------------------------------------------------
// Controls
// ---------------------------------------------------------------------------

/// The player's semantic control state over a tactical battle: which of
/// its own units are selected, ten control groups, and whether an order is
/// being previewed.
#[derive(Debug, PartialEq, Eq)]
pub struct TacticalControls {
    player_side: BattleSide,
    selected_units: Vec<String>,
    control_groups: Vec<Option<Vec<String>>>,
    order_preview: bool,
}

pub ghost struct ControlsView {
    pub player_side: BattleSide,
    pub selected: Set<Seq<char>>,
    pub groups: Seq<Option<Set<Seq<char>>>>,
    pub order_preview: bool,
}

pub open spec fn group_view(group: Option<Vec<String>>) -> Option<Set<Seq<char>>> {
    match group {
        Some(ids) => Some(id_set(ids)),
        None => None,
    }
}

pub open spec fn group_sorted(group: Option<Vec<String>>) -> bool {
    match group {
        Some(ids) => stored_sorted(ids),
        None => true,
    }
}

impl View for TacticalControls {
    type V = ControlsView;

    closed spec fn view(&self) -> ControlsView {
        ControlsView {
            player_side: self.player_side,
            selected: id_set(self.selected_units),
            groups: self.control_groups@.map_values(|g: Option<Vec<String>>| group_view(g)),
            order_preview: self.order_preview,
        }
    }
}

/// A unit that `side` may command: it exists, fights for `side`, and has
/// not been destroyed.
pub open spec fn controllable(battle: BattleView, side: BattleSide, id: Seq<char>) -> bool {
    exists|i: int|
        0 <= i < battle.units.len() && (#[trigger] battle.units[i]).id == id && battle.units[i].side
            == side && battle.units[i].state != TacticalUnitState::Destroyed
}

pub open spec fn controllable_in(battle: BattleView, side: BattleSide) -> spec_fn(Seq<char>) -> bool {
    |id: Seq<char>| controllable(battle, side, id)
}

pub open spec fn filter_group(
    group: Option<Set<Seq<char>>>,
    battle: BattleView,
    side: BattleSide,
) -> Option<Set<Seq<char>>> {
    match group {
        Some(ids) => Some(ids.filter(controllable_in(battle, side))),
        None => None,
    }
}

/// Why `ids[i]` may not be selected: it names no unit, or one the player
/// does not command.
pub open spec fn selection_refusal(
    battle: BattleView,
    side: BattleSide,
    ids: Seq<Seq<char>>,
    i: int,
) -> Option<ControlErrorView> {
    let id = ids[i];
    if !has_unit(battle.units, id) {
        Some(ControlErrorView::UnknownUnit(id))
    } else {
        let unit = battle.units[unit_at(battle.units, id)];
        if unit.side != side || unit.state == TacticalUnitState::Destroyed {
            Some(ControlErrorView::UncontrollableUnit(id))
        } else {
            None
        }
    }
}

pub open spec fn first_refusal(battle: BattleView, side: BattleSide, ids: Seq<Seq<char>>, n: int) -> Option<
    ControlErrorView,
>
    decreases n,
{
    if n <= 0 {
        None
    } else {
        match first_refusal(battle, side, ids, n - 1) {
            Some(e) => Some(e),
            None => selection_refusal(battle, side, ids, n - 1),
        }
    }
}

impl ControlsView {
    pub open spec fn wf(self) -> bool {
        self.groups.len() == CONTROL_GROUP_COUNT
    }

    pub open spec fn with_selection(self, selected: Set<Seq<char>>) -> ControlsView {
        ControlsView {
            selected,
            order_preview: if selected.is_empty() {
                false
            } else {
                self.order_preview
            },
            ..self
        }
    }

    /// Forgets units the player can no longer command, in the selection and
    /// in every control group.
    pub open spec fn spec_sync(self, battle: BattleView) -> ControlsView {
        ControlsView {
            groups: self.groups.map_values(|g: Option<Set<Seq<char>>>| filter_group(g, battle, self.player_side)),
            ..self.with_selection(self.selected.filter(controllable_in(battle, self.player_side)))
        }
    }

    /// Selects the listed units, which must all be the player's standing
    /// units: replacing the selection, adding to it, or toggling each.
    pub open spec fn spec_select(self, battle: BattleView, ids: Seq<Seq<char>>, mode: SelectionMode) -> (
        ControlsView,
        Result<(), ControlErrorView>,
    ) {
        match first_refusal(battle, self.player_side, ids, ids.len() as int) {
            Some(e) => (self, Err(e)),
            None => {
                let requested = ids.to_set();
                let selected = match mode {
                    SelectionMode::Replace => requested,
                    SelectionMode::Add => self.selected.union(requested),
                    SelectionMode::Toggle => self.selected.difference(requested).union(
                        requested.difference(self.selected),
                    ),
                };
                (self.with_selection(selected), Ok(()))
            },
        }
    }

    pub open spec fn spec_assign_group(self, group: u8) -> (ControlsView, Result<(), ControlErrorView>) {
        if group >= CONTROL_GROUP_COUNT {
            (self, Err(ControlErrorView::InvalidControlGroup(group)))
        } else {
            (ControlsView { groups: self.groups.update(group as int, Some(self.selected)), ..self }, Ok(()))
        }
    }

    /// Recalls a control group, keeping only its units that the player
    /// still commands (the group forgets the others).
    pub open spec fn spec_recall_group(self, battle: BattleView, group: u8, additive: bool) -> (
        ControlsView,
        Result<(), ControlErrorView>,
    ) {
        if group >= CONTROL_GROUP_COUNT {
            (self, Err(ControlErrorView::InvalidControlGroup(group)))
        } else {
            let stored = match self.groups[group as int] {
                Some(ids) => ids,
                None => Set::empty(),
            };
            let recalled = stored.filter(controllable_in(battle, self.player_side));
            let with_group = ControlsView { groups: self.groups.update(group as int, Some(recalled)), ..self };
            (
                with_group.with_selection(
                    if additive {
                        self.selected.union(recalled)
                    } else {
                        recalled
                    },
                ),
                Ok(()),
            )
        }
    }
}

proof fn lemma_selection_is_first(
    battle: BattleView,
    side: BattleSide,
    ids: Seq<Seq<char>>,
    k: int,
    n: int,
)
    requires
        0 <= k <= n,
        first_refusal(battle, side, ids, k) is Some,
    ensures
        first_refusal(battle, side, ids, n) == first_refusal(battle, side, ids, k),
    decreases n - k,
{
    if k < n {
        lemma_selection_is_first(battle, side, ids, k, n - 1);
    }
}

/// Whether `side` commands a unit with id `id` in the battle.
fn is_controllable(battle: &TacticalBattle, side: BattleSide, id: &String) -> (found: bool)
    ensures
        found == controllable(battle@, side, id@),
{
    let units = battle.units();
    let ghost views = battle@.units;
    let mut i: usize = 0;
    while i < units.len()
        invariant
            i <= units.len(),
            views == unit_views(units@),
            views.len() == units@.len(),
            views == battle@.units,
            forall|k: int|
                0 <= k < i ==> !((#[trigger] views[k]).id == id@ && views[k].side == side
                    && views[k].state != TacticalUnitState::Destroyed),
        decreases units.len() - i,
    {
        let unit = &units[i];
        assert(unit@ == views[i as int]);
        if unit.has_id(id) && unit.side() == side && !unit.is_destroyed() {
            return true;
        }
        i += 1;
    }
    false
}

/// The ids of a stored set that `side` still commands.
fn retain_controllable(ids: &Vec<String>, battle: &TacticalBattle, side: BattleSide) -> (kept: Vec<
    String,
>)
    requires
        stored_sorted(*ids),
    ensures
        stored_sorted(kept),
        id_set(kept) == id_set(*ids).filter(controllable_in(battle@, side)),
{
    let ghost views = text_views(ids@);
    let ghost keep = controllable_in(battle@, side);
    let mut kept: Vec<String> = Vec::new();
    let mut i: usize = 0;
    while i < ids.len()
        invariant
            i <= ids.len(),
            views == text_views(ids@),
            views.len() == ids.len(),
            strictly_sorted(views),
            keep == controllable_in(battle@, side),
            stored_sorted(kept),
            forall|k: int|
                0 <= k < kept.len() ==> exists|j: int| 0 <= j < i && #[trigger] views[j] == (
                #[trigger] text_views(kept@)[k]),
            text_views(kept@).to_set() == views.take(i as int).to_set().filter(keep),
        decreases ids.len() - i,
    {
        let ghost before = text_views(kept@);
        if is_controllable(battle, side, &ids[i]) {
            kept.push(ids[i].clone());
            proof {
                let after = text_views(kept@);
                assert(after =~= before.push(views[i as int]));
                assert forall|a: int, b: int| 0 <= a < b < after.len() implies crate::text::text_lt(
                    #[trigger] after[a],
                    #[trigger] after[b],
                ) by {
                    if b == after.len() - 1 {
                        let j = choose|j: int| 0 <= j < i && #[trigger] views[j] == before[a];
                        assert(crate::text::text_lt(views[j], views[i as int]));
                    } else {
                        assert(after[a] == before[a] && after[b] == before[b]);
                    }
                }
            }
        }
        proof {
            let after = text_views(kept@);
            assert(views.take(i as int + 1) =~= views.take(i as int).push(views[i as int]));
            assert forall|k: int| 0 <= k < kept.len() implies exists|j: int|
                0 <= j < i + 1 && #[trigger] views[j] == (#[trigger] text_views(kept@)[k]) by {
                if k < before.len() {
                    assert(after[k] == before[k]);
                    let j = choose|j: int| 0 <= j < i && #[trigger] views[j] == before[k];
                    assert(views[j] == text_views(kept@)[k]);
                } else {
                    assert(views[i as int] == text_views(kept@)[k]);
                }
            }
            let shorter = views.take(i as int);
            let longer = views.take(i as int + 1);
            assert(after.to_set() =~= longer.to_set().filter(keep)) by {
                assert forall|x: Seq<char>| after.to_set().contains(x) implies longer.to_set().filter(
                    keep,
                ).contains(x) by {
                    let k = choose|k: int| 0 <= k < after.len() && after[k] == x;
                    if k < before.len() {
                        assert(before[k] == x);
                        assert(before.to_set().contains(x));
                        assert(shorter.to_set().filter(keep).contains(x));
                        let j = choose|j: int| 0 <= j < shorter.len() && shorter[j] == x;
                        assert(longer[j] == x);
                    } else {
                        assert(x == views[i as int]);
                        assert(longer[i as int] == x);
                    }
                }
                assert forall|x: Seq<char>| longer.to_set().filter(keep).contains(x) implies after.to_set().contains(
                    x,
                ) by {
                    let j = choose|j: int| 0 <= j < longer.len() && longer[j] == x;
                    if j < i {
                        assert(shorter[j] == x);
                        assert(shorter.to_set().filter(keep).contains(x));
                        assert(before.to_set().contains(x));
                        let k = choose|k: int| 0 <= k < before.len() && before[k] == x;
                        assert(after[k] == x);
                    } else {
                        assert(x == views[i as int]);
                        assert(after[after.len() - 1] == x);
                    }
                }
            }
        }
        i += 1;
    }
    proof {
        assert(views.take(ids.len() as int) =~= views);
    }
    kept
}

impl TacticalControls {
    pub closed spec fn wf(self) -> bool {
        &&& stored_sorted(self.selected_units)
        &&& self.control_groups.len() == CONTROL_GROUP_COUNT
        &&& forall|g: int| 0 <= g < self.control_groups.len() ==> group_sorted(#[trigger] self.control_groups@[g])
    }

    /// Fresh controls for `player_side`: nothing selected, no groups.
    pub fn new(battle: &TacticalBattle, player_side: BattleSide) -> (controls: Self)
        ensures
            controls.wf(),
            controls@ == (ControlsView {
                player_side,
                selected: Set::empty(),
                groups: Seq::new(CONTROL_GROUP_COUNT as nat, |g: int| None),
                order_preview: false,
            }),
    {
        let mut control_groups: Vec<Option<Vec<String>>> = Vec::new();
        let mut g: u8 = 0;
        while g < CONTROL_GROUP_COUNT
            invariant
                g <= CONTROL_GROUP_COUNT,
                control_groups.len() == g,
                forall|k: int| 0 <= k < g ==> (#[trigger] control_groups@[k]) is None,
            decreases CONTROL_GROUP_COUNT - g,
        {
            control_groups.push(None);
            g += 1;
        }
        let controls = TacticalControls {
            player_side,
            selected_units: Vec::new(),
            control_groups,
            order_preview: false,
        };
        assert(text_views(controls.selected_units@) =~= Seq::empty());
        assert(id_set(controls.selected_units) =~= Set::empty());
        assert(controls@.groups =~= Seq::new(CONTROL_GROUP_COUNT as nat, |g: int| None));
        controls
    }

    pub fn player_side(&self) -> (side: BattleSide)
        ensures
            side == self@.player_side,
    {
        self.player_side
    }

    pub fn order_preview(&self) -> (active: bool)
        ensures
            active == self@.order_preview,
    {
        self.order_preview
    }

    /// The selected unit ids in increasing byte order.
    pub fn selected_unit_ids(&self) -> (ids: Vec<String>)
        requires
            self.wf(),
        ensures
            text_views(ids@) == sorted_of(self@.selected),
    {
        proof {
            lemma_sorted_of(text_views(self.selected_units@));
        }
        crate::campaign::clone_texts(&self.selected_units)
    }

    /// Forgets units the player no longer commands; see `spec_sync`.
    pub fn sync_with_battle(&mut self, battle: &TacticalBattle)
        requires
            old(self).wf(),
        ensures
            final(self).wf(),
            final(self)@ == old(self)@.spec_sync(battle@),
    {
        let ghost before = self@;
        let side = self.player_side;
        self.selected_units = retain_controllable(&self.selected_units, battle, side);
        let mut g: usize = 0;
        while g < self.control_groups.len()
            invariant
                g <= self.control_groups.len(),
                self.control_groups.len() == CONTROL_GROUP_COUNT,
                side == before.player_side,
                before == old(self)@,
                before.groups.len() == CONTROL_GROUP_COUNT,
                self.player_side == side,
                self.order_preview == before.order_preview,
                stored_sorted(self.selected_units),
                id_set(self.selected_units) == before.selected.filter(controllable_in(battle@, side)),
                forall|k: int| 0 <= k < self.control_groups.len() ==> group_sorted(#[trigger] self.control_groups@[k]),
                forall|k: int| 0 <= k < g ==> group_view(#[trigger] self.control_groups@[k]) == filter_group(before.groups[k], battle@, side),
                forall|k: int| g <= k < self.control_groups.len() ==> group_view(#[trigger] self.control_groups@[k]) == before.groups[k],
            decreases self.control_groups.len() - g,
        {
            let ghost old_groups = self.control_groups@;
            let filtered = match &self.control_groups[g] {
                Some(ids) => Some(retain_controllable(ids, battle, side)),
                None => None,
            };
            self.control_groups.set(g, filtered);
            assert forall|k: int| 0 <= k < self.control_groups.len() && k != g implies self.control_groups@[k] == old_groups[k] by {}
            g += 1;
        }
        if self.selected_units.len() == 0 {
            self.order_preview = false;
        }
        proof {
            let expected = before.spec_sync(battle@);
            assert(self@.groups =~= expected.groups);
            if self.selected_units.len() != 0 {
                assert(id_set(self.selected_units).contains(text_views(self.selected_units@)[0]));
            } else {
                assert(text_views(self.selected_units@) =~= Seq::empty());
                assert(id_set(self.selected_units) =~= Set::empty());
            }
        }
    }
}


/// The first unit with id `id` in the battle, if the player may command it;
/// otherwise why not.
fn check_selectable(battle: &TacticalBattle, side: BattleSide, id: &String) -> (refusal: Option<
    TacticalControlError,
>)
    requires
        battle@.wf(),
    ensures
        match refusal {
            Some(e) => selection_refusal(battle@, side, seq![id@], 0) == Some(e@),
            None => selection_refusal(battle@, side, seq![id@], 0) is None,
        },
{
    let units = battle.units();
    let ghost views = battle@.units;
    proof {
        lemma_sorted_distinct(views);
    }
    let mut i: usize = 0;
    while i < units.len()
        invariant
            i <= units.len(),
            views == unit_views(units@),
            views.len() == units@.len(),
            views == battle@.units,
            crate::tactical::distinct_ids(views),
            forall|k: int| 0 <= k < i ==> (#[trigger] views[k]).id != id@,
        decreases units.len() - i,
    {
        let unit = &units[i];
        assert(unit@ == views[i as int]);
        if unit.has_id(id) {
            proof {
                lemma_unit_at(views, id@, i as int);
            }
            if unit.side() != side || unit.is_destroyed() {
                return Some(TacticalControlError::UncontrollableUnit(id.clone()));
            }
            return None;
        }
        i += 1;
    }
    Some(TacticalControlError::UnknownUnit(id.clone()))
}

impl TacticalControls {
    /// The requested units as a sorted set, or the first refusal.
    fn validate_selection(&self, battle: &TacticalBattle, unit_ids: &Vec<String>) -> (requested:
        Result<Vec<String>, TacticalControlError>)
        requires
            battle@.wf(),
        ensures
            match requested {
                Ok(set) => first_refusal(battle@, self@.player_side, text_views(unit_ids@), unit_ids.len() as int) is None
                    && stored_sorted(set) && id_set(set) == text_views(unit_ids@).to_set(),
                Err(e) => first_refusal(battle@, self@.player_side, text_views(unit_ids@), unit_ids.len() as int)
                    == Some(e@),
            },
    {
        let ghost ids = text_views(unit_ids@);
        let side = self.player_side;
        let mut requested: Vec<String> = Vec::new();
        let mut i: usize = 0;
        while i < unit_ids.len()
            invariant
                i <= unit_ids.len(),
                ids == text_views(unit_ids@),
                ids.len() == unit_ids.len(),
                battle@.wf(),
                side == self@.player_side,
                first_refusal(battle@, side, ids, i as int) is None,
                stored_sorted(requested),
                id_set(requested) == ids.take(i as int).to_set(),
            decreases unit_ids.len() - i,
        {
            let id = &unit_ids[i];
            assert(ids[i as int] == id@);
            let refusal = check_selectable(battle, side, id);
            proof {
                assert(selection_refusal(battle@, side, seq![id@], 0) == selection_refusal(battle@, side, ids, i as int));
            }
            if let Some(e) = refusal {
                proof {
                    lemma_selection_is_first(battle@, side, ids, i as int + 1, ids.len() as int);
                }
                return Err(e);
            }
            id_set_insert(&mut requested, id);
            proof {
                crate::idset::lemma_take_to_set(ids, i as int);
            }
            i += 1;
        }
        proof {
            assert(ids.take(ids.len() as int) =~= ids);
        }
        Ok(requested)
    }

    fn settle_preview(&mut self)
        requires
            stored_sorted(old(self).selected_units),
        ensures
            final(self)@ == old(self)@.with_selection(old(self)@.selected),
            final(self).selected_units == old(self).selected_units,
            final(self).control_groups == old(self).control_groups,
    {
        if self.selected_units.len() == 0 {
            self.order_preview = false;
            assert(text_views(self.selected_units@) =~= Seq::empty());
            assert(id_set(self.selected_units) =~= Set::empty());
        } else {
            assert(id_set(self.selected_units).contains(text_views(self.selected_units@)[0]));
        }
    }

    /// Changes the selection; see `spec_select`. A refused request changes
    /// nothing.
    pub fn select_units(&mut self, battle: &TacticalBattle, unit_ids: &Vec<String>, mode: SelectionMode) -> (result:
        Result<(), TacticalControlError>)
        requires
            old(self).wf(),
            battle@.wf(),
        ensures
            final(self).wf(),
            final(self)@ == old(self)@.spec_select(battle@, text_views(unit_ids@), mode).0,
            control_result(result) == old(self)@.spec_select(battle@, text_views(unit_ids@), mode).1,
    {
        let requested = match self.validate_selection(battle, unit_ids) {
            Ok(requested) => requested,
            Err(e) => return Err(e),
        };
        let ghost before = self@;
        let ghost wanted = text_views(unit_ids@).to_set();
        match mode {
            SelectionMode::Replace => {
                self.selected_units = requested;
            },
            SelectionMode::Add => {
                let mut k: usize = 0;
                while k < requested.len()
                    invariant
                        k <= requested.len(),
                        stored_sorted(self.selected_units),
                        id_set(self.selected_units) == before.selected.union(text_views(requested@).take(k as int).to_set()),
                        self.control_groups == old(self).control_groups,
                        self.player_side == old(self).player_side,
                        self.order_preview == old(self).order_preview,
                        before == old(self)@,
                    decreases requested.len() - k,
                {
                    id_set_insert(&mut self.selected_units, &requested[k]);
                    proof {
                        let r = text_views(requested@);
                        crate::idset::lemma_take_to_set(r, k as int);
                        assert(id_set(self.selected_units) =~= before.selected.union(r.take(k as int + 1).to_set()));
                    }
                    k += 1;
                }
                assert(text_views(requested@).take(requested.len() as int) =~= text_views(requested@));
            },
            SelectionMode::Toggle => {
                let mut k: usize = 0;
                while k < requested.len()
                    invariant
                        k <= requested.len(),
                        stored_sorted(requested),
                        stored_sorted(self.selected_units),
                        ({
                            let p = text_views(requested@).take(k as int).to_set();
                            id_set(self.selected_units) == before.selected.difference(p).union(
                                p.difference(before.selected),
                            )
                        }),
                        self.control_groups == old(self).control_groups,
                        self.player_side == old(self).player_side,
                        self.order_preview == old(self).order_preview,
                        before == old(self)@,
                    decreases requested.len() - k,
                {
                    let ghost r = text_views(requested@);
                    let ghost p = r.take(k as int).to_set();
                    let ghost x = r[k as int];
                    proof {
                        assert(!p.contains(x)) by {
                            if p.contains(x) {
                                let j = choose|j: int| 0 <= j < r.take(k as int).len() && r.take(k as int)[j] == x;
                                assert(r[j] == x);
                                assert(crate::text::text_lt(r[j], r[k as int]));
                                crate::text::lemma_text_lt_total(x, x);
                            }
                        }
                        crate::idset::lemma_take_to_set(r, k as int);
                    }
                    if id_set_contains(&self.selected_units, &requested[k]) {
                        id_set_remove(&mut self.selected_units, &requested[k]);
                    } else {
                        id_set_insert(&mut self.selected_units, &requested[k]);
                    }
                    proof {
                        let q = p.insert(x);
                        assert(id_set(self.selected_units) =~= before.selected.difference(q).union(
                            q.difference(before.selected),
                        ));
                    }
                    k += 1;
                }
                assert(text_views(requested@).take(requested.len() as int) =~= text_views(requested@));
            },
        }
        self.settle_preview();
        proof {
            let expected = before.spec_select(battle@, text_views(unit_ids@), mode).0;
            assert(self@.selected =~= expected.selected);
        }
        Ok(())
    }

    /// Deselects everything and ends any order preview.
    pub fn clear_selection(&mut self)
        requires
            old(self).wf(),
        ensures
            final(self).wf(),
            final(self)@ == (ControlsView {
                selected: Set::empty(),
                order_preview: false,
                ..old(self)@
            }),
    {
        self.selected_units = Vec::new();
        self.order_preview = false;
        assert(text_views(self.selected_units@) =~= Seq::empty());
        assert(id_set(self.selected_units) =~= Set::empty());
    }

    /// Stores the current selection as control group `group`.
    pub fn assign_control_group(&mut self, group: u8) -> (result: Result<(), TacticalControlError>)
        requires
            old(self).wf(),
        ensures
            final(self).wf(),
            final(self)@ == old(self)@.spec_assign_group(group).0,
            control_result(result) == old(self)@.spec_assign_group(group).1,
    {
        if group >= CONTROL_GROUP_COUNT {
            return Err(TacticalControlError::InvalidControlGroup(group));
        }
        let ghost before = self@;
        let ghost old_groups = self.control_groups@;
        let copy = crate::campaign::clone_texts(&self.selected_units);
        self.control_groups.set(group as usize, Some(copy));
        proof {
            assert forall|k: int| 0 <= k < self.control_groups.len() && k != group implies self.control_groups@[k] == old_groups[k] by {}
            assert(self@.groups =~= before.spec_assign_group(group).0.groups);
        }
        Ok(())
    }

    /// Recalls control group `group` into the selection; see
    /// `spec_recall_group`.
    pub fn recall_control_group(&mut self, battle: &TacticalBattle, group: u8, additive: bool) -> (result:
        Result<(), TacticalControlError>)
        requires
            old(self).wf(),
        ensures
            final(self).wf(),
            final(self)@ == old(self)@.spec_recall_group(battle@, group, additive).0,
            control_result(result) == old(self)@.spec_recall_group(battle@, group, additive).1,
    {
        if group >= CONTROL_GROUP_COUNT {
            return Err(TacticalControlError::InvalidControlGroup(group));
        }
        let ghost before = self@;
        let ghost old_groups = self.control_groups@;
        let stored: Vec<String> = match &self.control_groups[group as usize] {
            Some(ids) => crate::campaign::clone_texts(ids),
            None => Vec::new(),
        };
        assert(group_sorted(old_groups[group as int]));
        proof {
            if self.control_groups@[group as int] is None {
                assert(text_views(stored@) =~= Seq::empty());
                assert(id_set(stored) =~= Set::empty());
            }
        }
        let recalled = retain_controllable(&stored, battle, self.player_side);
        let kept = crate::campaign::clone_texts(&recalled);
        self.control_groups.set(group as usize, Some(kept));
        if additive {
            let mut k: usize = 0;
            while k < recalled.len()
                invariant
                    k <= recalled.len(),
                    stored_sorted(self.selected_units),
                    id_set(self.selected_units) == before.selected.union(text_views(recalled@).take(k as int).to_set()),
                    self.control_groups@ == old_groups.update(group as int, Some(kept)),
                    self.player_side == old(self).player_side,
                    self.order_preview == old(self).order_preview,
                    before == old(self)@,
                decreases recalled.len() - k,
            {
                id_set_insert(&mut self.selected_units, &recalled[k]);
                proof {
                    let r = text_views(recalled@);
                    crate::idset::lemma_take_to_set(r, k as int);
                    assert(id_set(self.selected_units) =~= before.selected.union(r.take(k as int + 1).to_set()));
                }
                k += 1;
            }
            assert(text_views(recalled@).take(recalled.len() as int) =~= text_views(recalled@));
        } else {
            self.selected_units = recalled;
        }
        self.settle_preview();
        proof {
            let expected = before.spec_recall_group(battle@, group, additive).0;
            assert forall|k: int| 0 <= k < self.control_groups.len() && k != group implies self.control_groups@[k] == old_groups[k] by {}
            assert(self@.groups =~= expected.groups);
            assert(self@.selected =~= expected.selected);
        }
        Ok(())
    }

    /// Starts or ends an order preview; there is none without a selection.
    pub fn set_order_preview(&mut self, active: bool)
        requires
            old(self).wf(),
        ensures
            final(self).wf(),
            final(self)@ == (ControlsView {
                order_preview: active && !old(self)@.selected.is_empty(),
                ..old(self)@
            }),
    {
        if self.selected_units.len() == 0 {
            assert(text_views(self.selected_units@) =~= Seq::empty());
            assert(id_set(self.selected_units) =~= Set::empty());
        } else {
            assert(id_set(self.selected_units).contains(text_views(self.selected_units@)[0]));
        }
        self.order_preview = active && self.selected_units.len() != 0;
    }
}


// ---------------------------------------------------------------------------
// Orders to the selection
// ---------------------------------------------------------------------------

/// Move orders to `destination` for each listed unit in turn; the first
/// refusal stops the sequence.
pub open spec fn spec_move_all(battle: BattleView, ids: Seq<Seq<char>>, destination: BattlePoint) -> (
    BattleView,
    Result<(), TacticalErrorView>,
)
    decreases ids.len(),
{
    if ids.len() == 0 {
        (battle, Ok(()))
    } else {
        let (before, result) = spec_move_all(battle, ids.drop_last(), destination);
        if result is Err {
            (before, result)
        } else {
            before.spec_move_order(ids.last(), destination)
        }
    }
}

/// Engagement orders against `target` for each listed unit in turn.
pub open spec fn spec_engage_all(battle: BattleView, ids: Seq<Seq<char>>, target: Seq<char>) -> (
    BattleView,
    Result<(), TacticalErrorView>,
)
    decreases ids.len(),
{
    if ids.len() == 0 {
        (battle, Ok(()))
    } else {
        let (before, result) = spec_engage_all(battle, ids.drop_last(), target);
        if result is Err {
            (before, result)
        } else {
            before.spec_engagement_order(ids.last(), target)
        }
    }
}

/// Orders each listed unit to hold where it stands.
pub open spec fn spec_stop_all(battle: BattleView, ids: Seq<Seq<char>>) -> (
    BattleView,
    Result<(), TacticalErrorView>,
)
    decreases ids.len(),
{
    if ids.len() == 0 {
        (battle, Ok(()))
    } else {
        let (before, result) = spec_stop_all(battle, ids.drop_last());
        if result is Err {
            (before, result)
        } else {
            before.spec_move_order(
                ids.last(),
                before.units[unit_at(before.units, ids.last())].position,
            )
        }
    }
}

pub open spec fn rejected(result: Result<(), TacticalErrorView>) -> Result<(), ControlErrorView> {
    match result {
        Ok(()) => Ok(()),
        Err(e) => Err(ControlErrorView::RuleRejected(e.message())),
    }
}

impl ControlsView {
    /// Applies a batch of orders to the synchronised selection: nothing
    /// happens to the battle unless every order is accepted.
    pub open spec fn spec_order_selected(
        self,
        battle: BattleView,
        outcome: spec_fn(Seq<Seq<char>>) -> (BattleView, Result<(), TacticalErrorView>),
    ) -> (ControlsView, BattleView, Result<(), ControlErrorView>) {
        let synced = self.spec_sync(battle);
        if synced.selected.is_empty() {
            (synced, battle, Err(ControlErrorView::NoUnitsSelected))
        } else {
            let (next, result) = outcome(sorted_of(synced.selected));
            if result is Err {
                (synced, battle, rejected(result))
            } else {
                (ControlsView { order_preview: false, ..synced }, next, Ok(()))
            }
        }
    }

    pub open spec fn spec_move_selected(self, battle: BattleView, destination: BattlePoint) -> (
        ControlsView,
        BattleView,
        Result<(), ControlErrorView>,
    ) {
        self.spec_order_selected(battle, |ids: Seq<Seq<char>>| spec_move_all(battle, ids, destination))
    }

    pub open spec fn spec_engage_selected(self, battle: BattleView, target: Seq<char>) -> (
        ControlsView,
        BattleView,
        Result<(), ControlErrorView>,
    ) {
        self.spec_order_selected(battle, |ids: Seq<Seq<char>>| spec_engage_all(battle, ids, target))
    }

    pub open spec fn spec_stop_selected(self, battle: BattleView) -> (
        ControlsView,
        BattleView,
        Result<(), ControlErrorView>,
    ) {
        self.spec_order_selected(battle, |ids: Seq<Seq<char>>| spec_stop_all(battle, ids))
    }
}

/// The same units, with the same ids, in the same places of storage.
pub open spec fn same_ids(a: BattleView, b: BattleView) -> bool {
    &&& a.units.len() == b.units.len()
    &&& forall|i: int| 0 <= i < a.units.len() ==> (#[trigger] a.units[i]).id == b.units[i].id
}

proof fn lemma_move_all_stable(battle: BattleView, ids: Seq<Seq<char>>, destination: BattlePoint, k: int, n: int)
    requires
        0 <= k <= n <= ids.len(),
        spec_move_all(battle, ids.take(k), destination).1 is Err,
    ensures
        spec_move_all(battle, ids.take(n), destination).1 == spec_move_all(battle, ids.take(k), destination).1,
    decreases n - k,
{
    if k < n {
        lemma_move_all_stable(battle, ids, destination, k, n - 1);
        assert(ids.take(n).drop_last() =~= ids.take(n - 1));
    }
}

proof fn lemma_engage_all_stable(battle: BattleView, ids: Seq<Seq<char>>, target: Seq<char>, k: int, n: int)
    requires
        0 <= k <= n <= ids.len(),
        spec_engage_all(battle, ids.take(k), target).1 is Err,
    ensures
        spec_engage_all(battle, ids.take(n), target).1 == spec_engage_all(battle, ids.take(k), target).1,
    decreases n - k,
{
    if k < n {
        lemma_engage_all_stable(battle, ids, target, k, n - 1);
        assert(ids.take(n).drop_last() =~= ids.take(n - 1));
    }
}

proof fn lemma_stop_all_stable(battle: BattleView, ids: Seq<Seq<char>>, k: int, n: int)
    requires
        0 <= k <= n <= ids.len(),
        spec_stop_all(battle, ids.take(k)).1 is Err,
    ensures
        spec_stop_all(battle, ids.take(n)).1 == spec_stop_all(battle, ids.take(k)).1,
    decreases n - k,
{
    if k < n {
        lemma_stop_all_stable(battle, ids, k, n - 1);
        assert(ids.take(n).drop_last() =~= ids.take(n - 1));
    }
}

/// The position of the unit with id `id`, which must exist.
fn position_of_unit(battle: &TacticalBattle, id: &String) -> (position: Option<BattlePoint>)
    requires
        battle@.wf(),
    ensures
        match position {
            Some(p) => has_unit(battle@.units, id@) && p == battle@.units[unit_at(battle@.units, id@)].position,
            None => !has_unit(battle@.units, id@),
        },
{
    let units = battle.units();
    let ghost views = battle@.units;
    proof {
        lemma_sorted_distinct(views);
    }
    let mut i: usize = 0;
    while i < units.len()
        invariant
            i <= units.len(),
            views == unit_views(units@),
            views.len() == units@.len(),
            views == battle@.units,
            crate::tactical::distinct_ids(views),
            forall|k: int| 0 <= k < i ==> (#[trigger] views[k]).id != id@,
        decreases units.len() - i,
    {
        let unit = &units[i];
        assert(unit@ == views[i as int]);
        if unit.has_id(id) {
            proof {
                lemma_unit_at(views, id@, i as int);
            }
            return Some(unit.position());
        }
        i += 1;
    }
    None
}

impl TacticalControls {
    /// Synchronises with the battle and checks that something is selected.
    fn prepare_orders(&mut self, battle: &TacticalBattle) -> (ready: Result<(), TacticalControlError>)
        requires
            old(self).wf(),
        ensures
            final(self).wf(),
            final(self)@ == old(self)@.spec_sync(battle@),
            ready is Ok <==> !final(self)@.selected.is_empty(),
            ready matches Err(e) ==> e@ == ControlErrorView::NoUnitsSelected,
            ready is Ok ==> text_views(final(self).selected_units@) == sorted_of(final(self)@.selected),
    {
        self.sync_with_battle(battle);
        if self.selected_units.len() == 0 {
            assert(text_views(self.selected_units@) =~= Seq::empty());
            assert(id_set(self.selected_units) =~= Set::empty());
            return Err(TacticalControlError::NoUnitsSelected);
        }
        assert(id_set(self.selected_units).contains(text_views(self.selected_units@)[0]));
        proof {
            lemma_sorted_of(text_views(self.selected_units@));
        }
        Ok(())
    }

    /// Orders every selected unit to `destination`, all or none; see
    /// `spec_move_selected`.
    pub fn move_selected(&mut self, battle: &mut TacticalBattle, destination: BattlePoint) -> (result:
        Result<(), TacticalControlError>)
        requires
            old(self).wf(),
            old(battle)@.wf(),
        ensures
            final(self).wf(),
            final(battle)@.wf(),
            final(self)@ == old(self)@.spec_move_selected(old(battle)@, destination).0,
            final(battle)@ == old(self)@.spec_move_selected(old(battle)@, destination).1,
            control_result(result) == old(self)@.spec_move_selected(old(battle)@, destination).2,
    {
        if let Err(e) = self.prepare_orders(battle) {
            return Err(e);
        }
        let ghost start = battle@;
        let ghost ids = text_views(self.selected_units@);
        let mut next = battle.clone();
        let mut k: usize = 0;
        while k < self.selected_units.len()
            invariant
                k <= self.selected_units.len(),
                ids == text_views(self.selected_units@),
                ids.len() == self.selected_units.len(),
                start == battle@,
                start == old(battle)@,
                start.wf(),
                self.wf(),
                self@ == old(self)@.spec_sync(start),
                !self@.selected.is_empty(),
                ids == sorted_of(self@.selected),
                next@.wf(),
                spec_move_all(start, ids.take(k as int), destination) == (next@, Ok::<(), TacticalErrorView>(())),
            decreases self.selected_units.len() - k,
        {
            let order = MovementOrder { unit_id: self.selected_units[k].clone(), destination };
            let result = next.issue_move_order(order);
            proof {
                assert(ids.take(k as int + 1).drop_last() =~= ids.take(k as int));
                assert(ids.take(k as int + 1).last() == ids[k as int]);
            }
            if let Err(e) = result {
                proof {
                    lemma_move_all_stable(start, ids, destination, k as int + 1, ids.len() as int);
                    assert(ids.take(ids.len() as int) =~= ids);
                }
                return Err(TacticalControlError::RuleRejected(e.message()));
            }
            k += 1;
        }
        proof {
            assert(ids.take(ids.len() as int) =~= ids);
        }
        *battle = next;
        self.order_preview = false;
        Ok(())
    }

    /// Orders every selected unit to engage `target_unit_id`, all or none.
    pub fn engage_selected(&mut self, battle: &mut TacticalBattle, target_unit_id: &str) -> (result:
        Result<(), TacticalControlError>)
        requires
            old(self).wf(),
            old(battle)@.wf(),
        ensures
            final(self).wf(),
            final(battle)@.wf(),
            final(self)@ == old(self)@.spec_engage_selected(old(battle)@, target_unit_id@).0,
            final(battle)@ == old(self)@.spec_engage_selected(old(battle)@, target_unit_id@).1,
            control_result(result) == old(self)@.spec_engage_selected(old(battle)@, target_unit_id@).2,
    {
        if let Err(e) = self.prepare_orders(battle) {
            return Err(e);
        }
        let ghost start = battle@;
        let ghost ids = text_views(self.selected_units@);
        let mut next = battle.clone();
        let mut k: usize = 0;
        while k < self.selected_units.len()
            invariant
                k <= self.selected_units.len(),
                ids == text_views(self.selected_units@),
                ids.len() == self.selected_units.len(),
                start == battle@,
                start == old(battle)@,
                start.wf(),
                self.wf(),
                self@ == old(self)@.spec_sync(start),
                !self@.selected.is_empty(),
                ids == sorted_of(self@.selected),
                next@.wf(),
                spec_engage_all(start, ids.take(k as int), target_unit_id@) == (next@, Ok::<(), TacticalErrorView>(())),
            decreases self.selected_units.len() - k,
        {
            let result = next.issue_engagement_order(self.selected_units[k].as_str(), target_unit_id);
            proof {
                assert(ids.take(k as int + 1).drop_last() =~= ids.take(k as int));
                assert(ids.take(k as int + 1).last() == ids[k as int]);
            }
            if let Err(e) = result {
                proof {
                    lemma_engage_all_stable(start, ids, target_unit_id@, k as int + 1, ids.len() as int);
                    assert(ids.take(ids.len() as int) =~= ids);
                }
                return Err(TacticalControlError::RuleRejected(e.message()));
            }
            k += 1;
        }
        proof {
            assert(ids.take(ids.len() as int) =~= ids);
        }
        *battle = next;
        self.order_preview = false;
        Ok(())
    }

    /// Orders every selected unit to hold where it stands, all or none.
    pub fn stop_selected(&mut self, battle: &mut TacticalBattle) -> (result: Result<
        (),
        TacticalControlError,
    >)
        requires
            old(self).wf(),
            old(battle)@.wf(),
        ensures
            final(self).wf(),
            final(battle)@.wf(),
            final(self)@ == old(self)@.spec_stop_selected(old(battle)@).0,
            final(battle)@ == old(self)@.spec_stop_selected(old(battle)@).1,
            control_result(result) == old(self)@.spec_stop_selected(old(battle)@).2,
    {
        if let Err(e) = self.prepare_orders(battle) {
            return Err(e);
        }
        let ghost start = battle@;
        let ghost ids = text_views(self.selected_units@);
        let mut next = battle.clone();
        let mut k: usize = 0;
        while k < self.selected_units.len()
            invariant
                k <= self.selected_units.len(),
                ids == text_views(self.selected_units@),
                ids.len() == self.selected_units.len(),
                start == battle@,
                start == old(battle)@,
                start.wf(),
                self.wf(),
                self@ == old(self)@.spec_sync(start),
                !self@.selected.is_empty(),
                ids == sorted_of(self@.selected),
                next@.wf(),
                same_ids(next@, start),
                id_set(self.selected_units) == ids.to_set(),
                forall|x: Seq<char>| #[trigger] ids.to_set().contains(x) ==> controllable(start, self@.player_side, x),
                spec_stop_all(start, ids.take(k as int)) == (next@, Ok::<(), TacticalErrorView>(())),
            decreases self.selected_units.len() - k,
        {
            let id = &self.selected_units[k];
            assert(ids[k as int] == id@);
            proof {
                assert(ids.to_set().contains(id@));
                let i = choose|i: int|
                    0 <= i < start.units.len() && (#[trigger] start.units[i]).id == id@ && start.units[i].side
                        == self@.player_side && start.units[i].state != TacticalUnitState::Destroyed;
                assert(next@.units[i].id == id@);
                assert(has_unit(next@.units, id@));
            }
            let position = match position_of_unit(&next, id) {
                Some(position) => position,
                None => return Err(TacticalControlError::UnknownUnit(id.clone())),
            };
            let ghost before = next@;
            let result = next.issue_move_order(MovementOrder { unit_id: id.clone(), destination: position });
            proof {
                assert(ids.take(k as int + 1).drop_last() =~= ids.take(k as int));
                assert(ids.take(k as int + 1).last() == ids[k as int]);
            }
            if let Err(e) = result {
                proof {
                    lemma_stop_all_stable(start, ids, k as int + 1, ids.len() as int);
                    assert(ids.take(ids.len() as int) =~= ids);
                }
                return Err(TacticalControlError::RuleRejected(e.message()));
            }
            proof {
                assert forall|i: int| 0 <= i < next@.units.len() implies (#[trigger] next@.units[i]).id == start.units[i].id by {
                    assert(next@.units[i].id == before.units[i].id);
                }
            }
            k += 1;
        }
        proof {
            assert(ids.take(ids.len() as int) =~= ids);
        }
        *battle = next;
        self.order_preview = false;
        Ok(())
    }
}


// ---------------------------------------------------------------------------
// Laws
// ---------------------------------------------------------------------------

/// A refused selection leaves the controls unchanged; an accepted one holds
/// only units the player commands when it replaces the selection; after a
/// synchronisation or a recall every selected unit is commandable.
pub proof fn selections_hold_commandable_units(
    controls: ControlsView,
    battle: BattleView,
    ids: Seq<Seq<char>>,
    mode: SelectionMode,
    group: u8,
    additive: bool,
)
    ensures
        controls.spec_select(battle, ids, mode).1 is Err ==> controls.spec_select(battle, ids, mode).0
            == controls,
        controls.spec_select(battle, ids, SelectionMode::Replace).1 is Ok ==> forall|id: Seq<char>|
            #[trigger] controls.spec_select(battle, ids, SelectionMode::Replace).0.selected.contains(id)
                ==> controllable(battle, controls.player_side, id),
        forall|id: Seq<char>|
            #[trigger] controls.spec_sync(battle).selected.contains(id) ==> controllable(
                battle,
                controls.player_side,
                id,
            ),
        !additive && controls.spec_recall_group(battle, group, additive).1 is Ok ==> forall|id: Seq<char>|
            #[trigger] controls.spec_recall_group(battle, group, additive).0.selected.contains(id)
                ==> controllable(battle, controls.player_side, id),
{
    if controls.spec_select(battle, ids, SelectionMode::Replace).1 is Ok {
        assert forall|id: Seq<char>|
            #[trigger] controls.spec_select(battle, ids, SelectionMode::Replace).0.selected.contains(id)
            implies controllable(battle, controls.player_side, id) by {
            let i = choose|i: int| 0 <= i < ids.len() && ids[i] == id;
            lemma_no_refusal(battle, controls.player_side, ids, ids.len() as int, i);
            let k = unit_at(battle.units, id);
            assert(battle.units[k].id == id);
        }
    }
}

proof fn lemma_no_refusal(battle: BattleView, side: BattleSide, ids: Seq<Seq<char>>, n: int, i: int)
    requires
        first_refusal(battle, side, ids, n) is None,
        0 <= i < n,
    ensures
        selection_refusal(battle, side, ids, i) is None,
    decreases n,
{
    if i < n - 1 {
        lemma_no_refusal(battle, side, ids, n - 1, i);
    }
}

/// Selecting units: a request is refused exactly when it names a unit that
/// does not exist or that the player does not command (a standing unit of
/// the player's side), and a refused request changes nothing. Once accepted,
/// replacing selects exactly the listed units, adding selects the listed
/// units besides those already selected, and toggling flips each listed
/// unit's selection and keeps the rest.
pub proof fn selection_modes_combine_as_named(
    controls: ControlsView,
    battle: BattleView,
    ids: Seq<Seq<char>>,
    mode: SelectionMode,
)
    requires
        battle.wf(),
    ensures
        controls.spec_select(battle, ids, mode).1 is Ok <==> forall|i: int|
            0 <= i < ids.len() ==> controllable(battle, controls.player_side, #[trigger] ids[i]),
        controls.spec_select(battle, ids, mode).1 is Err ==> controls.spec_select(battle, ids, mode).0
            == controls,
        controls.spec_select(battle, ids, mode).1 is Ok ==> forall|id: Seq<char>|
            #[trigger] controls.spec_select(battle, ids, mode).0.selected.contains(id) == match mode {
                SelectionMode::Replace => ids.contains(id),
                SelectionMode::Add => controls.selected.contains(id) || ids.contains(id),
                SelectionMode::Toggle => controls.selected.contains(id) != ids.contains(id),
            },
        controls.spec_select(battle, ids, mode).1 is Ok ==> {
            let after = controls.spec_select(battle, ids, mode).0;
            &&& after.order_preview == (controls.order_preview && !after.selected.is_empty())
            &&& after.groups == controls.groups
            &&& after.player_side == controls.player_side
        },
        controls.spec_select(battle, ids, mode).1 is Err ==> exists|i: int|
            0 <= i < ids.len() && (forall|j: int|
                0 <= j < i ==> controllable(battle, controls.player_side, #[trigger] ids[j]))
                && !controllable(battle, controls.player_side, #[trigger] ids[i])
                && controls.spec_select(battle, ids, mode).1 == Err::<(), ControlErrorView>(
                if has_unit(battle.units, ids[i]) {
                    ControlErrorView::UncontrollableUnit(ids[i])
                } else {
                    ControlErrorView::UnknownUnit(ids[i])
                },
            ),
{
    let side = controls.player_side;
    let n = ids.len() as int;
    lemma_sorted_distinct(battle.units);
    assert forall|i: int| 0 <= i < n implies (selection_refusal(battle, side, ids, i) is None
        <==> controllable(battle, side, #[trigger] ids[i])) by {
        let id = ids[i];
        if controllable(battle, side, id) {
            let k = choose|k: int|
                0 <= k < battle.units.len() && (#[trigger] battle.units[k]).id == id
                    && battle.units[k].side == side && battle.units[k].state
                    != TacticalUnitState::Destroyed;
            lemma_unit_at(battle.units, id, k);
        } else if has_unit(battle.units, id) {
            let k = unit_at(battle.units, id);
            assert(battle.units[k].id == id);
        }
    }
    if first_refusal(battle, side, ids, n) is None {
        assert forall|i: int| 0 <= i < n implies controllable(battle, side, #[trigger] ids[i]) by {
            lemma_no_refusal(battle, side, ids, n, i);
        }
    } else {
        let i = lemma_first_refusal_is_first(battle, side, ids, n);
        assert forall|j: int| 0 <= j < i implies controllable(battle, side, #[trigger] ids[j]) by {
            assert(selection_refusal(battle, side, ids, j) is None);
        }
        assert(!controllable(battle, side, ids[i]));
        assert(exists|j: int| 0 <= j < ids.len() && (forall|k: int|
            0 <= k < j ==> controllable(battle, side, #[trigger] ids[k])) && !controllable(
            battle,
            side,
            #[trigger] ids[j],
        ) && controls.spec_select(battle, ids, mode).1 == Err::<(), ControlErrorView>(
            if has_unit(battle.units, ids[j]) {
                ControlErrorView::UncontrollableUnit(ids[j])
            } else {
                ControlErrorView::UnknownUnit(ids[j])
            },
        )) by {
            assert(0 <= i < ids.len());
        }
    }
    let requested = ids.to_set();
    assert forall|id: Seq<char>| requested.contains(id) == ids.contains(id) by {}
}

proof fn lemma_first_refusal_is_first(
    battle: BattleView,
    side: BattleSide,
    ids: Seq<Seq<char>>,
    n: int,
) -> (i: int)
    requires
        first_refusal(battle, side, ids, n) is Some,
        n <= ids.len(),
    ensures
        0 <= i < n,
        first_refusal(battle, side, ids, n) == selection_refusal(battle, side, ids, i),
        forall|j: int| 0 <= j < i ==> (#[trigger] selection_refusal(battle, side, ids, j)) is None,
    decreases n,
{
    if first_refusal(battle, side, ids, n - 1) is Some {
        lemma_first_refusal_is_first(battle, side, ids, n - 1)
    } else {
        assert forall|j: int| 0 <= j < n - 1 implies (#[trigger] selection_refusal(
            battle,
            side,
            ids,
            j,
        )) is None by {
            lemma_no_refusal(battle, side, ids, n - 1, j);
        }
        n - 1
    }
}


/// A unit that holds a march order to `destination` given where it stands.
pub open spec fn marching_to(unit: UnitView, destination: BattlePoint) -> bool {
    &&& unit.target is None
    &&& unit.destination == if unit.position != destination {
        Some(destination)
    } else {
        None::<BattlePoint>
    }
}

proof fn lemma_move_all(battle: BattleView, ids: Seq<Seq<char>>, destination: BattlePoint)
    requires
        distinct_ids(battle.units),
    ensures
        ({
            let (after, result) = spec_move_all(battle, ids, destination);
            &&& same_ids(battle, after)
            &&& forall|j: int|
                0 <= j < battle.units.len() && !ids.contains(battle.units[j].id) ==> (
                #[trigger] after.units[j]) == battle.units[j]
            &&& forall|j: int|
                0 <= j < battle.units.len() ==> (#[trigger] after.units[j]).position
                    == battle.units[j].position && after.units[j].id == battle.units[j].id
            &&& result is Ok ==> forall|k: int|
                0 <= k < ids.len() ==> has_unit(after.units, #[trigger] ids[k]) && marching_to(
                    after.units[unit_at(after.units, ids[k])],
                    destination,
                )
        }),
    decreases ids.len(),
{
    if ids.len() > 0 {
        let rest = ids.drop_last();
        lemma_move_all(battle, rest, destination);
        let (before, r0) = spec_move_all(battle, rest, destination);
        assert(distinct_ids(before.units)) by {
            assert forall|a: int, b: int|
                0 <= a < before.units.len() && 0 <= b < before.units.len() && a != b implies (
            #[trigger] before.units[a]).id != (#[trigger] before.units[b]).id by {
                assert(before.units[a].id == battle.units[a].id);
                assert(before.units[b].id == battle.units[b].id);
            }
        }
        assert forall|j: int|
            0 <= j < battle.units.len() && !ids.contains(battle.units[j].id) implies !rest.contains(
            battle.units[j].id,
        ) by {
            if rest.contains(battle.units[j].id) {
                let k = choose|k: int| 0 <= k < rest.len() && rest[k] == battle.units[j].id;
                assert(ids[k] == rest[k]);
            }
        }
        if r0 is Ok {
            let last = ids.last();
            let (after, r) = before.spec_move_order(last, destination);
            if r is Ok {
                let i = unit_at(before.units, last);
                assert(before.units[i].id == last);
                assert forall|j: int|
                    0 <= j < battle.units.len() && !ids.contains(battle.units[j].id) implies (
                #[trigger] after.units[j]) == battle.units[j] by {
                    assert(ids[ids.len() - 1] == last);
                    if j == i {
                        assert(before.units[j].id == battle.units[j].id);
                    }
                }
                assert(distinct_ids(after.units)) by {
                    assert forall|a: int, b: int|
                        0 <= a < after.units.len() && 0 <= b < after.units.len() && a != b implies (
                    #[trigger] after.units[a]).id != (#[trigger] after.units[b]).id by {
                        assert(after.units[a].id == before.units[a].id);
                        assert(after.units[b].id == before.units[b].id);
                    }
                }
                assert forall|k: int| 0 <= k < ids.len() implies has_unit(after.units, #[trigger] ids[k])
                    && marching_to(after.units[unit_at(after.units, ids[k])], destination) by {
                    let id = ids[k];
                    let j = if k < rest.len() {
                        assert(rest[k] == id);
                        unit_at(before.units, id)
                    } else {
                        i
                    };
                    assert(before.units[j].id == id);
                    assert(after.units[j].id == id);
                    lemma_unit_at(after.units, id, j);
                }
            }
        }
    }
}

/// Ordering the selection to march: the selection is first pruned to the
/// units the player still commands. With nothing left it is refused with
/// `NoUnitsSelected` and nothing else; otherwise each pruned unit is ordered
/// in turn, all or nothing. When every order is accepted, every selected
/// unit marches to the destination (or holds, if it stands there) with no
/// engagement, every other unit is untouched, and the order preview ends;
/// when any order is refused, the battle is exactly what it was.
pub proof fn move_selected_prunes_then_orders_all_or_nothing(
    controls: ControlsView,
    battle: BattleView,
    destination: BattlePoint,
)
    requires
        battle.wf(),
        controls.selected.finite(),
    ensures
        ({
            let (after_controls, after_battle, result) = controls.spec_move_selected(
                battle,
                destination,
            );
            let pruned = controls.selected.filter(controllable_in(battle, controls.player_side));
            &&& after_controls.selected == pruned
            &&& (result == Err::<(), ControlErrorView>(ControlErrorView::NoUnitsSelected)
                <==> pruned.is_empty())
            &&& result is Err ==> after_battle == battle
            &&& result is Ok ==> {
                &&& !after_controls.order_preview
                &&& forall|id: Seq<char>|
                    #[trigger] pruned.contains(id) ==> has_unit(after_battle.units, id) && marching_to(
                        after_battle.units[unit_at(after_battle.units, id)],
                        destination,
                    )
                &&& forall|j: int|
                    0 <= j < battle.units.len() && !pruned.contains(battle.units[j].id) ==> (
                    #[trigger] after_battle.units[j]) == battle.units[j]
            }
        }),
{
    lemma_sorted_distinct(battle.units);
    let pruned = controls.selected.filter(controllable_in(battle, controls.player_side));
    let ids = sorted_of(pruned);
    lemma_sorted_of_finite(pruned);
    lemma_move_all(battle, ids, destination);
    assert forall|id: Seq<char>| pruned.contains(id) <==> ids.contains(id) by {
        assert(ids.to_set().contains(id) == pruned.contains(id));
    }
    let (after_controls, after_battle, result) = controls.spec_move_selected(battle, destination);
    if result is Ok {
        assert forall|id: Seq<char>| #[trigger] pruned.contains(id) implies has_unit(
            after_battle.units,
            id,
        ) && marching_to(after_battle.units[unit_at(after_battle.units, id)], destination) by {
            let k = choose|k: int| 0 <= k < ids.len() && ids[k] == id;
        }
    }
}

/// Orders to the selection are all or nothing: when any is refused, the
/// battle is exactly what it was.
pub proof fn selection_orders_are_atomic(
    controls: ControlsView,
    battle: BattleView,
    destination: BattlePoint,
    target: Seq<char>,
)
    ensures
        controls.spec_move_selected(battle, destination).2 is Err ==> controls.spec_move_selected(
            battle,
            destination,
        ).1 == battle,
        controls.spec_engage_selected(battle, target).2 is Err ==> controls.spec_engage_selected(
            battle,
            target,
        ).1 == battle,
        controls.spec_stop_selected(battle).2 is Err ==> controls.spec_stop_selected(battle).1
            == battle,
{
}

/// An order preview needs a selection, whatever the controls do.
pub proof fn preview_needs_a_selection(
    controls: ControlsView,
    battle: BattleView,
    ids: Seq<Seq<char>>,
    mode: SelectionMode,
    group: u8,
    additive: bool,
)
    requires
        controls.order_preview ==> !controls.selected.is_empty(),
    ensures
        controls.spec_sync(battle).order_preview ==> !controls.spec_sync(battle).selected.is_empty(),
        controls.spec_select(battle, ids, mode).0.order_preview ==> !controls.spec_select(
            battle,
            ids,
            mode,
        ).0.selected.is_empty(),
        controls.spec_recall_group(battle, group, additive).0.order_preview ==> !controls.spec_recall_group(
            battle,
            group,
            additive,
        ).0.selected.is_empty(),
        controls.spec_assign_group(group).0.order_preview ==> !controls.spec_assign_group(
            group,
        ).0.selected.is_empty(),
{
}

} // verus!
