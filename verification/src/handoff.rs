use vstd::prelude::*;

use crate::campaign::{
    army_at, army_has_id, army_views, find_army, lemma_first_match_unique, text_views, Army,
    ArmyView, CampaignError, CampaignErrorView, CampaignState, CampaignView, UnitKind,
};
use crate::tactical::sat_add_u64;
use crate::text::{
    lemma_text_le_total_ordering, lemma_text_lt_total, lemma_text_lt_transitive, text_le, text_less,
    text_lt,
};

verus! {

/// The soldiers of one kind that a force brings to a tactical battle.
#[derive(Copy, Clone, Debug, PartialEq, Eq, Structural)]
pub struct TacticalUnitSeed {
    pub kind: UnitKind,
    pub soldiers: u64,
}

/// One side of a tactical battle: its faction, the campaign armies it comes
/// from (in id order) and its soldiers by kind.
#[derive(Debug, PartialEq, Eq)]
pub struct TacticalForceSeed {
    pub faction_id: String,
    pub source_army_ids: Vec<String>,
    pub units: Vec<TacticalUnitSeed>,
}

pub ghost struct ForceSeedView {
    pub faction_id: Seq<char>,
    pub source_army_ids: Seq<Seq<char>>,
    pub units: Seq<TacticalUnitSeed>,
}

impl View for TacticalForceSeed {
    type V = ForceSeedView;

    open spec fn view(&self) -> ForceSeedView {
        ForceSeedView {
            faction_id: self.faction_id@,
            source_army_ids: text_views(self.source_army_ids@),
            units: self.units@,
        }
    }
}

/// The composition of the pending campaign battle, ready for tactical setup.
#[derive(Debug, PartialEq, Eq)]
pub struct TacticalBattleSeed {
    pub turn: u32,
    pub attacker_army_id: String,
    pub from_province: String,
    pub target_province: String,
    pub attacker: TacticalForceSeed,
    pub defender: TacticalForceSeed,
}

pub ghost struct BattleSeedView {
    pub turn: u32,
    pub attacker_army_id: Seq<char>,
    pub from_province: Seq<char>,
    pub target_province: Seq<char>,
    pub attacker: ForceSeedView,
    pub defender: ForceSeedView,
}

impl View for TacticalBattleSeed {
    type V = BattleSeedView;

    open spec fn view(&self) -> BattleSeedView {
        BattleSeedView {
            turn: self.turn,
            attacker_army_id: self.attacker_army_id@,
            from_province: self.from_province@,
            target_province: self.target_province@,
            attacker: self.attacker@,
            defender: self.defender@,
        }
    }
}

// ---------------------------------------------------------------------------
// Sorting ids
// ---------------------------------------------------------------------------

/// Texts in non-decreasing byte order.
pub open spec fn texts_sorted(texts: Seq<Seq<char>>) -> bool {
    forall|a: int, b: int| 0 <= a < b < texts.len() ==> !text_lt(#[trigger] texts[b], #[trigger] texts[a])
}

/// The texts in increasing byte order.
pub open spec fn sorted_texts(texts: Seq<Seq<char>>) -> Seq<Seq<char>> {
    choose|sorted: Seq<Seq<char>>| texts_sorted(sorted) && sorted.to_multiset() == texts.to_multiset()
}

/// Every list of texts has a sorted arrangement, so `sorted_texts` is in
/// byte order and holds exactly the given texts.
pub proof fn lemma_sorted_texts_sorted(texts: Seq<Seq<char>>)
    ensures
        texts_sorted(sorted_texts(texts)),
        sorted_texts(texts).to_multiset() == texts.to_multiset(),
{
    let leq = text_le();
    lemma_text_le_total_ordering();
    texts.lemma_sort_by_ensures(leq);
    let w = texts.sort_by(leq);
    assert(texts_sorted(w)) by {
        assert forall|a: int, b: int| 0 <= a < b < w.len() implies !text_lt(
            #[trigger] w[b],
            #[trigger] w[a],
        ) by {
            assert(leq(w[a], w[b]));
        }
    }
    assert(w.to_multiset() == texts.to_multiset());
}

/// Two sorted sequences with the same texts are the same sequence.
pub proof fn lemma_sorted_texts_unique(a: Seq<Seq<char>>, b: Seq<Seq<char>>)
    requires
        texts_sorted(a),
        texts_sorted(b),
        a.to_multiset() == b.to_multiset(),
    ensures
        a == b,
    decreases a.len(),
{
    broadcast use vstd::seq_lib::group_to_multiset_ensures;

    if a.len() == 0 {
        assert(b.to_multiset().len() == 0);
        assert(b =~= a);
    } else {
        assert(a.contains(a[0]));
        vstd::seq_lib::to_multiset_contains(a, a[0]);
        vstd::seq_lib::to_multiset_contains(b, a[0]);
        let k = choose|k: int| 0 <= k < b.len() && b[k] == a[0];
        assert(b.contains(b[0]));
        vstd::seq_lib::to_multiset_contains(b, b[0]);
        vstd::seq_lib::to_multiset_contains(a, b[0]);
        let m = choose|m: int| 0 <= m < a.len() && a[m] == b[0];
        // b[0] <= b[k] = a[0] <= a[m] = b[0]
        if k > 0 {
            assert(!text_lt(b[k], b[0]));
        }
        if m > 0 {
            assert(!text_lt(a[m], a[0]));
        }
        lemma_text_lt_total(a[0], b[0]);
        assert(a[0] == b[0]);
        assert(a.drop_first() =~= a.remove(0));
        assert(b.drop_first() =~= b.remove(0));
        vstd::seq_lib::to_multiset_remove(a, 0);
        vstd::seq_lib::to_multiset_remove(b, 0);
        assert forall|x: int, y: int| 0 <= x < y < a.drop_first().len() implies !text_lt(
            #[trigger] a.drop_first()[y],
            #[trigger] a.drop_first()[x],
        ) by {
            assert(a.drop_first()[x] == a[x + 1]);
            assert(a.drop_first()[y] == a[y + 1]);
        }
        assert forall|x: int, y: int| 0 <= x < y < b.drop_first().len() implies !text_lt(
            #[trigger] b.drop_first()[y],
            #[trigger] b.drop_first()[x],
        ) by {
            assert(b.drop_first()[x] == b[x + 1]);
            assert(b.drop_first()[y] == b[y + 1]);
        }
        lemma_sorted_texts_unique(a.drop_first(), b.drop_first());
        assert(a =~= seq![a[0]] + a.drop_first());
        assert(b =~= seq![b[0]] + b.drop_first());
    }
}

/// Stable insertion sort of texts in byte order.
fn sort_texts(texts: &mut Vec<String>)
    ensures
        text_views(final(texts)@) == sorted_texts(text_views(old(texts)@)),
{
    broadcast use vstd::seq_lib::group_to_multiset_ensures;

    let ghost initial = text_views(texts@);
    let n = texts.len();
    if n > 0 {
        let mut i: usize = 1;
        while i < n
            invariant
                1 <= i <= n,
                texts.len() == n,
                texts_sorted(text_views(texts@).take(i as int)),
                text_views(texts@).to_multiset() == initial.to_multiset(),
            decreases n - i,
        {
            let ghost before = text_views(texts@);
            let text = texts.remove(i);
            let ghost removed = text_views(texts@);
            proof {
                assert(removed =~= before.remove(i as int));
                assert(text@ == before[i as int]);
            }
            let mut p: usize = 0;
            while p < i && !text_less(&text, &texts[p])
                invariant
                    p <= i,
                    i < n,
                    texts.len() == n - 1,
                    text_views(texts@) == removed,
                    forall|k: int| 0 <= k < p ==> !text_lt(text@, #[trigger] removed[k]),
                decreases i - p,
            {
                p += 1;
            }
            texts.insert(p, text);
            proof {
                let after = text_views(texts@);
                let u = before[i as int];
                assert(after =~= removed.insert(p as int, u));
                vstd::seq_lib::to_multiset_remove(before, i as int);
                vstd::seq_lib::to_multiset_insert(removed, p as int, u);
                assert(before[i as int] == u);
                assert(before.contains(u));
                vstd::seq_lib::to_multiset_contains(before, u);
                assert(after.to_multiset() =~= before.to_multiset());
                if p < i {
                    assert forall|k: int| p <= k < i implies text_lt(u, #[trigger] removed[k]) by {
                        if k > p {
                            assert(removed[p as int] == before[p as int]);
                            assert(removed[k] == before[k]);
                            assert(before.take(i as int)[p as int] == before[p as int]);
                            assert(before.take(i as int)[k] == before[k]);
                            lemma_text_lt_total(before[p as int], before[k]);
                            if before[p as int] != before[k] {
                                lemma_text_lt_transitive(u, before[p as int], before[k]);
                            }
                        }
                    }
                }
                assert forall|a: int, b: int| 0 <= a < b < i + 1 implies !text_lt(
                    #[trigger] after.take(i as int + 1)[b],
                    #[trigger] after.take(i as int + 1)[a],
                ) by {
                    assert(after.take(i as int + 1)[a] == after[a]);
                    assert(after.take(i as int + 1)[b] == after[b]);
                    if a < p && b < p {
                        assert(before.take(i as int)[a] == before[a]);
                        assert(before.take(i as int)[b] == before[b]);
                    } else if a < p && b == p {
                        assert(removed[a] == before[a]);
                    } else if a < p && b > p {
                        assert(after[b] == removed[b - 1]);
                        assert(before.take(i as int)[a] == before[a]);
                        assert(before.take(i as int)[b - 1] == before[b - 1]);
                        assert(removed[a] == before[a]);
                        assert(removed[b - 1] == before[b - 1]);
                    } else if a == p {
                        assert(after[b] == removed[b - 1]);
                        lemma_text_lt_total(u, removed[b - 1]);
                    } else {
                        assert(after[a] == removed[a - 1]);
                        assert(after[b] == removed[b - 1]);
                        assert(before.take(i as int)[a - 1] == before[a - 1]);
                        assert(before.take(i as int)[b - 1] == before[b - 1]);
                        assert(removed[a - 1] == before[a - 1]);
                        assert(removed[b - 1] == before[b - 1]);
                    }
                }
            }
            i += 1;
        }
        proof {
            assert(text_views(texts@).take(n as int) =~= text_views(texts@));
        }
    } else {
        assert(text_views(texts@) =~= initial);
    }
    proof {
        let sorted = text_views(texts@);
        let c = sorted_texts(initial);
        assert(texts_sorted(sorted) && sorted.to_multiset() == initial.to_multiset());
        assert(texts_sorted(c) && c.to_multiset() == initial.to_multiset());
        lemma_sorted_texts_unique(c, sorted);
    }
}

// ---------------------------------------------------------------------------
// Force composition
// ---------------------------------------------------------------------------

pub open spec fn army_id_of() -> spec_fn(ArmyView) -> Seq<char> {
    |a: ArmyView| a.id
}

pub open spec fn soldiers_of(army: ArmyView, kind: UnitKind) -> u16 {
    match kind {
        UnitKind::Levy => army.levy,
        UnitKind::Spearmen => army.spearmen,
        UnitKind::Archers => army.archers,
        UnitKind::Knights => army.knights,
    }
}

/// The soldiers of `kind` over the first `k` armies, saturating.
pub open spec fn total_of(armies: Seq<ArmyView>, kind: UnitKind, k: int) -> u64
    decreases k,
{
    if k <= 0 {
        0
    } else {
        sat_add_u64(total_of(armies, kind, k - 1), soldiers_of(armies[k - 1], kind) as u64)
    }
}

pub open spec fn seed_if(kind: UnitKind, soldiers: u64) -> Seq<TacticalUnitSeed> {
    if soldiers > 0 {
        seq![TacticalUnitSeed { kind, soldiers }]
    } else {
        Seq::empty()
    }
}

/// A force of `faction` made of `armies`: their ids in byte order and, in
/// the fixed kind order, every kind they field.
pub open spec fn spec_force_seed(faction: Seq<char>, armies: Seq<ArmyView>) -> ForceSeedView {
    let n = armies.len() as int;
    ForceSeedView {
        faction_id: faction,
        source_army_ids: sorted_texts(armies.map_values(army_id_of())),
        units: seed_if(UnitKind::Levy, total_of(armies, UnitKind::Levy, n)) + seed_if(
            UnitKind::Spearmen,
            total_of(armies, UnitKind::Spearmen, n),
        ) + seed_if(UnitKind::Archers, total_of(armies, UnitKind::Archers, n)) + seed_if(
            UnitKind::Knights,
            total_of(armies, UnitKind::Knights, n),
        ),
    }
}

fn add_saturating(a: u64, b: u16) -> (sum: u64)
    ensures
        sum == sat_add_u64(a, b as u64),
{
    match a.checked_add(b as u64) {
        Some(sum) => sum,
        None => 0xffff_ffff_ffff_ffff,
    }
}

fn push_seed(units: &mut Vec<TacticalUnitSeed>, kind: UnitKind, soldiers: u64)
    ensures
        final(units)@ == old(units)@ + seed_if(kind, soldiers),
{
    if soldiers > 0 {
        units.push(TacticalUnitSeed { kind, soldiers });
        assert(final(units)@ =~= old(units)@ + seed_if(kind, soldiers));
    } else {
        assert(units@ =~= units@ + seed_if(kind, soldiers));
    }
}

fn force_seed(faction_id: &String, armies: &Vec<Army>) -> (seed: TacticalForceSeed)
    ensures
        seed@ == spec_force_seed(faction_id@, army_views(armies@)),
{
    let ghost views = army_views(armies@);
    let mut source_army_ids: Vec<String> = Vec::new();
    let mut levy: u64 = 0;
    let mut spearmen: u64 = 0;
    let mut archers: u64 = 0;
    let mut knights: u64 = 0;
    let mut i: usize = 0;
    while i < armies.len()
        invariant
            i <= armies.len(),
            views == army_views(armies@),
            views.len() == armies.len(),
            source_army_ids.len() == i,
            text_views(source_army_ids@) == views.take(i as int).map_values(army_id_of()),
            levy == total_of(views, UnitKind::Levy, i as int),
            spearmen == total_of(views, UnitKind::Spearmen, i as int),
            archers == total_of(views, UnitKind::Archers, i as int),
            knights == total_of(views, UnitKind::Knights, i as int),
        decreases armies.len() - i,
    {
        let army = &armies[i];
        assert(army@ == views[i as int]);
        let ghost old_ids = source_army_ids@;
        source_army_ids.push(army.id.clone());
        assert(source_army_ids@ == old_ids.push(source_army_ids@[i as int]));
        levy = add_saturating(levy, army.levy);
        spearmen = add_saturating(spearmen, army.spearmen);
        archers = add_saturating(archers, army.archers);
        knights = add_saturating(knights, army.knights);
        proof {
            assert(views.take(i as int + 1) =~= views.take(i as int).push(views[i as int]));
            assert(text_views(source_army_ids@) =~= text_views(old_ids).push(views[i as int].id));
            assert(views.take(i as int + 1).map_values(army_id_of()) =~= views.take(i as int).map_values(
                army_id_of(),
            ).push(views[i as int].id));
            assert(text_views(source_army_ids@) =~= views.take(i as int + 1).map_values(
                army_id_of(),
            ));
        }
        i += 1;
    }
    proof {
        assert(views.take(views.len() as int) =~= views);
    }
    sort_texts(&mut source_army_ids);
    let mut units: Vec<TacticalUnitSeed> = Vec::new();
    push_seed(&mut units, UnitKind::Levy, levy);
    push_seed(&mut units, UnitKind::Spearmen, spearmen);
    push_seed(&mut units, UnitKind::Archers, archers);
    push_seed(&mut units, UnitKind::Knights, knights);
    assert(units@ =~= Seq::<TacticalUnitSeed>::empty() + seed_if(UnitKind::Levy, levy) + seed_if(
        UnitKind::Spearmen,
        spearmen,
    ) + seed_if(UnitKind::Archers, archers) + seed_if(UnitKind::Knights, knights));
    TacticalForceSeed { faction_id: faction_id.clone(), source_army_ids, units }
}

fn armies_at(armies: &Vec<Army>, owner: &String, province: &String) -> (selected: Vec<Army>)
    ensures
        army_views(selected@) == army_views(armies@).filter(army_at(owner@, province@)),
{
    let ghost views = army_views(armies@);
    let mut selected: Vec<Army> = Vec::new();
    let mut i: usize = 0;
    while i < armies.len()
        invariant
            i <= armies.len(),
            views == army_views(armies@),
            army_views(selected@) == views.take(i as int).filter(army_at(owner@, province@)),
        decreases armies.len() - i,
    {
        proof {
            reveal(Seq::filter);
            assert(views.take(i + 1).drop_last() =~= views.take(i as int));
        }
        if armies[i].owner == *owner && armies[i].province == *province {
            selected.push(armies[i].clone());
            proof {
                assert(army_views(selected@) =~= army_views(selected@).drop_last().push(
                    armies@[i as int]@,
                ));
            }
        }
        i += 1;
    }
    assert(views.take(views.len() as int) =~= views);
    selected
}

// ---------------------------------------------------------------------------
// The seed
// ---------------------------------------------------------------------------

impl CampaignView {
    /// The tactical composition of the pending battle: the attacking army
    /// alone against every army of the defender in the target province.
    pub open spec fn spec_battle_seed(self) -> Result<BattleSeedView, CampaignErrorView> {
        match self.pending_battle {
            None => Err(CampaignErrorView::NoPendingBattle),
            Some(pending) => if !self.has_army(pending.attacker_army_id) {
                Err(CampaignErrorView::ArmyNotFound(pending.attacker_army_id))
            } else {
                Ok(
                    BattleSeedView {
                        turn: self.turn,
                        attacker_army_id: pending.attacker_army_id,
                        from_province: pending.from_province,
                        target_province: pending.target_province,
                        attacker: spec_force_seed(
                            pending.attacker_faction,
                            seq![self.armies[self.army_index(pending.attacker_army_id)]],
                        ),
                        defender: spec_force_seed(
                            pending.defender_faction,
                            self.armies.filter(
                                army_at(pending.defender_faction, pending.target_province),
                            ),
                        ),
                    },
                )
            },
        }
    }
}

pub open spec fn seed_result(r: Result<TacticalBattleSeed, CampaignError>) -> Result<
    BattleSeedView,
    CampaignErrorView,
> {
    match r {
        Ok(seed) => Ok(seed@),
        Err(e) => Err(e@),
    }
}

impl CampaignState {
    /// Projects the pending campaign battle into a deterministic tactical
    /// composition seed.
    pub fn pending_tactical_battle_seed(&self) -> (seed: Result<TacticalBattleSeed, CampaignError>)
        ensures
            seed_result(seed) == self@.spec_battle_seed(),
    {
        let pending = match &self.pending_battle {
            Some(pending) => pending,
            None => return Err(CampaignError::NoPendingBattle),
        };
        let a = match find_army(&self.armies, &pending.attacker_army_id) {
            Some(a) => a,
            None => return Err(CampaignError::ArmyNotFound(pending.attacker_army_id.clone())),
        };
        proof {
            lemma_first_match_unique(self@.armies, army_has_id(pending.attacker_army_id@), a as int);
        }
        let mut attacking: Vec<Army> = Vec::new();
        attacking.push(self.armies[a].clone());
        assert(army_views(attacking@) =~= seq![self@.armies[a as int]]);
        let attacker = force_seed(&pending.attacker_faction, &attacking);
        let defending = armies_at(&self.armies, &pending.defender_faction, &pending.target_province);
        let defender = force_seed(&pending.defender_faction, &defending);
        Ok(
            TacticalBattleSeed {
                turn: self.turn,
                attacker_army_id: pending.attacker_army_id.clone(),
                from_province: pending.from_province.clone(),
                target_province: pending.target_province.clone(),
                attacker,
                defender,
            },
        )
    }
}

} // verus!
