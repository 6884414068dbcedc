use vstd::prelude::*;

use crate::campaign::{
    army_at, army_has_id, exists_match, first_match, lemma_exists_has_first, ArmyView,
    CampaignView, UnitKind,
};
use crate::handoff::{
    army_id_of, lemma_sorted_texts_sorted, seed_if, soldiers_of, sorted_texts, spec_force_seed,
    texts_sorted, total_of, ForceSeedView,
};

verus! {

/// Splits a non-empty sequence's last element out of a second sequence
/// with the same elements: both remainders again have the same elements.
proof fn lemma_permutation_step<A>(a: Seq<A>, b: Seq<A>) -> (k: int)
    requires
        a.len() > 0,
        a.to_multiset() == b.to_multiset(),
    ensures
        0 <= k < b.len(),
        b[k] == a.last(),
        a.drop_last().to_multiset() == (b.take(k) + b.skip(k + 1)).to_multiset(),
        b =~= b.take(k) + seq![b[k]] + b.skip(k + 1),
        a =~= a.drop_last() + seq![a.last()],
{
    broadcast use vstd::seq_lib::group_to_multiset_ensures;

    let x = a.last();
    assert(a.contains(x)) by {
        assert(a[a.len() - 1] == x);
    }
    assert(b.to_multiset().count(x) > 0);
    assert(b.contains(x));
    let k = choose|k: int| 0 <= k < b.len() && b[k] == x;
    assert(b.remove(k) =~= b.take(k) + b.skip(k + 1));
    assert(a.drop_last() =~= a.remove(a.len() - 1));
    assert(a.drop_last().to_multiset() =~= a.to_multiset().remove(x));
    assert(b.remove(k).to_multiset() =~= b.to_multiset().remove(x));
    k
}

/// A sequence-valued map that distributes over concatenation keeps equal
/// element multisets equal.
proof fn lemma_permutation_mapped<A, B>(a: Seq<A>, b: Seq<A>, f: spec_fn(Seq<A>) -> Seq<B>)
    requires
        a.to_multiset() == b.to_multiset(),
        forall|x: Seq<A>, y: Seq<A>| #[trigger] f(x + y) == f(x) + f(y),
    ensures
        f(a).to_multiset() == f(b).to_multiset(),
    decreases a.len(),
{
    broadcast use vstd::seq_lib::group_to_multiset_ensures;
    broadcast use vstd::seq_lib::lemma_multiset_commutative;
    broadcast use vstd::multiset::group_multiset_axioms;

    if a.len() == 0 {
        assert(b.to_multiset().len() == 0);
        assert(b =~= a);
    } else {
        let k = lemma_permutation_step(a, b);
        let x = a.last();
        let front = b.take(k);
        let back = b.skip(k + 1);
        lemma_permutation_mapped(a.drop_last(), front + back, f);
        assert(f(a) == f(a.drop_last()) + f(seq![x]));
        assert(f(b) == f(front + seq![x]) + f(back));
        assert(f(front + seq![x]) == f(front) + f(seq![x]));
        assert(f(front + back) == f(front) + f(back));
        assert(f(a).to_multiset() =~= f(b).to_multiset());
    }
}

/// An integer measure that adds up over concatenation is the same for two
/// sequences with the same elements.
proof fn lemma_permutation_measured<A>(a: Seq<A>, b: Seq<A>, g: spec_fn(Seq<A>) -> int)
    requires
        a.to_multiset() == b.to_multiset(),
        forall|x: Seq<A>, y: Seq<A>| #[trigger] g(x + y) == g(x) + g(y),
    ensures
        g(a) == g(b),
    decreases a.len(),
{
    broadcast use vstd::seq_lib::group_to_multiset_ensures;

    if a.len() == 0 {
        assert(b.to_multiset().len() == 0);
        assert(b =~= a);
    } else {
        let k = lemma_permutation_step(a, b);
        let x = a.last();
        let front = b.take(k);
        let back = b.skip(k + 1);
        lemma_permutation_measured(a.drop_last(), front + back, g);
        assert(g(a) == g(a.drop_last()) + g(seq![x]));
        assert(g(b) == g(front + seq![x]) + g(back));
        assert(g(front + seq![x]) == g(front) + g(seq![x]));
        assert(g(front + back) == g(front) + g(back));
    }
}

/// The soldiers of `kind` over all armies, without a cap.
pub open spec fn soldier_sum(armies: Seq<ArmyView>, kind: UnitKind) -> int
    decreases armies.len(),
{
    if armies.len() == 0 {
        0
    } else {
        soldier_sum(armies.drop_last(), kind) + soldiers_of(armies.last(), kind)
    }
}

proof fn lemma_soldier_sum_adds(x: Seq<ArmyView>, y: Seq<ArmyView>, kind: UnitKind)
    ensures
        soldier_sum(x + y, kind) == soldier_sum(x, kind) + soldier_sum(y, kind),
    decreases y.len(),
{
    if y.len() == 0 {
        assert(x + y =~= x);
    } else {
        assert((x + y).drop_last() =~= x + y.drop_last());
        lemma_soldier_sum_adds(x, y.drop_last(), kind);
    }
}

/// The saturating running total over the first `k` armies is the uncapped
/// sum, capped at the largest `u64`.
proof fn lemma_total_is_capped_sum(armies: Seq<ArmyView>, kind: UnitKind, k: int)
    requires
        0 <= k <= armies.len(),
    ensures
        total_of(armies, kind, k) == (if soldier_sum(armies.take(k), kind) <= u64::MAX {
            soldier_sum(armies.take(k), kind)
        } else {
            u64::MAX as int
        }),
    decreases k,
{
    if k == 0 {
        assert(armies.take(0) =~= Seq::<ArmyView>::empty());
    } else {
        lemma_total_is_capped_sum(armies, kind, k - 1);
        assert(armies.take(k).drop_last() =~= armies.take(k - 1));
        assert(armies.take(k).last() == armies[k - 1]);
    }
}

pub open spec fn summed(kind: UnitKind) -> spec_fn(Seq<ArmyView>) -> int {
    |s: Seq<ArmyView>| soldier_sum(s, kind)
}

pub open spec fn ids_of() -> spec_fn(Seq<ArmyView>) -> Seq<Seq<char>> {
    |s: Seq<ArmyView>| s.map_values(army_id_of())
}

proof fn lemma_totals_ignore_order(a: Seq<ArmyView>, b: Seq<ArmyView>, kind: UnitKind)
    requires
        a.to_multiset() == b.to_multiset(),
    ensures
        total_of(a, kind, a.len() as int) == total_of(b, kind, b.len() as int),
{
    broadcast use vstd::seq_lib::group_to_multiset_ensures;

    assert forall|x: Seq<ArmyView>, y: Seq<ArmyView>| #[trigger] summed(kind)(x + y) == summed(
        kind,
    )(x) + summed(kind)(y) by {
        lemma_soldier_sum_adds(x, y, kind);
    }
    lemma_permutation_measured(a, b, summed(kind));
    lemma_total_is_capped_sum(a, kind, a.len() as int);
    lemma_total_is_capped_sum(b, kind, b.len() as int);
    assert(a.take(a.len() as int) =~= a);
    assert(b.take(b.len() as int) =~= b);
    assert(a.to_multiset().len() == b.to_multiset().len());
}

/// A tactical force does not depend on the order in which its armies are
/// stored: the same armies in any order give the same ids, in byte order,
/// and the same soldiers of each kind.
pub proof fn force_seed_ignores_army_order(faction: Seq<char>, a: Seq<ArmyView>, b: Seq<ArmyView>)
    requires
        a.to_multiset() == b.to_multiset(),
    ensures
        spec_force_seed(faction, a) == spec_force_seed(faction, b),
{
    broadcast use vstd::seq_lib::group_to_multiset_ensures;

    assert forall|x: Seq<ArmyView>, y: Seq<ArmyView>| #[trigger] ids_of()(x + y) == ids_of()(x)
        + ids_of()(y) by {
        assert((x + y).map_values(army_id_of()) =~= x.map_values(army_id_of()) + y.map_values(
            army_id_of(),
        ));
    }
    lemma_permutation_mapped(a, b, ids_of());
    let ia = a.map_values(army_id_of());
    let ib = b.map_values(army_id_of());
    assert(ia.to_multiset() == ib.to_multiset());
    assert(sorted_texts(ia) == sorted_texts(ib));
    lemma_totals_ignore_order(a, b, UnitKind::Levy);
    lemma_totals_ignore_order(a, b, UnitKind::Spearmen);
    lemma_totals_ignore_order(a, b, UnitKind::Archers);
    lemma_totals_ignore_order(a, b, UnitKind::Knights);
    assert(a.to_multiset().len() == b.to_multiset().len());
}

/// Army ids are unique.
pub open spec fn unique_army_ids(armies: Seq<ArmyView>) -> bool {
    forall|i: int, j: int|
        0 <= i < j < armies.len() ==> #[trigger] armies[i].id != #[trigger] armies[j].id
}

/// The tactical seed of a pending battle does not depend on the order in
/// which the campaign stores its armies, as long as army ids are unique:
/// two campaigns that differ only in that order give the same seed.
pub proof fn battle_seed_ignores_army_order(first: CampaignView, second: CampaignView)
    requires
        second == (CampaignView { armies: second.armies, ..first }),
        first.armies.to_multiset() == second.armies.to_multiset(),
        unique_army_ids(first.armies),
    ensures
        first.spec_battle_seed() == second.spec_battle_seed(),
{
    broadcast use vstd::seq_lib::group_to_multiset_ensures;

    if first.pending_battle is Some {
        let pending = first.pending_battle->Some_0;
        let with_id = army_has_id(pending.attacker_army_id);
        if first.has_army(pending.attacker_army_id) {
            lemma_exists_has_first(first.armies, with_id);
            let i = first_match(first.armies, with_id);
            assert(first.armies.contains(first.armies[i]));
            assert(second.armies.to_multiset().count(first.armies[i]) > 0);
            assert(second.armies.contains(first.armies[i]));
            assert(second.has_army(pending.attacker_army_id));
            lemma_exists_has_first(second.armies, with_id);
            let j = first_match(second.armies, with_id);
            assert(second.armies.contains(second.armies[j]));
            assert(first.armies.to_multiset().count(second.armies[j]) > 0);
            assert(first.armies.contains(second.armies[j]));
            let m = choose|m: int| 0 <= m < first.armies.len() && first.armies[m] == second.armies[j];
            assert(m == i);
            assert(second.armies[j] == first.armies[i]);
        } else {
            assert forall|j: int| 0 <= j < second.armies.len() implies !with_id(
                #[trigger] second.armies[j],
            ) by {
                assert(second.armies.contains(second.armies[j]));
                assert(first.armies.to_multiset().count(second.armies[j]) > 0);
                assert(first.armies.contains(second.armies[j]));
            }
            assert(!exists_match(second.armies, with_id));
        }
        let defending = army_at(pending.defender_faction, pending.target_province);
        assert forall|x: Seq<ArmyView>, y: Seq<ArmyView>| #[trigger] (x + y).filter(defending)
            == x.filter(defending) + y.filter(defending) by {
            Seq::filter_distributes_over_add(x, y, defending);
        }
        let keep = |s: Seq<ArmyView>| s.filter(defending);
        assert forall|x: Seq<ArmyView>, y: Seq<ArmyView>| #[trigger] keep(x + y) == keep(x) + keep(
            y,
        ) by {
            Seq::filter_distributes_over_add(x, y, defending);
        }
        lemma_permutation_mapped(first.armies, second.armies, keep);
        force_seed_ignores_army_order(
            pending.defender_faction,
            first.armies.filter(defending),
            second.armies.filter(defending),
        );
    }
}

/// The position of a unit kind in the fixed order of a force's units.
pub open spec fn kind_rank(kind: UnitKind) -> int {
    match kind {
        UnitKind::Levy => 0,
        UnitKind::Spearmen => 1,
        UnitKind::Archers => 2,
        UnitKind::Knights => 3,
    }
}

/// A force seed is canonical: the ids of its armies in byte order, and one
/// entry per unit kind that its armies field, in the fixed kind order, each
/// holding the (saturating) sum of that kind over the armies; kinds with no
/// soldiers are left out.
pub open spec fn canonical_force(seed: ForceSeedView, faction: Seq<char>, armies: Seq<ArmyView>) -> bool {
    &&& seed.faction_id == faction
    &&& texts_sorted(seed.source_army_ids)
    &&& seed.source_army_ids.to_multiset() == armies.map_values(army_id_of()).to_multiset()
    &&& forall|i: int|
        0 <= i < seed.units.len() ==> (#[trigger] seed.units[i]).soldiers > 0
            && seed.units[i].soldiers == total_of(armies, seed.units[i].kind, armies.len() as int)
    &&& forall|i: int, j: int|
        0 <= i < j < seed.units.len() ==> kind_rank((#[trigger] seed.units[i]).kind) < kind_rank(
            (#[trigger] seed.units[j]).kind,
        )
    &&& forall|kind: UnitKind|
        #![trigger total_of(armies, kind, armies.len() as int)]
        total_of(armies, kind, armies.len() as int) > 0 ==> exists|i: int|
            0 <= i < seed.units.len() && (#[trigger] seed.units[i]).kind == kind
}

proof fn lemma_force_seed_canonical(faction: Seq<char>, armies: Seq<ArmyView>)
    ensures
        canonical_force(spec_force_seed(faction, armies), faction, armies),
{
    lemma_sorted_texts_sorted(armies.map_values(army_id_of()));
    let n = armies.len() as int;
    let l = seed_if(UnitKind::Levy, total_of(armies, UnitKind::Levy, n));
    let sp = seed_if(UnitKind::Spearmen, total_of(armies, UnitKind::Spearmen, n));
    let ar = seed_if(UnitKind::Archers, total_of(armies, UnitKind::Archers, n));
    let kn = seed_if(UnitKind::Knights, total_of(armies, UnitKind::Knights, n));
    let units = spec_force_seed(faction, armies).units;
    assert(units == l + sp + ar + kn);
    assert forall|kind: UnitKind| total_of(armies, kind, n) > 0 implies exists|i: int|
        0 <= i < units.len() && (#[trigger] units[i]).kind == kind by {
        match kind {
            UnitKind::Levy => {
                assert(units[0].kind == kind);
            },
            UnitKind::Spearmen => {
                assert(units[l.len() as int].kind == kind);
            },
            UnitKind::Archers => {
                assert(units[(l.len() + sp.len()) as int].kind == kind);
            },
            UnitKind::Knights => {
                assert(units[(l.len() + sp.len() + ar.len()) as int].kind == kind);
            },
        }
    }
}

/// The seed of a pending battle is canonical on both sides: the attacking
/// army alone, and every army of the defender in the contested province,
/// listed by id in byte order, with per-kind sums in the fixed kind order and
/// empty kinds dropped.
pub proof fn battle_seed_is_canonical(campaign: CampaignView)
    requires
        campaign.spec_battle_seed() is Ok,
    ensures
        ({
            let seed = campaign.spec_battle_seed()->Ok_0;
            let pending = campaign.pending_battle->Some_0;
            &&& campaign.has_army(pending.attacker_army_id)
            &&& seed.turn == campaign.turn
            &&& seed.attacker_army_id == pending.attacker_army_id
            &&& seed.from_province == pending.from_province
            &&& seed.target_province == pending.target_province
            &&& canonical_force(
                seed.attacker,
                pending.attacker_faction,
                seq![campaign.armies[campaign.army_index(pending.attacker_army_id)]],
            )
            &&& canonical_force(
                seed.defender,
                pending.defender_faction,
                campaign.armies.filter(army_at(pending.defender_faction, pending.target_province)),
            )
        }),
{
    let pending = campaign.pending_battle->Some_0;
    lemma_force_seed_canonical(
        pending.attacker_faction,
        seq![campaign.armies[campaign.army_index(pending.attacker_army_id)]],
    );
    lemma_force_seed_canonical(
        pending.defender_faction,
        campaign.armies.filter(army_at(pending.defender_faction, pending.target_province)),
    );
}

} // verus!
