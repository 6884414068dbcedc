use vstd::prelude::*;

use crate::campaign::{
    army_at, army_has_id, exists_match, faction_has_id, first_match, is_first,
    lemma_exists_has_first, lemma_first_match_unique, order_due, order_not_due, sat_add_u32,
    spec_income, spec_unit_cost, add_soldiers, recruit_army_id, ArmyView, CampaignErrorView,
    CampaignView, FactionView, RecruitmentOrderView, UnitKind,
};

verus! {

/// An army moves at most once per turn: once a move of it has been
/// accepted, a second move of it is refused and it has no legal
/// destination until its faction's next turn.
pub proof fn an_army_moves_once_per_turn(
    campaign: CampaignView,
    army_id: Seq<char>,
    destination: Seq<char>,
    next_destination: Seq<char>,
)
    requires
        campaign.spec_move_army(army_id, destination).1 is Ok,
    ensures
        campaign.spec_move_army(army_id, destination).0.spec_legal_destinations(army_id) is Err,
        campaign.spec_move_army(army_id, destination).0.spec_move_army(
            army_id,
            next_destination,
        ).1 is Err,
{
    let after = campaign.spec_move_army(army_id, destination).0;
    let i = campaign.army_index(army_id);
    lemma_exists_has_first(campaign.armies, army_has_id(army_id));
    if after.pending_battle is None {
        assert(is_first(after.armies, army_has_id(army_id), i));
        lemma_first_match_unique(after.armies, army_has_id(army_id), i);
    }
}

/// A queued recruitment is paid in full from a treasury that holds its
/// cost: the treasury never goes below zero, and exactly one order joins
/// the queue.
pub proof fn recruitment_is_paid_in_full(campaign: CampaignView, province_id: Seq<char>, unit: UnitKind)
    requires
        campaign.spec_queue_recruitment(province_id, unit).1 is Ok,
    ensures
        ({
            let after = campaign.spec_queue_recruitment(province_id, unit).0;
            let fi = campaign.faction_index(campaign.active_faction);
            &&& 0 <= fi < campaign.factions.len()
            &&& campaign.factions[fi].treasury >= spec_unit_cost(unit)
            &&& after.factions[fi].treasury == campaign.factions[fi].treasury - spec_unit_cost(unit)
            &&& after.factions.len() == campaign.factions.len()
            &&& after.recruitment_queue.len() == campaign.recruitment_queue.len() + 1
        }),
{
    lemma_exists_has_first(campaign.factions, faction_has_id(campaign.active_faction));
}

proof fn lemma_deliveries_keep_economy(campaign: CampaignView, orders: Seq<RecruitmentOrderView>)
    ensures
        campaign.spec_complete_all(orders).0.factions == campaign.factions,
        campaign.spec_complete_all(orders).0.active_faction == campaign.active_faction,
        campaign.spec_complete_all(orders).0.turn == campaign.turn,
    decreases orders.len(),
{
    if orders.len() > 0 {
        lemma_deliveries_keep_economy(campaign, orders.drop_last());
    }
}

/// Delivering orders touches only the armies: every army keeps its owner,
/// its province and its movement mark, new armies have not moved, and after
/// a successful delivery each order's faction has an army in its province.
proof fn lemma_deliveries_frame(campaign: CampaignView, orders: Seq<RecruitmentOrderView>)
    ensures
        ({
            let (after, result) = campaign.spec_complete_all(orders);
            &&& after.factions == campaign.factions
            &&& after.provinces == campaign.provinces
            &&& after.active_faction == campaign.active_faction
            &&& after.turn == campaign.turn
            &&& after.year == campaign.year
            &&& after.recruitment_queue == campaign.recruitment_queue
            &&& after.armies.len() >= campaign.armies.len()
            &&& forall|j: int|
                0 <= j < campaign.armies.len() ==> (#[trigger] after.armies[j]).owner
                    == campaign.armies[j].owner && after.armies[j].province
                    == campaign.armies[j].province && after.armies[j].moved_this_turn
                    == campaign.armies[j].moved_this_turn
            &&& forall|j: int|
                campaign.armies.len() <= j < after.armies.len()
                    ==> !(#[trigger] after.armies[j]).moved_this_turn
            &&& result is Ok ==> forall|k: int|
                0 <= k < orders.len() ==> exists_match(
                    after.armies,
                    army_at((#[trigger] orders[k]).faction_id, orders[k].province_id),
                )
        }),
    decreases orders.len(),
{
    if orders.len() > 0 {
        let rest = orders.drop_last();
        lemma_deliveries_frame(campaign, rest);
        let (before, r0) = campaign.spec_complete_all(rest);
        if r0 is Ok {
            let order = orders.last();
            let (after, r) = before.spec_complete_recruitment(order);
            let here = army_at(order.faction_id, order.province_id);
            if before.has_province(order.province_id) && exists_match(before.armies, here) {
                lemma_exists_has_first(before.armies, here);
            }
            assert forall|j: int| 0 <= j < before.armies.len() implies (#[trigger] after.armies[j]).owner
                == before.armies[j].owner && after.armies[j].province == before.armies[j].province
                && after.armies[j].moved_this_turn == before.armies[j].moved_this_turn by {}
            if r is Ok {
                assert forall|k: int| 0 <= k < orders.len() implies exists_match(
                    after.armies,
                    army_at((#[trigger] orders[k]).faction_id, orders[k].province_id),
                ) by {
                    let p = army_at(orders[k].faction_id, orders[k].province_id);
                    if k < rest.len() {
                        assert(rest[k] == orders[k]);
                        let w = choose|i: int| 0 <= i < before.armies.len() && p(#[trigger] before.armies[i]);
                        assert(p(after.armies[w]));
                    } else if exists_match(before.armies, here) {
                        let w = first_match(before.armies, here);
                        assert(p(after.armies[w]));
                    } else {
                        assert(p(after.armies[before.armies.len() as int]));
                    }
                }
            }
        }
    }
}

/// The start of a faction's turn pays it once and delivers what is due: when
/// its economy has not yet run this turn, its treasury gains its provincial
/// income (saturating at `u32::MAX`), the turn is marked as paid, the orders
/// it has due leave the queue while every other order stays, every due order
/// ends with an army of its faction in its province, the other factions are
/// untouched, and running the start of the turn again changes nothing.
pub proof fn turn_start_pays_and_delivers(campaign: CampaignView)
    requires
        campaign.has_faction(campaign.active_faction),
        campaign.factions[campaign.faction_index(campaign.active_faction)].last_economy_turn
            != Some(campaign.turn),
        spec_income(campaign.provinces, campaign.active_faction) <= u32::MAX,
        campaign.spec_apply_turn_start().1 is Ok,
    ensures
        ({
            let fid = campaign.active_faction;
            let fi = campaign.faction_index(fid);
            let after = campaign.spec_apply_turn_start().0;
            let due = campaign.recruitment_queue.filter(order_due(fid, campaign.turn));
            &&& after.factions.len() == campaign.factions.len()
            &&& after.factions[fi].treasury as int == if campaign.factions[fi].treasury as int
                + spec_income(campaign.provinces, fid) <= u32::MAX {
                campaign.factions[fi].treasury as int + spec_income(campaign.provinces, fid)
            } else {
                u32::MAX as int
            }
            &&& after.factions[fi].last_economy_turn == Some(campaign.turn)
            &&& forall|j: int|
                0 <= j < campaign.factions.len() && j != fi ==> after.factions[j]
                    == campaign.factions[j]
            &&& after.recruitment_queue == campaign.recruitment_queue.filter(
                order_not_due(fid, campaign.turn),
            )
            &&& forall|k: int|
                0 <= k < due.len() ==> exists_match(
                    after.armies,
                    army_at((#[trigger] due[k]).faction_id, due[k].province_id),
                )
            &&& after.spec_apply_turn_start() == (after, Ok::<(), CampaignErrorView>(()))
        }),
{
    let fid = campaign.active_faction;
    lemma_exists_has_first(campaign.factions, faction_has_id(fid));
    let fi = campaign.faction_index(fid);
    let faction = campaign.factions[fi];
    let income = spec_income(campaign.provinces, fid);
    let paid = campaign.factions.update(
        fi,
        FactionView {
            treasury: sat_add_u32(faction.treasury, income as u32),
            last_economy_turn: Some(campaign.turn),
            ..faction
        },
    );
    let settled = CampaignView {
        factions: paid,
        recruitment_queue: campaign.recruitment_queue.filter(order_not_due(fid, campaign.turn)),
        log: campaign.log.push(crate::campaign::income_line(campaign.turn, faction.name, income)),
        ..campaign
    };
    lemma_deliveries_frame(settled, campaign.recruitment_queue.filter(order_due(fid, campaign.turn)));
    turn_start_settles_once(campaign);
    let after = campaign.spec_apply_turn_start().0;
    assert(after.factions == paid);
    assert(after.factions[fi].last_economy_turn == Some(campaign.turn));
    assert(after.recruitment_queue == settled.recruitment_queue);
    lemma_income_nonnegative(campaign.provinces, fid);
    assert(income as u32 == income);
}

proof fn lemma_income_nonnegative(provinces: Seq<crate::campaign::ProvinceView>, faction: Seq<char>)
    ensures
        spec_income(provinces, faction) >= 0,
    decreases provinces.len(),
{
    if provinces.len() > 0 {
        lemma_income_nonnegative(provinces.drop_last(), faction);
    }
}

/// Ending a turn rotates play: with no battle pending and at least one
/// faction, the faction after the active one (the first one when the active
/// faction is unknown) becomes active, the turn counter steps by one, the
/// year steps exactly when the order wraps to the first faction, every army
/// of the new faction may move again, and the new faction's start-of-turn
/// economy has run for the new turn.
pub proof fn ending_a_turn_rotates_play(campaign: CampaignView)
    requires
        campaign.pending_battle is None,
        campaign.factions.len() > 0,
        campaign.end_turn_fits(),
        campaign.spec_end_turn().1 is Ok,
    ensures
        ({
            let n = campaign.factions.len() as int;
            let i = if campaign.has_faction(campaign.active_faction) {
                campaign.faction_index(campaign.active_faction)
            } else {
                0
            };
            let next = campaign.factions[(i + 1) % n];
            let after = campaign.spec_end_turn().0;
            &&& after.active_faction == next.id
            &&& after.turn == campaign.turn + 1
            &&& after.year == if (i + 1) % n == 0 { campaign.year + 1 } else { campaign.year as int }
            &&& forall|j: int|
                0 <= j < after.armies.len() && (#[trigger] after.armies[j]).owner == next.id
                    ==> !after.armies[j].moved_this_turn
            &&& after.has_faction(next.id)
            &&& after.factions[after.faction_index(next.id)].last_economy_turn == Some(
                after.turn,
            )
            &&& after.spec_apply_turn_start() == (after, Ok::<(), CampaignErrorView>(()))
        }),
{
    if campaign.has_faction(campaign.active_faction) {
        lemma_exists_has_first(campaign.factions, faction_has_id(campaign.active_faction));
    }
    let passed = campaign.spec_pass_turn();
    let next = passed.factions[campaign.next_faction_index()];
    assert(faction_has_id(next.id)(passed.factions[campaign.next_faction_index()]));
    lemma_exists_has_first(passed.factions, faction_has_id(next.id));
    let fi = passed.faction_index(next.id);
    let after = campaign.spec_end_turn().0;
    turn_start_settles_once(passed);
    if passed.factions[fi].last_economy_turn == Some(passed.turn) {
        assert(after == passed);
    } else {
        let faction = passed.factions[fi];
        let income = spec_income(passed.provinces, next.id);
        let paid = passed.factions.update(
            fi,
            FactionView {
                treasury: sat_add_u32(faction.treasury, income as u32),
                last_economy_turn: Some(passed.turn),
                ..faction
            },
        );
        let settled = CampaignView {
            factions: paid,
            recruitment_queue: passed.recruitment_queue.filter(order_not_due(next.id, passed.turn)),
            log: passed.log.push(crate::campaign::income_line(passed.turn, faction.name, income)),
            ..passed
        };
        lemma_deliveries_frame(settled, passed.recruitment_queue.filter(order_due(next.id, passed.turn)));
        assert(is_first(paid, faction_has_id(next.id), fi));
        lemma_first_match_unique(paid, faction_has_id(next.id), fi);
    }
}

proof fn lemma_deliveries_succeed(campaign: CampaignView, orders: Seq<RecruitmentOrderView>)
    requires
        forall|k: int| 0 <= k < orders.len() ==> campaign.has_province(#[trigger] orders[k].province_id),
    ensures
        campaign.spec_complete_all(orders).1 is Ok,
    decreases orders.len(),
{
    if orders.len() > 0 {
        let rest = orders.drop_last();
        assert forall|k: int| 0 <= k < rest.len() implies campaign.has_province(
            #[trigger] rest[k].province_id,
        ) by {
            assert(rest[k] == orders[k]);
        }
        lemma_deliveries_succeed(campaign, rest);
        lemma_deliveries_frame(campaign, rest);
        assert(campaign.has_province(orders[orders.len() - 1].province_id));
    }
}

/// Delivering a recruitment order: when its province exists, its soldiers
/// join the first army of its faction in that province, kind by kind and
/// saturating, or else a new army of that faction is raised there, named
/// after faction, province and turn, holding just those soldiers and free
/// to move; no other army changes.
pub proof fn a_delivery_joins_the_first_army_there_or_raises_one(
    campaign: CampaignView,
    order: RecruitmentOrderView,
)
    requires
        campaign.has_province(order.province_id),
    ensures
        ({
            let (after, result) = campaign.spec_complete_recruitment(order);
            let here = army_at(order.faction_id, order.province_id);
            &&& result is Ok
            &&& exists_match(campaign.armies, here) ==> {
                let i = first_match(campaign.armies, here);
                &&& is_first(campaign.armies, here, i)
                &&& after.armies == campaign.armies.update(
                    i,
                    add_soldiers(campaign.armies[i], order.unit, order.soldiers),
                )
            }
            &&& !exists_match(campaign.armies, here) ==> after.armies == campaign.armies.push(
                add_soldiers(
                    ArmyView {
                        id: recruit_army_id(order.faction_id, order.province_id, campaign.turn),
                        owner: order.faction_id,
                        province: order.province_id,
                        levy: 0,
                        spearmen: 0,
                        archers: 0,
                        knights: 0,
                        moved_this_turn: false,
                    },
                    order.unit,
                    order.soldiers,
                ),
            )
            &&& after.factions == campaign.factions && after.provinces == campaign.provinces
                && after.recruitment_queue == campaign.recruitment_queue
        }),
{
    let here = army_at(order.faction_id, order.province_id);
    if exists_match(campaign.armies, here) {
        lemma_exists_has_first(campaign.armies, here);
    }
}

/// Ending a turn succeeds whenever no battle is pending and every queued
/// recruitment order names a province of the campaign: the deliveries at the
/// start of the next faction's turn cannot fail.
pub proof fn ending_a_turn_succeeds_when_orders_name_known_provinces(campaign: CampaignView)
    requires
        campaign.pending_battle is None,
        forall|k: int|
            0 <= k < campaign.recruitment_queue.len() ==> campaign.has_province(
                #[trigger] campaign.recruitment_queue[k].province_id,
            ),
    ensures
        campaign.spec_end_turn().1 is Ok,
{
    if campaign.factions.len() > 0 {
        let passed = campaign.spec_pass_turn();
        let fid = passed.active_faction;
        let next = campaign.next_faction_index();
        assert(faction_has_id(fid)(passed.factions[next]));
        lemma_exists_has_first(passed.factions, faction_has_id(fid));
        let fi = passed.faction_index(fid);
        let faction = passed.factions[fi];
        if faction.last_economy_turn != Some(passed.turn) {
            let income = spec_income(passed.provinces, fid);
            let paid = CampaignView {
                factions: passed.factions.update(
                    fi,
                    FactionView {
                        treasury: sat_add_u32(faction.treasury, income as u32),
                        last_economy_turn: Some(passed.turn),
                        ..faction
                    },
                ),
                recruitment_queue: passed.recruitment_queue.filter(order_not_due(fid, passed.turn)),
                log: passed.log.push(crate::campaign::income_line(passed.turn, faction.name, income)),
                ..passed
            };
            let due = passed.recruitment_queue.filter(order_due(fid, passed.turn));
            assert forall|k: int| 0 <= k < due.len() implies paid.has_province(
                #[trigger] due[k].province_id,
            ) by {
                assert(due.contains(due[k]));
                passed.recruitment_queue.lemma_filter_contains_rev(order_due(fid, passed.turn), due[k]);
                let j = choose|j: int|
                    0 <= j < passed.recruitment_queue.len() && passed.recruitment_queue[j] == due[k];
                assert(campaign.has_province(campaign.recruitment_queue[j].province_id));
            }
            lemma_deliveries_succeed(paid, due);
        }
    }
}

/// The start of a faction's turn settles its economy once: income is paid
/// and due recruitment delivered a single time, and starting the same turn
/// again changes nothing.
pub proof fn turn_start_settles_once(campaign: CampaignView)
    requires
        campaign.spec_apply_turn_start().1 is Ok,
    ensures
        campaign.spec_apply_turn_start().0.spec_apply_turn_start() == (
            campaign.spec_apply_turn_start().0,
            Ok::<(), CampaignErrorView>(()),
        ),
{
    let fid = campaign.active_faction;
    lemma_exists_has_first(campaign.factions, faction_has_id(fid));
    let fi = campaign.faction_index(fid);
    let faction = campaign.factions[fi];
    if faction.last_economy_turn != Some(campaign.turn) {
        let after = campaign.spec_apply_turn_start().0;
        let paid = campaign.factions.update(
            fi,
            crate::campaign::FactionView {
                treasury: crate::campaign::sat_add_u32(
                    faction.treasury,
                    crate::campaign::spec_income(campaign.provinces, fid) as u32,
                ),
                last_economy_turn: Some(campaign.turn),
                ..faction
            },
        );
        let income = crate::campaign::spec_income(campaign.provinces, fid);
        let settled = CampaignView {
            factions: paid,
            recruitment_queue: campaign.recruitment_queue.filter(
                crate::campaign::order_not_due(fid, campaign.turn),
            ),
            log: campaign.log.push(crate::campaign::income_line(campaign.turn, faction.name, income)),
            ..campaign
        };
        lemma_deliveries_keep_economy(
            settled,
            campaign.recruitment_queue.filter(crate::campaign::order_due(fid, campaign.turn)),
        );
        assert(after.factions == paid);
        assert(is_first(paid, faction_has_id(fid), fi));
        lemma_first_match_unique(paid, faction_has_id(fid), fi);
    }
}

/// A faction that holds every province has won the campaign.
pub proof fn holding_every_province_wins(campaign: CampaignView, faction: Seq<char>)
    requires
        campaign.owns_all(faction),
        campaign.has_faction(faction),
    ensures
        campaign.spec_winner() == Some(faction),
{
    let w = choose|i: int|
        0 <= i < campaign.factions.len() && faction_has_id(faction)(#[trigger] campaign.factions[i]);
    assert(campaign.controls_everything()(campaign.factions[w]));
    assert(exists_match(campaign.factions, campaign.controls_everything()));
    lemma_exists_has_first(campaign.factions, campaign.controls_everything());
    let m = first_match(campaign.factions, campaign.controls_everything());
    assert(campaign.provinces[0].owner == campaign.factions[m].id);
    assert(campaign.provinces[0].owner == faction);
}

/// The opponent never plays the human faction's turn: while the human
/// faction is active, an opponent turn changes nothing and succeeds.
pub proof fn the_opponent_never_plays_the_human_turn(campaign: CampaignView, human: Seq<char>, seed: u64)
    requires
        campaign.has_faction(human),
        campaign.active_faction == human,
    ensures
        campaign.spec_play_ai_turn(human, seed) == (campaign, Ok::<(), CampaignErrorView>(())),
{
}

/// Refused campaign commands change nothing: a move, a recruitment, the
/// choice of a player faction and a battle resolution leave the campaign
/// exactly as it was whenever they fail.
pub proof fn refused_commands_change_nothing(
    campaign: CampaignView,
    army_id: Seq<char>,
    destination: Seq<char>,
    province_id: Seq<char>,
    unit: UnitKind,
    faction_id: Seq<char>,
    seed: u64,
)
    ensures
        campaign.spec_move_army(army_id, destination).1 is Err ==> campaign.spec_move_army(
            army_id,
            destination,
        ).0 == campaign,
        campaign.spec_queue_recruitment(province_id, unit).1 is Err
            ==> campaign.spec_queue_recruitment(province_id, unit).0 == campaign,
        campaign.spec_select_player_faction(faction_id).1 is Err
            ==> campaign.spec_select_player_faction(faction_id).0 == campaign,
        campaign.spec_resolve_pending_battle(seed).1 is Err
            ==> campaign.spec_resolve_pending_battle(seed).0 == campaign,
{
}

} // verus!
