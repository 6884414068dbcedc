use medieval::campaign::{new_campaign, Army, CampaignError, CampaignState, UnitKind};
use medieval::handoff::TacticalUnitSeed;

fn pending_paris_battle() -> CampaignState {
    let mut campaign = new_campaign();
    campaign
        .move_army("england-main", "paris")
        .expect("fixture movement must create a pending battle");
    campaign
}

#[test]
fn pending_battle_seed_preserves_campaign_composition_and_provenance() {
    let campaign = pending_paris_battle();

    let seed = campaign
        .pending_tactical_battle_seed()
        .expect("pending battle must produce a tactical seed");

    assert_eq!(seed.turn, 1);
    assert_eq!(seed.attacker_army_id, "england-main");
    assert_eq!(seed.from_province, "normandy");
    assert_eq!(seed.target_province, "paris");
    assert_eq!(seed.attacker.faction_id, "england");
    assert_eq!(seed.attacker.source_army_ids, ["england-main"]);
    assert_eq!(
        seed.attacker.units,
        [
            TacticalUnitSeed { kind: UnitKind::Levy, soldiers: 120 },
            TacticalUnitSeed { kind: UnitKind::Spearmen, soldiers: 80 },
            TacticalUnitSeed { kind: UnitKind::Archers, soldiers: 40 },
            TacticalUnitSeed { kind: UnitKind::Knights, soldiers: 20 },
        ]
    );
    assert_eq!(seed.defender.faction_id, "france");
    assert_eq!(seed.defender.source_army_ids, ["france-main"]);
    assert_eq!(seed.defender.units, seed.attacker.units);
}

#[test]
fn defender_aggregation_is_storage_order_independent_and_canonical() {
    let mut campaign = new_campaign();
    campaign.armies.push(Army {
        id: "france-reserve".into(),
        owner: "france".into(),
        province: "paris".into(),
        levy: 5,
        spearmen: 4,
        archers: 3,
        knights: 2,
        moved_this_turn: false,
    });
    campaign.armies.reverse();
    campaign
        .move_army("england-main", "paris")
        .expect("fixture movement must create a pending battle");

    let seed = campaign
        .pending_tactical_battle_seed()
        .expect("pending battle must produce a tactical seed");

    assert_eq!(seed.defender.source_army_ids, ["france-main", "france-reserve"]);
    assert_eq!(
        seed.defender.units,
        [
            TacticalUnitSeed { kind: UnitKind::Levy, soldiers: 125 },
            TacticalUnitSeed { kind: UnitKind::Spearmen, soldiers: 84 },
            TacticalUnitSeed { kind: UnitKind::Archers, soldiers: 43 },
            TacticalUnitSeed { kind: UnitKind::Knights, soldiers: 22 },
        ]
    );
}

#[test]
fn zero_strength_unit_kinds_are_omitted_without_reordering_remaining_kinds() {
    let mut campaign = pending_paris_battle();
    let defender = campaign
        .armies
        .iter_mut()
        .find(|army| army.id == "france-main")
        .expect("fixture defender must exist");
    defender.levy = 0;
    defender.archers = 0;

    let seed = campaign
        .pending_tactical_battle_seed()
        .expect("pending battle must produce a tactical seed");

    assert_eq!(
        seed.defender.units,
        [
            TacticalUnitSeed { kind: UnitKind::Spearmen, soldiers: 80 },
            TacticalUnitSeed { kind: UnitKind::Knights, soldiers: 20 },
        ]
    );
}

#[test]
fn tactical_seed_requires_a_pending_campaign_battle() {
    assert_eq!(
        new_campaign().pending_tactical_battle_seed(),
        Err(CampaignError::NoPendingBattle)
    );
}

#[test]
fn army_listing_order_does_not_change_the_seed() {
    let mut forward = pending_paris_battle();
    forward.armies.push(Army {
        id: "france-reserve".into(),
        owner: "france".into(),
        province: "paris".into(),
        levy: 1,
        spearmen: 0,
        archers: 7,
        knights: 0,
        moved_this_turn: false,
    });
    let mut backward = forward.clone();
    backward.armies.reverse();

    assert_eq!(
        forward.pending_tactical_battle_seed(),
        backward.pending_tactical_battle_seed()
    );
}
