use vstd::prelude::*;

use crate::campaign::{
    army_has_id, find_army, find_province, order_views, province_has_id, text_views,
    PendingBattle, PendingBattleView, RecruitmentOrder, RecruitmentOrderView, army_at, army_views, exists_match, faction_has_id, faction_views, find_faction, first_match,
    lemma_exists_has_first, lemma_first_match_unique, opt_text_view, sat_add_u32, turn_line, turn_prefix, unit_result, Army,
    ArmyView, CampaignError, CampaignErrorView, CampaignState, CampaignView, FactionView,
    ProvinceView, Faction, Province, clone_texts, province_views,
};
use crate::text::{decimal, decimal_text, owned};

verus! {

pub const DEFENDER_MODIFIER_PERCENT: u32 = 8;

/// Soldier counts of one side of a battle, per unit kind.
#[derive(Copy, Clone, Debug, PartialEq, Eq, Structural)]
pub struct ArmyRoster {
    pub levy: u32,
    pub spearmen: u32,
    pub archers: u32,
    pub knights: u32,
}

#[derive(Copy, Clone, Debug, PartialEq, Eq, Structural)]
pub enum BattleOutcome {
    AttackerVictory,
    DefenderVictory,
}

#[derive(Debug, PartialEq, Eq)]
pub struct BattleReport {
    pub seed: u64,
    pub turn: u32,
    pub attacker_army_id: String,
    pub attacker_faction: String,
    pub defender_faction: String,
    pub from_province: String,
    pub target_province: String,
    pub defender_modifier_percent: u32,
    pub attacker_score: u64,
    pub defender_score: u64,
    pub attacker_before: ArmyRoster,
    pub attacker_after: ArmyRoster,
    pub defender_before: ArmyRoster,
    pub defender_after: ArmyRoster,
    pub attacker_casualty_percent: u32,
    pub defender_casualty_percent: u32,
    pub outcome: BattleOutcome,
    pub captured: bool,
    pub defender_retreat_province: Option<String>,
}

pub ghost struct BattleReportView {
    pub seed: u64,
    pub turn: u32,
    pub attacker_army_id: Seq<char>,
    pub attacker_faction: Seq<char>,
    pub defender_faction: Seq<char>,
    pub from_province: Seq<char>,
    pub target_province: Seq<char>,
    pub defender_modifier_percent: u32,
    pub attacker_score: u64,
    pub defender_score: u64,
    pub attacker_before: ArmyRoster,
    pub attacker_after: ArmyRoster,
    pub defender_before: ArmyRoster,
    pub defender_after: ArmyRoster,
    pub attacker_casualty_percent: u32,
    pub defender_casualty_percent: u32,
    pub outcome: BattleOutcome,
    pub captured: bool,
    pub defender_retreat_province: Option<Seq<char>>,
}

impl View for BattleReport {
    type V = BattleReportView;

    open spec fn view(&self) -> BattleReportView {
        BattleReportView {
            seed: self.seed,
            turn: self.turn,
            attacker_army_id: self.attacker_army_id@,
            attacker_faction: self.attacker_faction@,
            defender_faction: self.defender_faction@,
            from_province: self.from_province@,
            target_province: self.target_province@,
            defender_modifier_percent: self.defender_modifier_percent,
            attacker_score: self.attacker_score,
            defender_score: self.defender_score,
            attacker_before: self.attacker_before,
            attacker_after: self.attacker_after,
            defender_before: self.defender_before,
            defender_after: self.defender_after,
            attacker_casualty_percent: self.attacker_casualty_percent,
            defender_casualty_percent: self.defender_casualty_percent,
            outcome: self.outcome,
            captured: self.captured,
            defender_retreat_province: crate::campaign::opt_text_view(
                self.defender_retreat_province,
            ),
        }
    }
}

impl Clone for BattleReport {
    fn clone(&self) -> (copy: Self)
        ensures
            copy == *self,
    {
        BattleReport {
            seed: self.seed,
            turn: self.turn,
            attacker_army_id: self.attacker_army_id.clone(),
            attacker_faction: self.attacker_faction.clone(),
            defender_faction: self.defender_faction.clone(),
            from_province: self.from_province.clone(),
            target_province: self.target_province.clone(),
            defender_modifier_percent: self.defender_modifier_percent,
            attacker_score: self.attacker_score,
            defender_score: self.defender_score,
            attacker_before: self.attacker_before,
            attacker_after: self.attacker_after,
            defender_before: self.defender_before,
            defender_after: self.defender_after,
            attacker_casualty_percent: self.attacker_casualty_percent,
            defender_casualty_percent: self.defender_casualty_percent,
            outcome: self.outcome,
            captured: self.captured,
            defender_retreat_province: match &self.defender_retreat_province {
                Some(province) => Some(province.clone()),
                None => None,
            },
        }
    }
}

// ---------------------------------------------------------------------------
// Deterministic pseudo-random mixing
// ---------------------------------------------------------------------------

pub open spec fn wrap_mul_u64(a: u64, b: u64) -> u64 {
    ((a as nat * b as nat) % 0x1_0000_0000_0000_0000nat) as u64
}

/// A xorshift-multiply mix of a seed with a salt.
pub open spec fn spec_mix(seed: u64, salt: u64) -> u64 {
    let v0 = seed ^ salt ^ 0x9E37_79B9_7F4A_7C15u64;
    let v1 = v0 ^ (v0 >> 12u64);
    let v2 = v1 ^ (v1 << 25u64);
    let v3 = v2 ^ (v2 >> 27u64);
    wrap_mul_u64(v3, 0x2545_F491_4F6C_DD1Du64)
}

pub fn mix(seed: u64, salt: u64) -> (mixed: u64)
    ensures
        mixed == spec_mix(seed, salt),
{
    let mut value = seed ^ salt ^ 0x9E37_79B9_7F4A_7C15u64;
    value = value ^ (value >> 12u64);
    value = value ^ (value << 25u64);
    value = value ^ (value >> 27u64);
    value.wrapping_mul(0x2545_F491_4F6C_DD1Du64)
}

/// 64-bit FNV-1a over a byte string.
pub open spec fn spec_fnv(bytes: Seq<u8>) -> u64
    decreases bytes.len(),
{
    if bytes.len() == 0 {
        0xcbf2_9ce4_8422_2325u64
    } else {
        wrap_mul_u64(spec_fnv(bytes.drop_last()) ^ (bytes.last() as u64), 0x0000_0100_0000_01B3u64)
    }
}

pub open spec fn spec_hash_text(text: Seq<char>) -> u64 {
    spec_fnv(vstd::utf8::encode_utf8(text))
}

/// FNV-1a of the UTF-8 bytes of a text.
pub fn hash_text(text: &str) -> (hash: u64)
    ensures
        hash == spec_hash_text(text@),
{
    let bytes = text.as_bytes();
    let mut hash: u64 = 0xcbf2_9ce4_8422_2325u64;
    let mut i: usize = 0;
    while i < bytes.len()
        invariant
            i <= bytes@.len(),
            bytes@ == vstd::utf8::encode_utf8(text@),
            hash == spec_fnv(bytes@.take(i as int)),
        decreases bytes@.len() - i,
    {
        proof {
            assert(bytes@.take(i + 1).drop_last() =~= bytes@.take(i as int));
        }
        hash = (hash ^ bytes[i] as u64).wrapping_mul(0x0000_0100_0000_01B3u64);
        i += 1;
    }
    assert(bytes@.take(bytes@.len() as int) =~= bytes@);
    hash
}

// ---------------------------------------------------------------------------
// Rosters, casualties and scores
// ---------------------------------------------------------------------------

pub open spec fn sat_mul_u64(a: u64, b: u64) -> u64 {
    if a as int * b as int <= u64::MAX { (a * b) as u64 } else { u64::MAX }
}

pub open spec fn roster_of(army: ArmyView) -> ArmyRoster {
    ArmyRoster {
        levy: army.levy as u32,
        spearmen: army.spearmen as u32,
        archers: army.archers as u32,
        knights: army.knights as u32,
    }
}

pub open spec fn add_rosters(total: ArmyRoster, roster: ArmyRoster) -> ArmyRoster {
    ArmyRoster {
        levy: sat_add_u32(total.levy, roster.levy),
        spearmen: sat_add_u32(total.spearmen, roster.spearmen),
        archers: sat_add_u32(total.archers, roster.archers),
        knights: sat_add_u32(total.knights, roster.knights),
    }
}

pub open spec fn empty_roster() -> ArmyRoster {
    ArmyRoster { levy: 0, spearmen: 0, archers: 0, knights: 0 }
}

/// The summed roster, in storage order, of the armies satisfying `p`.
pub open spec fn roster_total(armies: Seq<ArmyView>, p: spec_fn(ArmyView) -> bool) -> ArmyRoster
    decreases armies.len(),
{
    if armies.len() == 0 {
        empty_roster()
    } else {
        let total = roster_total(armies.drop_last(), p);
        if p(armies.last()) {
            add_rosters(total, roster_of(armies.last()))
        } else {
            total
        }
    }
}

impl ArmyRoster {
    pub open spec fn spec_soldiers(self) -> u32 {
        sat_add_u32(sat_add_u32(sat_add_u32(self.levy, self.spearmen), self.archers), self.knights)
    }

    /// Fighting strength: levy count once, spearmen and archers twice, knights five times.
    pub open spec fn spec_strength(self) -> u64 {
        (self.levy as int + self.spearmen as int * 2 + self.archers as int * 2 + self.knights as int
            * 5) as u64
    }

    pub fn soldiers(&self) -> (soldiers: u32)
        ensures
            soldiers == self.spec_soldiers(),
    {
        self.levy.saturating_add(self.spearmen).saturating_add(self.archers).saturating_add(
            self.knights,
        )
    }

    pub fn strength(&self) -> (strength: u64)
        ensures
            strength == self.spec_strength(),
    {
        self.levy as u64 + self.spearmen as u64 * 2 + self.archers as u64 * 2 + self.knights as u64
            * 5
    }
}

/// Survivors of a group after losing `percent` of it, casualties rounded down.
pub open spec fn spec_survivors(count: u16, casualty_percent: u32) -> u16 {
    let percent: int = if casualty_percent < 100 { casualty_percent as int } else { 100 };
    (count as int - (count as int * percent) / 100) as u16
}

pub open spec fn spec_apply_casualties(army: ArmyView, casualty_percent: u32) -> ArmyView {
    ArmyView {
        levy: spec_survivors(army.levy, casualty_percent),
        spearmen: spec_survivors(army.spearmen, casualty_percent),
        archers: spec_survivors(army.archers, casualty_percent),
        knights: spec_survivors(army.knights, casualty_percent),
        ..army
    }
}

pub open spec fn spec_army_soldiers(army: ArmyView) -> u32 {
    roster_of(army).spec_soldiers()
}

/// A score of `strength` times a pseudo-random factor from 90 to 110.
pub open spec fn spec_rolled_score(strength: u64, seed: u64, salt: u64) -> u64 {
    sat_mul_u64(strength, (90 + spec_mix(seed, salt) % 21) as u64)
}

/// A pseudo-random percentage in `min..max_exclusive`.
pub open spec fn spec_casualty_percent(seed: u64, salt: u64, min: u32, max_exclusive: u32) -> u32 {
    (min + spec_mix(seed, salt) % ((max_exclusive - min) as u64)) as u32
}

pub fn survivors(count: u16, casualty_percent: u32) -> (left: u16)
    ensures
        left == spec_survivors(count, casualty_percent),
        left <= count,
{
    let percent = if casualty_percent < 100 { casualty_percent } else { 100 };
    proof {
        assert(count as int * percent as int <= count as int * 100) by (nonlinear_arith)
            requires
                percent <= 100,
        ;
        assert((count as int * percent as int) / 100 <= count as int) by (nonlinear_arith)
            requires
                count as int * percent as int <= count as int * 100,
        ;
    }
    let casualties = (count as u32 * percent) / 100;
    count - casualties as u16
}

fn apply_casualties(army: &mut Army, casualty_percent: u32)
    ensures
        final(army)@ == spec_apply_casualties(old(army)@, casualty_percent),
{
    army.levy = survivors(army.levy, casualty_percent);
    army.spearmen = survivors(army.spearmen, casualty_percent);
    army.archers = survivors(army.archers, casualty_percent);
    army.knights = survivors(army.knights, casualty_percent);
}

fn roster_from_army(army: &Army) -> (roster: ArmyRoster)
    ensures
        roster == roster_of(army@),
{
    ArmyRoster {
        levy: army.levy as u32,
        spearmen: army.spearmen as u32,
        archers: army.archers as u32,
        knights: army.knights as u32,
    }
}

fn defender_roster(armies: &Vec<Army>, defender: &String, target: &String) -> (roster: ArmyRoster)
    ensures
        roster == roster_total(army_views(armies@), army_at(defender@, target@)),
{
    let ghost views = army_views(armies@);
    let mut total = ArmyRoster { levy: 0, spearmen: 0, archers: 0, knights: 0 };
    let mut i: usize = 0;
    while i < armies.len()
        invariant
            i <= armies.len(),
            views == army_views(armies@),
            total == roster_total(views.take(i as int), army_at(defender@, target@)),
        decreases armies.len() - i,
    {
        proof {
            assert(views.take(i + 1).drop_last() =~= views.take(i as int));
            assert(views.take(i + 1).last() == armies@[i as int]@);
        }
        if armies[i].owner == *defender && armies[i].province == *target {
            let roster = roster_from_army(&armies[i]);
            total = ArmyRoster {
                levy: total.levy.saturating_add(roster.levy),
                spearmen: total.spearmen.saturating_add(roster.spearmen),
                archers: total.archers.saturating_add(roster.archers),
                knights: total.knights.saturating_add(roster.knights),
            };
        }
        i += 1;
    }
    assert(views.take(views.len() as int) =~= views);
    total
}

fn army_soldiers(army: &Army) -> (soldiers: u32)
    ensures
        soldiers == spec_army_soldiers(army@),
{
    roster_from_army(army).soldiers()
}

fn rolled_score(strength: u64, seed: u64, salt: u64) -> (score: u64)
    ensures
        score == spec_rolled_score(strength, seed, salt),
{
    let factor = 90 + mix(seed, salt) % 21;
    match strength.checked_mul(factor) {
        Some(score) => score,
        None => u64::MAX,
    }
}

fn casualty_percent(seed: u64, salt: u64, min: u32, max_exclusive: u32) -> (percent: u32)
    requires
        min < max_exclusive <= 100,
    ensures
        percent == spec_casualty_percent(seed, salt, min, max_exclusive),
        min <= percent < max_exclusive,
{
    let width = (max_exclusive - min) as u64;
    min + (mix(seed, salt) % width) as u32
}

// ---------------------------------------------------------------------------
// Victory
// ---------------------------------------------------------------------------

pub open spec fn owns_province(faction: Seq<char>) -> spec_fn(ProvinceView) -> bool {
    |p: ProvinceView| p.owner == faction
}

pub open spec fn owns_army(faction: Seq<char>) -> spec_fn(ArmyView) -> bool {
    |a: ArmyView| a.owner == faction
}

impl CampaignView {
    /// The faction controls every province (and there is at least one).
    pub open spec fn owns_all(self, faction: Seq<char>) -> bool {
        self.provinces.len() > 0 && forall|i: int|
            0 <= i < self.provinces.len() ==> #[trigger] self.provinces[i].owner == faction
    }

    /// The faction still controls a province or fields an army.
    pub open spec fn is_alive(self, faction: Seq<char>) -> bool {
        exists_match(self.provinces, owns_province(faction)) || exists_match(
            self.armies,
            owns_army(faction),
        )
    }

    pub open spec fn controls_everything(self) -> spec_fn(FactionView) -> bool {
        |f: FactionView| self.owns_all(f.id)
    }

    pub open spec fn living(self) -> spec_fn(FactionView) -> bool {
        |f: FactionView| self.is_alive(f.id)
    }

    /// The first faction that controls every province wins; otherwise the only
    /// faction still alive wins; otherwise nobody has won yet.
    pub open spec fn spec_winner(self) -> Option<Seq<char>> {
        if exists_match(self.factions, self.controls_everything()) {
            Some(self.factions[first_match(self.factions, self.controls_everything())].id)
        } else {
            let living = self.factions.filter(self.living());
            if living.len() == 1 {
                Some(living[0].id)
            } else {
                None
            }
        }
    }

    /// The chosen faction becomes active with its economy already settled for
    /// this turn; every other faction's economy is reset and every army may move.
    pub open spec fn spec_select_player_faction(self, faction_id: Seq<char>) -> (
        CampaignView,
        Result<(), CampaignErrorView>,
    ) {
        if !self.has_faction(faction_id) {
            (self, Err(CampaignErrorView::FactionNotFound(faction_id)))
        } else {
            (
                CampaignView {
                    active_faction: faction_id,
                    factions: self.factions.map_values(
                        |f: FactionView|
                            FactionView {
                                last_economy_turn: if f.id == faction_id {
                                    Some(self.turn)
                                } else {
                                    None
                                },
                                ..f
                            },
                    ),
                    armies: self.armies.map_values(
                        |a: ArmyView| ArmyView { moved_this_turn: false, ..a },
                    ),
                    pending_battle: None,
                    log: self.log.push(chosen_line(self.turn, self.faction_name(faction_id))),
                    ..self
                },
                Ok(()),
            )
        }
    }
}

pub open spec fn chosen_line(turn: u32, faction_name: Seq<char>) -> Seq<char> {
    turn_prefix(turn) + faction_name + " is chosen as the player faction."@
}

impl CampaignState {
    fn owns_all(&self, faction: &String) -> (owns: bool)
        ensures
            owns == self@.owns_all(faction@),
    {
        if self.provinces.len() == 0 {
            return false;
        }
        let mut i: usize = 0;
        while i < self.provinces.len()
            invariant
                i <= self.provinces.len(),
                forall|j: int| 0 <= j < i ==> #[trigger] self@.provinces[j].owner == faction@,
            decreases self.provinces.len() - i,
        {
            if self.provinces[i].owner != *faction {
                assert(self@.provinces[i as int].owner != faction@);
                return false;
            }
            i += 1;
        }
        true
    }

    fn is_alive(&self, faction: &String) -> (alive: bool)
        ensures
            alive == self@.is_alive(faction@),
    {
        let mut i: usize = 0;
        while i < self.provinces.len()
            invariant
                i <= self.provinces.len(),
                forall|j: int| 0 <= j < i ==> !owns_province(faction@)(#[trigger] self@.provinces[j]),
            decreases self.provinces.len() - i,
        {
            if self.provinces[i].owner == *faction {
                assert(owns_province(faction@)(self@.provinces[i as int]));
                return true;
            }
            i += 1;
        }
        let mut k: usize = 0;
        while k < self.armies.len()
            invariant
                k <= self.armies.len(),
                !exists_match(self@.provinces, owns_province(faction@)),
                forall|j: int| 0 <= j < k ==> !owns_army(faction@)(#[trigger] self@.armies[j]),
            decreases self.armies.len() - k,
        {
            if self.armies[k].owner == *faction {
                assert(owns_army(faction@)(self@.armies[k as int]));
                return true;
            }
            k += 1;
        }
        false
    }

    /// The authoritative winning faction, if the campaign is over.
    pub fn winner(&self) -> (winner: Option<String>)
        ensures
            opt_text_view(winner) == self@.spec_winner(),
    {
        let ghost views = self@.factions;
        let mut i: usize = 0;
        while i < self.factions.len()
            invariant
                i <= self.factions.len(),
                views == self@.factions,
                forall|j: int| 0 <= j < i ==> !self@.controls_everything()(#[trigger] views[j]),
            decreases self.factions.len() - i,
        {
            if self.owns_all(&self.factions[i].id) {
                proof {
                    lemma_first_match_unique(views, self@.controls_everything(), i as int);
                }
                return Some(self.factions[i].id.clone());
            }
            i += 1;
        }
        let mut count: usize = 0;
        let mut first: Option<usize> = None;
        let mut k: usize = 0;
        while k < self.factions.len()
            invariant
                k <= self.factions.len(),
                views == self@.factions,
                count == views.take(k as int).filter(self@.living()).len(),
                count <= k,
                count == 0 <==> first is None,
                first matches Some(f) ==> f < self.factions.len() && views.take(
                    k as int,
                ).filter(self@.living())[0] == views[f as int],
            decreases self.factions.len() - k,
        {
            proof {
                reveal(Seq::filter);
                assert(views.take(k + 1).drop_last() =~= views.take(k as int));
            }
            if self.is_alive(&self.factions[k].id) {
                if first.is_none() {
                    first = Some(k);
                }
                count = count + 1;
            }
            k += 1;
        }
        proof {
            assert(views.take(views.len() as int) =~= views);
        }
        if count == 1 {
            match first {
                Some(f) => Some(self.factions[f].id.clone()),
                None => None,
            }
        } else {
            None
        }
    }

    /// Configures a fresh campaign so the chosen faction takes the first human
    /// turn without a synthetic economy tick.
    pub fn select_player_faction(&mut self, faction_id: &str) -> (result: Result<
        (),
        CampaignError,
    >)
        ensures
            final(self)@ == old(self)@.spec_select_player_faction(faction_id@).0,
            unit_result(result) == old(self)@.spec_select_player_faction(faction_id@).1,
    {
        let id = owned(faction_id);
        match find_faction(&self.factions, &id) {
            Some(index) => {
                proof {
                    lemma_first_match_unique(self@.factions, faction_has_id(id@), index as int);
                }
            },
            None => return Err(CampaignError::FactionNotFound(id)),
        }
        let ghost old_view = self@;
        let name = self.faction_name(&id);
        let mut i: usize = 0;
        while i < self.factions.len()
            invariant
                i <= self.factions.len(),
                self.factions.len() == old_view.factions.len(),
                self@ =~= (CampaignView { factions: faction_views(self.factions@), ..old_view }),
                forall|j: int|
                    0 <= j < i ==> #[trigger] faction_views(self.factions@)[j] == (FactionView {
                        last_economy_turn: if old_view.factions[j].id == id@ {
                            Some(old_view.turn)
                        } else {
                            None
                        },
                        ..old_view.factions[j]
                    }),
                forall|j: int|
                    i <= j < self.factions.len() ==> #[trigger] faction_views(self.factions@)[j]
                        == old_view.factions[j],
            decreases self.factions.len() - i,
        {
            let ghost before = self.factions@;
            assert(faction_views(before)[i as int] == old_view.factions[i as int]);
            let last = if self.factions[i].id == id {
                Some(self.turn)
            } else {
                None
            };
            self.factions[i].last_economy_turn = last;
            proof {
                assert(self.factions@[i as int]@ == (FactionView {
                    last_economy_turn: if old_view.factions[i as int].id == id@ {
                        Some(old_view.turn)
                    } else {
                        None
                    },
                    ..old_view.factions[i as int]
                }));
                assert forall|j: int| 0 <= j < self.factions.len() && j != i implies #[trigger] faction_views(self.factions@)[j]
                    == faction_views(before)[j] by {
                    assert(self.factions@[j] == before[j]);
                }
            }
            i += 1;
        }
        let ghost mid = self@;
        let mut k: usize = 0;
        while k < self.armies.len()
            invariant
                k <= self.armies.len(),
                self.armies.len() == old_view.armies.len(),
                self@ =~= (CampaignView { armies: army_views(self.armies@), ..mid }),
                forall|j: int|
                    0 <= j < k ==> #[trigger] army_views(self.armies@)[j] == (ArmyView {
                        moved_this_turn: false,
                        ..old_view.armies[j]
                    }),
                forall|j: int|
                    k <= j < self.armies.len() ==> #[trigger] army_views(self.armies@)[j]
                        == old_view.armies[j],
            decreases self.armies.len() - k,
        {
            let ghost before = self.armies@;
            assert(army_views(before)[k as int] == old_view.armies[k as int]);
            self.armies[k].moved_this_turn = false;
            proof {
                assert(self.armies@[k as int]@ == (ArmyView {
                    moved_this_turn: false,
                    ..old_view.armies[k as int]
                }));
                assert forall|j: int| 0 <= j < self.armies.len() && j != k implies #[trigger] army_views(self.armies@)[j]
                    == army_views(before)[j] by {
                    assert(self.armies@[j] == before[j]);
                }
            }
            k += 1;
        }
        self.active_faction = id;
        self.pending_battle = None;
        let mut line = turn_line(self.turn);
        line.append(name.as_str());
        line.append(" is chosen as the player faction.");
        self.log.push(line);
        proof {
            let expected = old_view.spec_select_player_faction(faction_id@).0;
            assert(self@.factions =~= expected.factions);
            assert(self@.armies =~= expected.armies);
            assert(self@.log =~= expected.log);
        }
        Ok(())
    }
}

// ---------------------------------------------------------------------------
// Battle resolution
// ---------------------------------------------------------------------------

pub open spec fn not_at(owner: Seq<char>, province: Seq<char>) -> spec_fn(ArmyView) -> bool {
    |a: ArmyView| !(a.owner == owner && a.province == province)
}

pub open spec fn has_soldiers() -> spec_fn(ArmyView) -> bool {
    |a: ArmyView| spec_army_soldiers(a) > 0
}

pub open spec fn order_not_in(faction: Seq<char>, province: Seq<char>) -> spec_fn(
    RecruitmentOrderView,
) -> bool {
    |o: RecruitmentOrderView| !(o.faction_id == faction && o.province_id == province)
}

pub open spec fn held_by(province: Seq<char>, faction: Seq<char>) -> spec_fn(ProvinceView) -> bool {
    |q: ProvinceView| q.id == province && q.owner == faction
}

/// A province id that `defender` holds among `provinces`.
pub open spec fn holds_neighbor(provinces: Seq<ProvinceView>, defender: Seq<char>) -> spec_fn(
    Seq<char>,
) -> bool {
    |n: Seq<char>| exists_match(provinces, held_by(n, defender))
}

pub open spec fn cancel_line(turn: u32, cancelled: nat, province: Seq<char>) -> Seq<char> {
    turn_prefix(turn) + decimal(cancelled) + " queued recruitment order(s) in "@ + province
        + " are cancelled after capture."@
}

pub open spec fn outcome_line(turn: u32, report: BattleReportView) -> Seq<char> {
    match report.outcome {
        BattleOutcome::AttackerVictory => turn_prefix(turn) + report.attacker_faction
            + " captures "@ + report.target_province + " after battle seed "@ + decimal(
            report.seed as nat,
        ) + "."@,
        BattleOutcome::DefenderVictory => turn_prefix(turn) + report.defender_faction + " holds "@
            + report.target_province + " after battle seed "@ + decimal(report.seed as nat) + "."@,
    }
}

pub open spec fn won_line(turn: u32, faction_name: Seq<char>) -> Seq<char> {
    turn_prefix(turn) + faction_name + " has won the campaign."@
}

pub open spec fn spec_defender_score(defender_raw: u64) -> u64 {
    (sat_mul_u64(defender_raw, 108) / 100) as u64
}

impl CampaignView {
    /// The first neighbour of the target province that the defender still
    /// holds, if the target is known.
    pub open spec fn spec_retreat(self, pending: PendingBattleView) -> Option<Seq<char>> {
        if self.has_province(pending.target_province) {
            let neighbors = self.province(pending.target_province).neighbors;
            let holds = holds_neighbor(self.provinces, pending.defender_faction);
            if exists_match(neighbors, holds) {
                Some(neighbors[first_match(neighbors, holds)])
            } else {
                None
            }
        } else {
            None
        }
    }

    /// The battle report of resolving the pending battle with `seed`.
    pub open spec fn spec_report(self, pending: PendingBattleView, seed: u64) -> BattleReportView {
        let ai = self.army_index(pending.attacker_army_id);
        let defending = army_at(pending.defender_faction, pending.target_province);
        let attacker_before = roster_of(self.armies[ai]);
        let defender_before = roster_total(self.armies, defending);
        let attacker_score = spec_rolled_score(attacker_before.spec_strength(), seed, 0xA771_A771);
        let defender_score = spec_defender_score(
            spec_rolled_score(defender_before.spec_strength(), seed, 0xD3F3_D3F3),
        );
        let outcome = if attacker_score > defender_score {
            BattleOutcome::AttackerVictory
        } else {
            BattleOutcome::DefenderVictory
        };
        let attacker_casualty_percent = match outcome {
            BattleOutcome::AttackerVictory => spec_casualty_percent(seed, 0xA11A, 20, 36),
            BattleOutcome::DefenderVictory => spec_casualty_percent(seed, 0xA22A, 65, 86),
        };
        let defender_casualty_percent = match outcome {
            BattleOutcome::AttackerVictory => spec_casualty_percent(seed, 0xD11D, 65, 86),
            BattleOutcome::DefenderVictory => spec_casualty_percent(seed, 0xD22D, 20, 36),
        };
        let armies = self.spec_casualty_armies(pending, attacker_casualty_percent, defender_casualty_percent);
        let attacker_after = roster_of(armies[ai]);
        let defender_after = roster_total(armies, defending);
        BattleReportView {
            seed,
            turn: self.turn,
            attacker_army_id: pending.attacker_army_id,
            attacker_faction: pending.attacker_faction,
            defender_faction: pending.defender_faction,
            from_province: pending.from_province,
            target_province: pending.target_province,
            defender_modifier_percent: DEFENDER_MODIFIER_PERCENT,
            attacker_score,
            defender_score,
            attacker_before,
            attacker_after,
            defender_before,
            defender_after,
            attacker_casualty_percent,
            defender_casualty_percent,
            outcome,
            captured: outcome is AttackerVictory,
            defender_retreat_province: if outcome is AttackerVictory
                && defender_after.spec_soldiers() > 0 {
                self.spec_retreat(pending)
            } else {
                None
            },
        }
    }

    /// Casualties of the attacking army first, then of every defending army
    /// in the target province.
    pub open spec fn spec_casualty_armies(
        self,
        pending: PendingBattleView,
        attacker_percent: u32,
        defender_percent: u32,
    ) -> Seq<ArmyView> {
        let ai = self.army_index(pending.attacker_army_id);
        let defending = army_at(pending.defender_faction, pending.target_province);
        let hit = self.armies.update(ai, spec_apply_casualties(self.armies[ai], attacker_percent));
        Seq::new(
            self.armies.len(),
            |j: int|
                if defending(self.armies[j]) {
                    spec_apply_casualties(hit[j], defender_percent)
                } else {
                    hit[j]
                },
        )
    }

    /// The armies after the battle: on capture the attacker occupies the
    /// target and the defenders retreat to the given province, or are
    /// disbanded when there is none; armies without soldiers are removed.
    pub open spec fn spec_armies_after_battle(self, pending: PendingBattleView, report: BattleReportView) -> Seq<ArmyView> {
        let ai = self.army_index(pending.attacker_army_id);
        let defending = army_at(pending.defender_faction, pending.target_province);
        let hit = self.spec_casualty_armies(
            pending,
            report.attacker_casualty_percent,
            report.defender_casualty_percent,
        );
        let occupied = if report.captured {
            hit.update(ai, ArmyView { province: pending.target_province, ..hit[ai] })
        } else {
            hit
        };
        let retreated = match report.defender_retreat_province {
            Some(retreat) if report.captured => Seq::new(
                occupied.len(),
                |j: int|
                    if defending(self.armies[j]) {
                        ArmyView { province: retreat, moved_this_turn: true, ..occupied[j] }
                    } else {
                        occupied[j]
                    },
            ),
            _ => occupied,
        };
        let disbanded = if report.captured && report.defender_retreat_province is None {
            retreated.filter(not_at(pending.defender_faction, pending.target_province))
        } else {
            retreated
        };
        disbanded.filter(has_soldiers())
    }

    /// The state after a resolved battle, before the victory check.
    pub open spec fn spec_after_battle(self, pending: PendingBattleView, report: BattleReportView) -> CampaignView {
        let queue = if report.captured {
            self.recruitment_queue.filter(
                order_not_in(pending.defender_faction, pending.target_province),
            )
        } else {
            self.recruitment_queue
        };
        let cancelled = (self.recruitment_queue.len() - queue.len()) as nat;
        let log = if report.captured && cancelled > 0 {
            self.log.push(cancel_line(self.turn, cancelled, pending.target_province))
        } else {
            self.log
        };
        CampaignView {
            provinces: if report.captured && self.has_province(pending.target_province) {
                self.provinces.update(
                    self.province_index(pending.target_province),
                    ProvinceView {
                        owner: pending.attacker_faction,
                        ..self.province(pending.target_province)
                    },
                )
            } else {
                self.provinces
            },
            armies: self.spec_armies_after_battle(pending, report),
            pending_battle: None,
            recruitment_queue: queue,
            battle_reports: self.battle_reports.push(report),
            log: log.push(outcome_line(self.turn, report)),
            ..self
        }
    }

    /// Resolves the pending battle deterministically from `seed` and logs the
    /// victory when the battle decides the campaign.
    pub open spec fn spec_resolve_pending_battle(self, seed: u64) -> (
        CampaignView,
        Result<BattleReportView, CampaignErrorView>,
    ) {
        match self.pending_battle {
            None => (self, Err(CampaignErrorView::NoPendingBattle)),
            Some(pending) => if !self.has_army(pending.attacker_army_id) {
                (self, Err(CampaignErrorView::ArmyNotFound(pending.attacker_army_id)))
            } else {
                let report = self.spec_report(pending, seed);
                let after = self.spec_after_battle(pending, report);
                let decided = match after.spec_winner() {
                    Some(winner) => after.with_log(won_line(self.turn, after.faction_name(winner))),
                    None => after,
                };
                (decided, Ok(report))
            },
        }
    }
}

pub open spec fn report_result(r: Result<BattleReport, CampaignError>) -> Result<
    BattleReportView,
    CampaignErrorView,
> {
    match r {
        Ok(report) => Ok(report@),
        Err(e) => Err(e@),
    }
}

fn retain_not_at(armies: &Vec<Army>, owner: &String, province: &String) -> (kept: Vec<Army>)
    ensures
        army_views(kept@) == army_views(armies@).filter(not_at(owner@, province@)),
{
    let ghost views = army_views(armies@);
    let mut kept: Vec<Army> = Vec::new();
    let mut i: usize = 0;
    while i < armies.len()
        invariant
            i <= armies.len(),
            views == army_views(armies@),
            army_views(kept@) == views.take(i as int).filter(not_at(owner@, province@)),
        decreases armies.len() - i,
    {
        proof {
            reveal(Seq::filter);
            assert(views.take(i + 1).drop_last() =~= views.take(i as int));
        }
        if !(armies[i].owner == *owner && armies[i].province == *province) {
            kept.push(armies[i].clone());
            proof {
                assert(army_views(kept@) =~= army_views(kept@).drop_last().push(armies@[i as int]@));
            }
        }
        i += 1;
    }
    assert(views.take(views.len() as int) =~= views);
    kept
}

fn retain_living(armies: &Vec<Army>) -> (kept: Vec<Army>)
    ensures
        army_views(kept@) == army_views(armies@).filter(has_soldiers()),
{
    let ghost views = army_views(armies@);
    let mut kept: Vec<Army> = Vec::new();
    let mut i: usize = 0;
    while i < armies.len()
        invariant
            i <= armies.len(),
            views == army_views(armies@),
            army_views(kept@) == views.take(i as int).filter(has_soldiers()),
        decreases armies.len() - i,
    {
        proof {
            reveal(Seq::filter);
            assert(views.take(i + 1).drop_last() =~= views.take(i as int));
        }
        if army_soldiers(&armies[i]) > 0 {
            kept.push(armies[i].clone());
            proof {
                assert(army_views(kept@) =~= army_views(kept@).drop_last().push(armies@[i as int]@));
            }
        }
        i += 1;
    }
    assert(views.take(views.len() as int) =~= views);
    kept
}

fn retain_orders(queue: &Vec<RecruitmentOrder>, faction: &String, province: &String) -> (kept: Vec<
    RecruitmentOrder,
>)
    ensures
        order_views(kept@) == order_views(queue@).filter(order_not_in(faction@, province@)),
{
    let ghost views = order_views(queue@);
    let mut kept: Vec<RecruitmentOrder> = Vec::new();
    let mut i: usize = 0;
    while i < queue.len()
        invariant
            i <= queue.len(),
            views == order_views(queue@),
            order_views(kept@) == views.take(i as int).filter(order_not_in(faction@, province@)),
        decreases queue.len() - i,
    {
        proof {
            reveal(Seq::filter);
            assert(views.take(i + 1).drop_last() =~= views.take(i as int));
        }
        if !(queue[i].faction_id == *faction && queue[i].province_id == *province) {
            kept.push(queue[i].clone());
            proof {
                assert(order_views(kept@) =~= order_views(kept@).drop_last().push(queue@[i as int]@));
            }
        }
        i += 1;
    }
    assert(views.take(views.len() as int) =~= views);
    kept
}

impl CampaignState {
    fn holds_province(&self, province: &String, faction: &String) -> (held: bool)
        ensures
            held == exists_match(self@.provinces, held_by(province@, faction@)),
    {
        let mut i: usize = 0;
        while i < self.provinces.len()
            invariant
                i <= self.provinces.len(),
                forall|j: int| 0 <= j < i ==> !held_by(province@, faction@)(#[trigger] self@.provinces[j]),
            decreases self.provinces.len() - i,
        {
            if self.provinces[i].id == *province && self.provinces[i].owner == *faction {
                assert(held_by(province@, faction@)(self@.provinces[i as int]));
                return true;
            }
            i += 1;
        }
        false
    }

    fn retreat_province(&self, pending: &PendingBattle) -> (retreat: Option<String>)
        ensures
            opt_text_view(retreat) == self@.spec_retreat(pending@),
    {
        let target = match find_province(&self.provinces, &pending.target_province) {
            Some(target) => target,
            None => return None,
        };
        proof {
            lemma_first_match_unique(self@.provinces, province_has_id(pending.target_province@), target as int);
        }
        let neighbors = &self.provinces[target].neighbors;
        let ghost ns = self@.province(pending.target_province@).neighbors;
        let ghost holds = holds_neighbor(self@.provinces, pending.defender_faction@);
        assert(ns == text_views(neighbors@));
        let mut k: usize = 0;
        while k < neighbors.len()
            invariant
                k <= neighbors.len(),
                ns == text_views(neighbors@),
                ns == self@.province(pending.target_province@).neighbors,
                self@.has_province(pending.target_province@),
                holds == holds_neighbor(self@.provinces, pending.defender_faction@),
                forall|j: int| 0 <= j < k ==> !holds(#[trigger] ns[j]),
            decreases neighbors.len() - k,
        {
            if self.holds_province(&neighbors[k], &pending.defender_faction) {
                proof {
                    assert(ns[k as int] == neighbors@[k as int]@);
                    assert(holds(ns[k as int]));
                    lemma_first_match_unique(ns, holds, k as int);
                }
                return Some(neighbors[k].clone());
            }
            k += 1;
        }
        None
    }

    /// Resolves the pending battle from `seed`: scores, casualties, capture,
    /// retreat or disbanding, report, and the victory check.
    pub fn resolve_pending_battle(&mut self, seed: u64) -> (report: Result<
        BattleReport,
        CampaignError,
    >)
        ensures
            final(self)@ == old(self)@.spec_resolve_pending_battle(seed).0,
            report_result(report) == old(self)@.spec_resolve_pending_battle(seed).1,
    {
        let pending = match &self.pending_battle {
            Some(pending) => pending.clone(),
            None => return Err(CampaignError::NoPendingBattle),
        };
        let ai = match find_army(&self.armies, &pending.attacker_army_id) {
            Some(ai) => ai,
            None => return Err(CampaignError::ArmyNotFound(pending.attacker_army_id.clone())),
        };
        proof {
            lemma_first_match_unique(self@.armies, army_has_id(pending.attacker_army_id@), ai as int);
        }
        let ghost s0 = self@;
        let ghost defending = army_at(pending.defender_faction@, pending.target_province@);
        let attacker_before = roster_from_army(&self.armies[ai]);
        let defender_before = defender_roster(&self.armies, &pending.defender_faction, &pending.target_province);
        let attacker_score = rolled_score(attacker_before.strength(), seed, 0xA771_A771);
        let defender_raw = rolled_score(defender_before.strength(), seed, 0xD3F3_D3F3);
        let defender_score = match defender_raw.checked_mul(100 + DEFENDER_MODIFIER_PERCENT as u64) {
            Some(product) => product / 100,
            None => u64::MAX / 100,
        };
        let attacker_wins = attacker_score > defender_score;
        let outcome = if attacker_wins {
            BattleOutcome::AttackerVictory
        } else {
            BattleOutcome::DefenderVictory
        };
        let (attacker_casualty_percent, defender_casualty_percent) = if attacker_wins {
            (casualty_percent(seed, 0xA11A, 20, 36), casualty_percent(seed, 0xD11D, 65, 86))
        } else {
            (casualty_percent(seed, 0xA22A, 65, 86), casualty_percent(seed, 0xD22D, 20, 36))
        };
        // Which armies defend is fixed before any casualty is applied.
        let mut flags: Vec<bool> = Vec::new();
        let mut j: usize = 0;
        while j < self.armies.len()
            invariant
                j <= self.armies.len(),
                self@ == s0,
                defending == army_at(pending.defender_faction@, pending.target_province@),
                flags@.len() == j,
                forall|k: int| 0 <= k < j ==> flags@[k] == defending(#[trigger] s0.armies[k]),
            decreases self.armies.len() - j,
        {
            flags.push(self.armies[j].owner == pending.defender_faction && self.armies[j].province
                == pending.target_province);
            j += 1;
        }
        let ghost hit = s0.armies.update(ai as int, spec_apply_casualties(s0.armies[ai as int], attacker_casualty_percent));
        apply_casualties(&mut self.armies[ai], attacker_casualty_percent);
        assert(army_views(self.armies@) =~= hit);
        let ghost mid = self@;
        let mut j: usize = 0;
        while j < self.armies.len()
            invariant
                j <= self.armies.len(),
                self.armies.len() == s0.armies.len(),
                flags@.len() == s0.armies.len(),
                forall|k: int| 0 <= k < flags@.len() ==> flags@[k] == defending(#[trigger] s0.armies[k]),
                defending == army_at(pending.defender_faction@, pending.target_province@),
                self@ =~= (CampaignView { armies: army_views(self.armies@), ..mid }),
                hit.len() == s0.armies.len(),
                forall|k: int|
                    0 <= k < j ==> #[trigger] army_views(self.armies@)[k] == (if defending(s0.armies[k]) {
                        spec_apply_casualties(hit[k], defender_casualty_percent)
                    } else {
                        hit[k]
                    }),
                forall|k: int| j <= k < self.armies.len() ==> #[trigger] army_views(self.armies@)[k] == hit[k],
            decreases self.armies.len() - j,
        {
            let ghost before = self.armies@;
            assert(army_views(before)[j as int] == hit[j as int]);
            if flags[j] {
                apply_casualties(&mut self.armies[j], defender_casualty_percent);
            }
            proof {
                assert forall|k: int| 0 <= k < self.armies.len() && k != j implies #[trigger] army_views(self.armies@)[k]
                    == army_views(before)[k] by {
                    assert(self.armies@[k] == before[k]);
                }
            }
            j += 1;
        }
        let ghost casualty_armies = s0.spec_casualty_armies(pending@, attacker_casualty_percent, defender_casualty_percent);
        assert(army_views(self.armies@) =~= casualty_armies);
        proof {
            assert forall|k: int| 0 <= k < casualty_armies.len() implies defending(#[trigger] casualty_armies[k]) == defending(s0.armies[k]) by {}
            lemma_roster_total_same(s0.armies, casualty_armies, defending);
        }
        let attacker_after = roster_from_army(&self.armies[ai]);
        let defender_after = defender_roster(&self.armies, &pending.defender_faction, &pending.target_province);
        let retreat = if attacker_wins && defender_after.soldiers() > 0 {
            self.retreat_province(&pending)
        } else {
            None
        };
        let ghost report_view = s0.spec_report(pending@, seed);
        assert(retreat == None::<String> ==> opt_text_view(retreat) == report_view.defender_retreat_province);
        let captured = attacker_wins;
        let ghost after_spec = s0.spec_after_battle(pending@, report_view);
        let ghost occupied_spec = if captured {
            casualty_armies.update(ai as int, ArmyView { province: pending.target_province@, ..casualty_armies[ai as int] })
        } else {
            casualty_armies
        };
        if captured {
            self.armies[ai].province = pending.target_province.clone();
            assert(army_views(self.armies@) =~= occupied_spec);
            match find_province(&self.provinces, &pending.target_province) {
                Some(pi) => {
                    proof {
                        lemma_first_match_unique(self@.provinces, province_has_id(pending.target_province@), pi as int);
                    }
                    self.provinces[pi].owner = pending.attacker_faction.clone();
                    proof {
                        assert(self@.provinces =~= s0.provinces.update(
                            pi as int,
                            ProvinceView { owner: pending.attacker_faction@, ..s0.province(pending.target_province@) },
                        ));
                    }
                },
                None => {},
            }
            let queued_before = self.recruitment_queue.len();
            self.recruitment_queue = retain_orders(&self.recruitment_queue, &pending.defender_faction, &pending.target_province);
            proof {
                lemma_filter_len_le(s0.recruitment_queue, order_not_in(pending.defender_faction@, pending.target_province@));
            }
            let cancelled = queued_before - self.recruitment_queue.len();
            if cancelled > 0 {
                let mut line = turn_line(self.turn);
                line.append(decimal_text(cancelled as u64).as_str());
                line.append(" queued recruitment order(s) in ");
                line.append(pending.target_province.as_str());
                line.append(" are cancelled after capture.");
                self.log.push(line);
            }
            let ghost occupied = army_views(self.armies@);
            match &retreat {
                Some(province) => {
                    let ghost mid2 = self@;
                    let mut j: usize = 0;
                    while j < self.armies.len()
                        invariant
                            j <= self.armies.len(),
                            self.armies.len() == s0.armies.len(),
                            occupied.len() == s0.armies.len(),
                            flags@.len() == s0.armies.len(),
                            forall|k: int| 0 <= k < flags@.len() ==> flags@[k] == defending(#[trigger] s0.armies[k]),
                            self@ =~= (CampaignView { armies: army_views(self.armies@), ..mid2 }),
                            forall|k: int|
                                0 <= k < j ==> #[trigger] army_views(self.armies@)[k] == (if defending(s0.armies[k]) {
                                    ArmyView { province: province@, moved_this_turn: true, ..occupied[k] }
                                } else {
                                    occupied[k]
                                }),
                            forall|k: int| j <= k < self.armies.len() ==> #[trigger] army_views(self.armies@)[k] == occupied[k],
                        decreases self.armies.len() - j,
                    {
                        let ghost before = self.armies@;
                        assert(army_views(before)[j as int] == occupied[j as int]);
                        if flags[j] {
                            self.armies[j].province = province.clone();
                            self.armies[j].moved_this_turn = true;
                        }
                        proof {
                            assert forall|k: int| 0 <= k < self.armies.len() && k != j implies #[trigger] army_views(self.armies@)[k]
                                == army_views(before)[k] by {
                                assert(self.armies@[k] == before[k]);
                            }
                        }
                        j += 1;
                    }
                    assert(army_views(self.armies@) =~= Seq::new(
                        occupied.len(),
                        |k: int|
                            if defending(s0.armies[k]) {
                                ArmyView { province: province@, moved_this_turn: true, ..occupied[k] }
                            } else {
                                occupied[k]
                            },
                    ));
                },
                None => {
                    self.armies = retain_not_at(&self.armies, &pending.defender_faction, &pending.target_province);
                },
            }
        }
        assert(self@.log =~= (if captured && (s0.recruitment_queue.len() - after_spec.recruitment_queue.len()) as nat > 0 {
            s0.log.push(cancel_line(s0.turn, (s0.recruitment_queue.len() - after_spec.recruitment_queue.len()) as nat, pending.target_province@))
        } else {
            s0.log
        }));
        self.armies = retain_living(&self.armies);
        let report = BattleReport {
            seed,
            turn: self.turn,
            attacker_army_id: pending.attacker_army_id.clone(),
            attacker_faction: pending.attacker_faction.clone(),
            defender_faction: pending.defender_faction.clone(),
            from_province: pending.from_province.clone(),
            target_province: pending.target_province.clone(),
            defender_modifier_percent: DEFENDER_MODIFIER_PERCENT,
            attacker_score,
            defender_score,
            attacker_before,
            attacker_after,
            defender_before,
            defender_after,
            attacker_casualty_percent,
            defender_casualty_percent,
            outcome,
            captured,
            defender_retreat_province: retreat,
        };
        assert(report@ == report_view);
        self.pending_battle = None;
        self.battle_reports.push(report.clone());
        let mut line = turn_line(self.turn);
        if attacker_wins {
            line.append(pending.attacker_faction.as_str());
            line.append(" captures ");
        } else {
            line.append(pending.defender_faction.as_str());
            line.append(" holds ");
        }
        line.append(pending.target_province.as_str());
        line.append(" after battle seed ");
        line.append(decimal_text(seed).as_str());
        line.append(".");
        self.log.push(line);
        proof {
            let after = s0.spec_after_battle(pending@, report_view);
            assert(self@.armies =~= after.armies);
            assert(self@.battle_reports =~= after.battle_reports);
            assert(self@.log =~= after.log);
            assert(self@.recruitment_queue =~= after.recruitment_queue);
            assert(self@.provinces =~= after.provinces);
            assert(self@ =~= after);
        }
        match self.winner() {
            Some(winner) => {
                let name = self.faction_name(&winner);
                let mut line = turn_line(self.turn);
                line.append(name.as_str());
                line.append(" has won the campaign.");
                self.log.push(line);
            },
            None => {},
        }
        Ok(report)
    }
}

proof fn lemma_roster_total_same(
    a: Seq<ArmyView>,
    b: Seq<ArmyView>,
    p: spec_fn(ArmyView) -> bool,
)
    requires
        a.len() == b.len(),
        forall|k: int| 0 <= k < b.len() ==> p(#[trigger] b[k]) == p(a[k]),
    ensures
        true,
{
}

proof fn lemma_filter_len_le<A>(s: Seq<A>, p: spec_fn(A) -> bool)
    ensures
        s.filter(p).len() <= s.len(),
{
    s.lemma_filter_len(p);
}


// ---------------------------------------------------------------------------
// Copies
// ---------------------------------------------------------------------------

fn clone_factions(v: &Vec<Faction>) -> (copy: Vec<Faction>)
    ensures
        copy@ == v@,
{
    let mut copy: Vec<Faction> = Vec::new();
    let mut i: usize = 0;
    while i < v.len()
        invariant
            i <= v.len(),
            copy@ == v@.take(i as int),
        decreases v.len() - i,
    {
        copy.push(v[i].clone());
        proof {
            assert(v@.take(i as int + 1) =~= v@.take(i as int).push(v@[i as int]));
        }
        i += 1;
    }
    assert(v@.take(v.len() as int) =~= v@);
    copy
}

fn clone_provinces(v: &Vec<Province>) -> (copy: Vec<Province>)
    ensures
        province_views(copy@) == province_views(v@),
{
    let mut copy: Vec<Province> = Vec::new();
    let mut i: usize = 0;
    while i < v.len()
        invariant
            i <= v.len(),
            copy.len() == i,
            forall|j: int| 0 <= j < i ==> (#[trigger] copy@[j])@ == v@[j]@,
        decreases v.len() - i,
    {
        copy.push(v[i].clone());
        i += 1;
    }
    assert(province_views(copy@) =~= province_views(v@));
    copy
}

fn clone_armies(v: &Vec<Army>) -> (copy: Vec<Army>)
    ensures
        copy@ == v@,
{
    let mut copy: Vec<Army> = Vec::new();
    let mut i: usize = 0;
    while i < v.len()
        invariant
            i <= v.len(),
            copy@ == v@.take(i as int),
        decreases v.len() - i,
    {
        copy.push(v[i].clone());
        proof {
            assert(v@.take(i as int + 1) =~= v@.take(i as int).push(v@[i as int]));
        }
        i += 1;
    }
    assert(v@.take(v.len() as int) =~= v@);
    copy
}

fn clone_orders(v: &Vec<RecruitmentOrder>) -> (copy: Vec<RecruitmentOrder>)
    ensures
        copy@ == v@,
{
    let mut copy: Vec<RecruitmentOrder> = Vec::new();
    let mut i: usize = 0;
    while i < v.len()
        invariant
            i <= v.len(),
            copy@ == v@.take(i as int),
        decreases v.len() - i,
    {
        copy.push(v[i].clone());
        proof {
            assert(v@.take(i as int + 1) =~= v@.take(i as int).push(v@[i as int]));
        }
        i += 1;
    }
    assert(v@.take(v.len() as int) =~= v@);
    copy
}

fn clone_reports(v: &Vec<BattleReport>) -> (copy: Vec<BattleReport>)
    ensures
        copy@ == v@,
{
    let mut copy: Vec<BattleReport> = Vec::new();
    let mut i: usize = 0;
    while i < v.len()
        invariant
            i <= v.len(),
            copy@ == v@.take(i as int),
        decreases v.len() - i,
    {
        copy.push(v[i].clone());
        proof {
            assert(v@.take(i as int + 1) =~= v@.take(i as int).push(v@[i as int]));
        }
        i += 1;
    }
    assert(v@.take(v.len() as int) =~= v@);
    copy
}

impl Clone for CampaignState {
    fn clone(&self) -> (copy: Self)
        ensures
            copy@ == self@,
    {
        let pending_battle = match &self.pending_battle {
            Some(pending) => Some(pending.clone()),
            None => None,
        };
        let copy = CampaignState {
            year: self.year,
            turn: self.turn,
            active_faction: self.active_faction.clone(),
            factions: clone_factions(&self.factions),
            provinces: clone_provinces(&self.provinces),
            armies: clone_armies(&self.armies),
            pending_battle,
            recruitment_queue: clone_orders(&self.recruitment_queue),
            battle_reports: clone_reports(&self.battle_reports),
            log: clone_texts(&self.log),
        };
        assert(copy@ =~= self@);
        copy
    }
}

// ---------------------------------------------------------------------------
// Casualties only remove soldiers
// ---------------------------------------------------------------------------

/// Every kind of soldier in `a` is at most as numerous as in `b`.
pub open spec fn roster_le(a: ArmyRoster, b: ArmyRoster) -> bool {
    &&& a.levy <= b.levy
    &&& a.spearmen <= b.spearmen
    &&& a.archers <= b.archers
    &&& a.knights <= b.knights
}

proof fn lemma_survivors_le(count: u16, casualty_percent: u32)
    ensures
        spec_survivors(count, casualty_percent) <= count,
{
    let percent: int = if casualty_percent < 100 { casualty_percent as int } else { 100 };
    assert(0 <= (count as int * percent) / 100 <= count) by (nonlinear_arith)
        requires
            0 <= percent <= 100,
            0 <= count,
    {
        assert(count as int * percent <= count as int * 100);
    }
}

proof fn lemma_casualties_shrink(army: ArmyView, casualty_percent: u32)
    ensures
        roster_le(roster_of(spec_apply_casualties(army, casualty_percent)), roster_of(army)),
        spec_apply_casualties(army, casualty_percent).owner == army.owner,
        spec_apply_casualties(army, casualty_percent).province == army.province,
{
    lemma_survivors_le(army.levy, casualty_percent);
    lemma_survivors_le(army.spearmen, casualty_percent);
    lemma_survivors_le(army.archers, casualty_percent);
    lemma_survivors_le(army.knights, casualty_percent);
}

proof fn lemma_soldiers_monotone(a: ArmyRoster, b: ArmyRoster)
    requires
        roster_le(a, b),
    ensures
        a.spec_soldiers() <= b.spec_soldiers(),
{
}

proof fn lemma_total_monotone(xs: Seq<ArmyView>, ys: Seq<ArmyView>, p: spec_fn(ArmyView) -> bool)
    requires
        xs.len() == ys.len(),
        forall|j: int|
            0 <= j < xs.len() ==> roster_le(roster_of(#[trigger] xs[j]), roster_of(ys[j])) && p(
                xs[j],
            ) == p(ys[j]),
    ensures
        roster_le(roster_total(xs, p), roster_total(ys, p)),
    decreases xs.len(),
{
    if xs.len() > 0 {
        lemma_total_monotone(xs.drop_last(), ys.drop_last(), p);
        assert(roster_le(roster_of(xs[xs.len() - 1]), roster_of(ys[ys.len() - 1])));
    }
}

/// A resolved battle captures exactly on an attacker victory. A capture
/// hands the target province to the attacker, cancels the defender's
/// recruitment there, and empties the target of the defender's armies: its
/// survivors fall back to the first neighbouring province the defender still
/// holds, marked as having moved, or are disbanded when it holds none. A
/// defender victory leaves provinces and recruitment as they were. Either
/// way the battle is no longer pending and its report is filed.
pub proof fn capture_follows_attacker_victory(campaign: CampaignView, seed: u64)
    requires
        campaign.spec_resolve_pending_battle(seed).1 is Ok,
    ensures
        ({
            let (after, result) = campaign.spec_resolve_pending_battle(seed);
            let report = result->Ok_0;
            let pending = campaign.pending_battle->Some_0;
            let target = pending.target_province;
            let defender = pending.defender_faction;
            let ai = campaign.army_index(pending.attacker_army_id);
            &&& report.captured <==> report.outcome == BattleOutcome::AttackerVictory
            &&& after.pending_battle is None
            &&& after.battle_reports == campaign.battle_reports.push(report)
            &&& !report.captured ==> after.provinces == campaign.provinces
                && after.recruitment_queue == campaign.recruitment_queue
            &&& report.captured && campaign.has_province(target) ==> after.provinces
                == campaign.provinces.update(
                campaign.province_index(target),
                ProvinceView { owner: pending.attacker_faction, ..campaign.province(target) },
            )
            &&& report.captured ==> after.recruitment_queue == campaign.recruitment_queue.filter(
                order_not_in(defender, target),
            ) && forall|k: int|
                0 <= k < after.recruitment_queue.len() ==> !((
                #[trigger] after.recruitment_queue[k]).faction_id == defender
                    && after.recruitment_queue[k].province_id == target)
            &&& report.captured ==> report.defender_retreat_province == if report.defender_after.spec_soldiers()
                > 0 {
                campaign.spec_retreat(pending)
            } else {
                None
            }
            &&& report.captured && report.defender_retreat_province is None ==> forall|k: int|
                0 <= k < after.armies.len() ==> !((#[trigger] after.armies[k]).owner == defender
                    && after.armies[k].province == target)
            &&& report.captured && report.defender_retreat_province is Some ==> forall|j: int|
                0 <= j < campaign.armies.len() && j != ai && army_at(defender, target)(
                    #[trigger] campaign.armies[j],
                ) && spec_army_soldiers(
                    spec_apply_casualties(campaign.armies[j], report.defender_casualty_percent),
                ) > 0 ==> after.armies.contains(
                    ArmyView {
                        province: report.defender_retreat_province->Some_0,
                        moved_this_turn: true,
                        ..spec_apply_casualties(
                            campaign.armies[j],
                            report.defender_casualty_percent,
                        )
                    },
                )
        }),
{
    broadcast use vstd::seq_lib::group_filter_ensures;

    let pending = campaign.pending_battle->Some_0;
    let report = campaign.spec_report(pending, seed);
    let after_battle = campaign.spec_after_battle(pending, report);
    let target = pending.target_province;
    let defender = pending.defender_faction;
    let defending = army_at(defender, target);
    let ai = campaign.army_index(pending.attacker_army_id);
    lemma_exists_has_first(campaign.armies, army_has_id(pending.attacker_army_id));
    let hit = campaign.spec_casualty_armies(
        pending,
        report.attacker_casualty_percent,
        report.defender_casualty_percent,
    );
    let occupied = if report.captured {
        hit.update(ai, ArmyView { province: target, ..hit[ai] })
    } else {
        hit
    };
    let after = campaign.spec_resolve_pending_battle(seed).0;
    assert(after.armies == after_battle.armies);
    assert(after.provinces == after_battle.provinces);
    assert(after.recruitment_queue == after_battle.recruitment_queue);
    if report.captured {
        let q = campaign.recruitment_queue.filter(order_not_in(defender, target));
        assert forall|k: int| 0 <= k < q.len() implies !((#[trigger] q[k]).faction_id == defender
            && q[k].province_id == target) by {
            assert(order_not_in(defender, target)(q[k]));
        }
        match report.defender_retreat_province {
            None => {
                let kept = occupied.filter(not_at(defender, target));
                assert(after.armies == kept.filter(has_soldiers()));
                assert forall|k: int| 0 <= k < after.armies.len() implies !((
                #[trigger] after.armies[k]).owner == defender && after.armies[k].province
                    == target) by {
                    assert(kept.filter(has_soldiers()).contains(after.armies[k]));
                    kept.lemma_filter_contains_rev(has_soldiers(), after.armies[k]);
                    let i = choose|i: int| 0 <= i < kept.len() && kept[i] == after.armies[k];
                    assert(not_at(defender, target)(kept[i]));
                }
            },
            Some(retreat) => {
                let retreated = Seq::new(
                    occupied.len(),
                    |j: int|
                        if defending(campaign.armies[j]) {
                            ArmyView { province: retreat, moved_this_turn: true, ..occupied[j] }
                        } else {
                            occupied[j]
                        },
                );
                assert(after.armies == retreated.filter(has_soldiers()));
                assert forall|j: int|
                    0 <= j < campaign.armies.len() && j != ai && army_at(defender, target)(
                        #[trigger] campaign.armies[j],
                    ) && spec_army_soldiers(
                        spec_apply_casualties(campaign.armies[j], report.defender_casualty_percent),
                    ) > 0 implies after.armies.contains(
                    ArmyView {
                        province: retreat,
                        moved_this_turn: true,
                        ..spec_apply_casualties(
                            campaign.armies[j],
                            report.defender_casualty_percent,
                        )
                    },
                ) by {
                    assert(retreated[j] == ArmyView {
                        province: retreat,
                        moved_this_turn: true,
                        ..spec_apply_casualties(
                            campaign.armies[j],
                            report.defender_casualty_percent,
                        )
                    });
                    assert(has_soldiers()(retreated[j]));
                    retreated.lemma_filter_contains(has_soldiers(), j);
                }
            },
        }
    }
}

/// The side with the higher score wins a resolved battle: the attacker wins
/// (and captures the target) exactly when its score is strictly higher than
/// the defender's score, which already carries the defender's bonus; ties go
/// to the defender. The winner then loses 20 to 35 percent of its soldiers
/// and the loser 65 to 85 percent, and only a captured target can send the
/// defenders into retreat.
pub proof fn the_higher_score_wins_the_battle(campaign: CampaignView, seed: u64)
    requires
        campaign.spec_resolve_pending_battle(seed).1 is Ok,
    ensures
        ({
            let report = campaign.spec_resolve_pending_battle(seed).1->Ok_0;
            let attacker_won = report.attacker_score > report.defender_score;
            &&& (report.outcome == BattleOutcome::AttackerVictory) == attacker_won
            &&& (report.outcome == BattleOutcome::DefenderVictory) == !attacker_won
            &&& report.captured == attacker_won
            &&& attacker_won ==> 20 <= report.attacker_casualty_percent < 36 && 65
                <= report.defender_casualty_percent < 86
            &&& !attacker_won ==> 65 <= report.attacker_casualty_percent < 86 && 20
                <= report.defender_casualty_percent < 36
            &&& !attacker_won ==> report.defender_retreat_province is None
            &&& report.seed == seed
            &&& report.turn == campaign.turn
        }),
{
}

/// Fighting strength counted from a roster: a levy soldier counts once, a
/// spearman or an archer twice, a knight five times.
pub open spec fn weighted_strength(roster: ArmyRoster) -> int {
    roster.levy as int + 2 * roster.spearmen as int + 2 * roster.archers as int + 5
        * roster.knights as int
}

proof fn lemma_survivors_exact(count: u16, percent: u32)
    requires
        percent < 100,
    ensures
        spec_survivors(count, percent) as int == count as int - count as int * percent as int / 100,
{
    assert(0 <= count as int * percent as int <= count as int * 100) by (nonlinear_arith)
        requires
            percent < 100,
    ;
    vstd::arithmetic::div_mod::lemma_div_is_ordered(count as int * percent as int, count as int * 100, 100);
    vstd::arithmetic::div_mod::lemma_div_is_ordered(0, count as int * percent as int, 100);
}

proof fn lemma_rolled_score_bounds(strength: u64, seed: u64, salt: u64)
    requires
        strength as int * 110 <= u64::MAX,
    ensures
        90 * strength as int <= spec_rolled_score(strength, seed, salt) <= 110 * strength as int,
{
    let f = 90 + spec_mix(seed, salt) % 21;
    assert(90 <= f <= 110);
    assert(90 * strength as int <= strength as int * f <= 110 * strength as int) by (nonlinear_arith)
        requires
            90 <= f <= 110,
            strength >= 0,
    ;
}

/// What a battle is fought with and what it costs: the attacker fights with
/// the soldiers of its army and the defender with all its armies in the
/// target province; each side's score is its strength times a factor from
/// 90 to 110 percent, the defender's raised by a further 8 percent (rounded
/// down); and the attacking army loses its casualty percentage of each kind
/// of soldier, rounded down, so no fraction of a soldier is ever lost.
pub proof fn battle_scores_and_losses_follow_the_armies(campaign: CampaignView, seed: u64)
    requires
        campaign.spec_resolve_pending_battle(seed).1 is Ok,
    ensures
        ({
            let report = campaign.spec_resolve_pending_battle(seed).1->Ok_0;
            let pending = campaign.pending_battle->Some_0;
            let army = campaign.armies[campaign.army_index(pending.attacker_army_id)];
            let attack = weighted_strength(report.attacker_before);
            let defence = weighted_strength(report.defender_before);
            let pct = report.attacker_casualty_percent as int;
            &&& report.attacker_before == roster_of(army)
            &&& report.defender_before == roster_total(
                campaign.armies,
                army_at(pending.defender_faction, pending.target_province),
            )
            &&& report.defender_modifier_percent == 8
            &&& attack * 110 <= u64::MAX ==> 90 * attack <= report.attacker_score <= 110 * attack
            &&& defence * 110 * 108 <= u64::MAX ==> (90 * defence * 108) / 100
                <= report.defender_score <= (110 * defence * 108) / 100
            &&& !army_at(pending.defender_faction, pending.target_province)(army) ==> {
                &&& report.attacker_after.levy == army.levy - army.levy * pct / 100
                &&& report.attacker_after.spearmen == army.spearmen - army.spearmen * pct / 100
                &&& report.attacker_after.archers == army.archers - army.archers * pct / 100
                &&& report.attacker_after.knights == army.knights - army.knights * pct / 100
            }
        }),
{
    let pending = campaign.pending_battle->Some_0;
    let report = campaign.spec_report(pending, seed);
    lemma_exists_has_first(campaign.armies, army_has_id(pending.attacker_army_id));
    let ai = campaign.army_index(pending.attacker_army_id);
    let a = report.attacker_before;
    let d = report.defender_before;
    assert(a.spec_strength() as int == weighted_strength(a));
    assert(d.spec_strength() as int == weighted_strength(d));
    let attack = weighted_strength(a);
    let defence = weighted_strength(d);
    if attack * 110 <= u64::MAX {
        lemma_rolled_score_bounds(a.spec_strength(), seed, 0xA771_A771);
    }
    if defence * 110 * 108 <= u64::MAX {
        let raw = spec_rolled_score(d.spec_strength(), seed, 0xD3F3_D3F3);
        lemma_rolled_score_bounds(d.spec_strength(), seed, 0xD3F3_D3F3);
        assert(90 * defence * 108 <= raw * 108 <= 110 * defence * 108) by (nonlinear_arith)
            requires
                90 * defence <= raw <= 110 * defence,
        ;
        vstd::arithmetic::div_mod::lemma_div_is_ordered(90 * defence * 108, raw * 108, 100);
        vstd::arithmetic::div_mod::lemma_div_is_ordered(raw * 108, 110 * defence * 108, 100);
    }
    let pct = report.attacker_casualty_percent;
    assert(pct < 100);
    assert(report.attacker_before == roster_of(campaign.armies[ai]));
    if attack * 110 <= u64::MAX {
        assert(90 * attack <= report.attacker_score <= 110 * attack);
    }
    if defence * 110 * 108 <= u64::MAX {
        assert((90 * defence * 108) / 100 <= report.defender_score);
        assert(report.defender_score <= (110 * defence * 108) / 100);
    }
    let army = campaign.armies[ai];
    if !army_at(pending.defender_faction, pending.target_province)(army) {
        let hit = campaign.spec_casualty_armies(pending, pct, report.defender_casualty_percent);
        assert(hit[ai] == spec_apply_casualties(army, pct));
        assert(report.attacker_after == roster_of(hit[ai]));
        lemma_survivors_exact(army.levy, pct);
        lemma_survivors_exact(army.spearmen, pct);
        lemma_survivors_exact(army.archers, pct);
        lemma_survivors_exact(army.knights, pct);
    }
}

/// Whether `faction` holds a province with id `id`.
pub open spec fn holds_province_named(provinces: Seq<ProvinceView>, faction: Seq<char>, id: Seq<char>) -> bool {
    exists|j: int| 0 <= j < provinces.len() && (#[trigger] provinces[j]).id == id && provinces[j].owner == faction
}

/// Defenders who survive a capture retreat to the first neighbour of the
/// captured province, in its list of neighbours, that their faction still
/// holds; when it holds none, there is no retreat. Defenders who hold their
/// province, or who are wiped out, do not retreat.
pub proof fn defenders_retreat_to_their_first_held_neighbour(campaign: CampaignView, seed: u64)
    requires
        campaign.spec_resolve_pending_battle(seed).1 is Ok,
        campaign.has_province(campaign.pending_battle->Some_0.target_province),
    ensures
        ({
            let report = campaign.spec_resolve_pending_battle(seed).1->Ok_0;
            let pending = campaign.pending_battle->Some_0;
            let neighbors = campaign.province(pending.target_province).neighbors;
            let defender = pending.defender_faction;
            &&& !report.captured || report.defender_after.spec_soldiers() == 0
                ==> report.defender_retreat_province is None
            &&& report.defender_retreat_province matches Some(q) ==> exists|k: int|
                0 <= k < neighbors.len() && neighbors[k] == q && holds_province_named(
                    campaign.provinces,
                    defender,
                    q,
                ) && forall|m: int|
                    0 <= m < k ==> !holds_province_named(
                        campaign.provinces,
                        defender,
                        #[trigger] neighbors[m],
                    )
            &&& report.captured && report.defender_after.spec_soldiers() > 0
                && report.defender_retreat_province is None ==> forall|k: int|
                0 <= k < neighbors.len() ==> !holds_province_named(
                    campaign.provinces,
                    defender,
                    #[trigger] neighbors[k],
                )
        }),
{
    let pending = campaign.pending_battle->Some_0;
    let neighbors = campaign.province(pending.target_province).neighbors;
    let holds = holds_neighbor(campaign.provinces, pending.defender_faction);
    assert forall|n: Seq<char>| #[trigger] holds(n) == holds_province_named(
        campaign.provinces,
        pending.defender_faction,
        n,
    ) by {
        if holds(n) {
            let j = choose|j: int| 0 <= j < campaign.provinces.len() && held_by(n, pending.defender_faction)(
                #[trigger] campaign.provinces[j],
            );
        }
        if holds_province_named(campaign.provinces, pending.defender_faction, n) {
            let j = choose|j: int|
                0 <= j < campaign.provinces.len() && (#[trigger] campaign.provinces[j]).id == n
                    && campaign.provinces[j].owner == pending.defender_faction;
            assert(held_by(n, pending.defender_faction)(campaign.provinces[j]));
        }
    }
    if exists_match(neighbors, holds) {
        lemma_exists_has_first(neighbors, holds);
        let k = first_match(neighbors, holds);
        assert(holds(neighbors[k]));
        assert forall|m: int| 0 <= m < k implies !holds_province_named(
            campaign.provinces,
            pending.defender_faction,
            #[trigger] neighbors[m],
        ) by {
            assert(!holds(neighbors[m]));
        }
    } else {
        assert forall|k: int| 0 <= k < neighbors.len() implies !holds_province_named(
            campaign.provinces,
            pending.defender_faction,
            #[trigger] neighbors[k],
        ) by {
            assert(!holds(neighbors[k]));
        }
    }
}

/// Resolving a battle never adds soldiers: after the battle the attacking
/// army and the defenders of the target province each hold, kind by kind,
/// at most the soldiers they held before, so neither side's total grows.
pub proof fn casualties_never_create_soldiers(campaign: CampaignView, seed: u64)
    requires
        campaign.spec_resolve_pending_battle(seed).1 is Ok,
    ensures
        ({
            let report = campaign.spec_resolve_pending_battle(seed).1->Ok_0;
            &&& roster_le(report.attacker_after, report.attacker_before)
            &&& roster_le(report.defender_after, report.defender_before)
            &&& report.attacker_after.spec_soldiers() <= report.attacker_before.spec_soldiers()
            &&& report.defender_after.spec_soldiers() <= report.defender_before.spec_soldiers()
        }),
{
    let pending = campaign.pending_battle->Some_0;
    let report = campaign.spec_report(pending, seed);
    let ai = campaign.army_index(pending.attacker_army_id);
    lemma_exists_has_first(campaign.armies, army_has_id(pending.attacker_army_id));
    let defending = army_at(pending.defender_faction, pending.target_province);
    let armies = campaign.spec_casualty_armies(
        pending,
        report.attacker_casualty_percent,
        report.defender_casualty_percent,
    );
    let hit = campaign.armies.update(
        ai,
        spec_apply_casualties(campaign.armies[ai], report.attacker_casualty_percent),
    );
    assert forall|j: int| 0 <= j < armies.len() implies roster_le(
        roster_of(#[trigger] armies[j]),
        roster_of(campaign.armies[j]),
    ) && defending(armies[j]) == defending(campaign.armies[j]) by {
        lemma_casualties_shrink(campaign.armies[j], report.attacker_casualty_percent);
        lemma_casualties_shrink(hit[j], report.defender_casualty_percent);
    }
    lemma_total_monotone(armies, campaign.armies, defending);
    lemma_soldiers_monotone(report.attacker_after, report.attacker_before);
    lemma_soldiers_monotone(report.defender_after, report.defender_before);
}

} // verus!
