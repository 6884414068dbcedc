use vstd::prelude::*;

use crate::battle::{
    owns_province, hash_text, mix, report_result, sat_mul_u64, spec_hash_text, spec_mix, BattleReportView,
};
use crate::campaign::{
    exists_match, faction_has_id, find_faction, find_province, first_match,
    lemma_first_match_unique, options_result, province_has_id, texts_result, turn_line,
    turn_prefix, unit_result, ArmyView, CampaignError, CampaignErrorView, CampaignState,
    CampaignView, ProvinceView, RecruitmentOptionView, UnitKind,
};
use crate::text::{decimal, decimal_text, owned, lemma_text_lt_total, lemma_text_lt_transitive, text_less, text_lt};

verus! {

pub const AI_ATTACK_SCORE: u64 = 1_000_000;
pub const AI_REINFORCE_SCORE: u64 = 100_000;
pub const AI_FRIENDLY_MOVE_SCORE: u64 = 10_000;

/// A province with id `province` that `faction` does not own.
pub open spec fn enemy_province(province: Seq<char>, faction: Seq<char>) -> spec_fn(ProvinceView) -> bool {
    |q: ProvinceView| q.id == province && q.owner != faction
}

/// A neighbour id that names a province some other faction owns.
pub open spec fn hostile_neighbor(provinces: Seq<ProvinceView>, faction: Seq<char>) -> spec_fn(
    Seq<char>,
) -> bool {
    |n: Seq<char>| exists_match(provinces, enemy_province(n, faction))
}

pub open spec fn is_frontier(provinces: Seq<ProvinceView>, faction: Seq<char>, province: ProvinceView) -> bool {
    exists_match(province.neighbors, hostile_neighbor(provinces, faction))
}

pub open spec fn is_available() -> spec_fn(RecruitmentOptionView) -> bool {
    |o: RecruitmentOptionView| o.available
}

pub open spec fn option_unit() -> spec_fn(RecruitmentOptionView) -> UnitKind {
    |o: RecruitmentOptionView| o.unit
}

/// Ranking of two (score, text) keys: higher score first, then smaller text.
pub open spec fn key_before(a: (u64, Seq<char>), b: (u64, Seq<char>)) -> bool {
    a.0 > b.0 || (a.0 == b.0 && text_lt(a.1, b.1))
}

/// Ranking of two move choices: higher score, then smaller army id, then
/// smaller destination id.
pub open spec fn move_before(a: (u64, Seq<char>, Seq<char>), b: (u64, Seq<char>, Seq<char>)) -> bool {
    a.0 > b.0 || (a.0 == b.0 && (text_lt(a.1, b.1) || (a.1 == b.1 && text_lt(a.2, b.2))))
}

proof fn lemma_key_order(a: (u64, Seq<char>), b: (u64, Seq<char>), c: (u64, Seq<char>))
    ensures
        !key_before(a, a),
        key_before(a, b) ==> !key_before(b, a),
        key_before(a, b) || key_before(b, a) || a == b,
        key_before(a, b) && key_before(b, c) ==> key_before(a, c),
{
    lemma_text_lt_total(a.1, b.1);
    lemma_text_lt_total(a.1, a.1);
    if text_lt(a.1, b.1) && text_lt(b.1, c.1) {
        lemma_text_lt_transitive(a.1, b.1, c.1);
    }
}

proof fn lemma_move_order(
    a: (u64, Seq<char>, Seq<char>),
    b: (u64, Seq<char>, Seq<char>),
    c: (u64, Seq<char>, Seq<char>),
)
    ensures
        !move_before(a, a),
        move_before(a, b) ==> !move_before(b, a),
        move_before(a, b) || move_before(b, a) || a == b,
        move_before(a, b) && move_before(b, c) ==> move_before(a, c),
{
    lemma_text_lt_total(a.1, b.1);
    lemma_text_lt_total(a.2, b.2);
    lemma_text_lt_total(a.1, a.1);
    lemma_text_lt_total(a.2, a.2);
    if text_lt(a.1, b.1) && text_lt(b.1, c.1) {
        lemma_text_lt_transitive(a.1, b.1, c.1);
    }
    if text_lt(a.2, b.2) && text_lt(b.2, c.2) {
        lemma_text_lt_transitive(a.2, b.2, c.2);
    }
}

pub open spec fn plan_line(turn: u32, faction_name: Seq<char>, seed: u64) -> Seq<char> {
    turn_prefix(turn) + faction_name + " plans its deterministic opponent turn with seed "@
        + decimal(seed as nat) + "."@
}

impl CampaignView {
    /// The unit kinds the active faction may recruit now in `province_id`.
    pub open spec fn available_units(self, province_id: Seq<char>) -> Seq<UnitKind> {
        match self.spec_recruitment_options(province_id) {
            Ok(options) => options.filter(is_available()).map_values(option_unit()),
            Err(_) => Seq::empty(),
        }
    }

    /// Recruitment priority of a province: frontier provinces first, then
    /// wealth, then a seeded tie-break below one hundred.
    pub open spec fn recruit_key(self, seed: u64, province: ProvinceView) -> (u64, Seq<char>) {
        let frontier: int = if is_frontier(self.provinces, self.active_faction, province) {
            AI_REINFORCE_SCORE as int
        } else {
            0
        };
        (
            (frontier + sat_mul_u64(province.wealth as u64, 100) as int + spec_mix(
                seed,
                spec_hash_text(province.id),
            ) as int % 100) as u64,
            province.id,
        )
    }

    pub open spec fn recruit_eligible(self, i: int) -> bool {
        self.provinces[i].owner == self.active_faction && self.available_units(
            self.provinces[i].id,
        ).len() > 0
    }

    /// `b` is the province the AI recruits in: eligible and ranked first, the
    /// earliest stored one among equals.
    pub open spec fn is_best_recruit(self, seed: u64, b: int) -> bool {
        &&& 0 <= b < self.provinces.len()
        &&& self.recruit_eligible(b)
        &&& forall|j: int|
            0 <= j < self.provinces.len() && j != b && #[trigger] self.recruit_eligible(j) ==> if j < b {
                key_before(self.recruit_key(seed, self.provinces[b]), self.recruit_key(seed, self.provinces[j]))
            } else {
                !key_before(self.recruit_key(seed, self.provinces[j]), self.recruit_key(seed, self.provinces[b]))
            }
    }

    pub open spec fn recruit_unit_index(self, seed: u64, province_id: Seq<char>) -> int {
        (spec_mix(seed, spec_hash_text(province_id) ^ 0xA11C_E001u64) % (self.available_units(
            province_id,
        ).len() as u64)) as int
    }

    /// The AI queues one seeded, currently available unit in its best-ranked
    /// province that has any; it fails only when its own faction is unknown.
    pub open spec fn spec_ai_recruit(self, seed: u64) -> (CampaignView, Result<(), CampaignErrorView>) {
        let fid = self.active_faction;
        if exists_match(self.provinces, owns_province(fid)) && !self.has_faction(fid) {
            (self, Err(CampaignErrorView::FactionNotFound(fid)))
        } else if exists|b: int| self.is_best_recruit(seed, b) {
            let b = choose|b: int| self.is_best_recruit(seed, b);
            let pid = self.provinces[b].id;
            self.spec_queue_recruitment(pid, self.available_units(pid)[self.recruit_unit_index(seed, pid)])
        } else {
            (self, Ok(()))
        }
    }
}

impl CampaignState {
    fn is_frontier(&self, faction: &String, province: usize) -> (frontier: bool)
        requires
            province < self.provinces.len(),
        ensures
            frontier == is_frontier(self@.provinces, faction@, self@.provinces[province as int]),
    {
        let neighbors = &self.provinces[province].neighbors;
        let ghost ns = self@.provinces[province as int].neighbors;
        let mut k: usize = 0;
        while k < neighbors.len()
            invariant
                k <= neighbors.len(),
                province < self.provinces.len(),
                ns == self@.provinces[province as int].neighbors,
                ns == crate::campaign::text_views(neighbors@),
                forall|j: int| 0 <= j < k ==> !hostile_neighbor(self@.provinces, faction@)(#[trigger] ns[j]),
            decreases neighbors.len() - k,
        {
            let mut q: usize = 0;
            let mut found = false;
            while q < self.provinces.len()
                invariant
                    q <= self.provinces.len(),
                    k < neighbors.len(),
                    province < self.provinces.len(),
                    ns == self@.provinces[province as int].neighbors,
                    ns == crate::campaign::text_views(neighbors@),
                    !found,
                    forall|j: int| 0 <= j < q ==> !enemy_province(ns[k as int], faction@)(#[trigger] self@.provinces[j]),
                decreases self.provinces.len() - q,
            {
                if self.provinces[q].id == neighbors[k] && self.provinces[q].owner != *faction {
                    assert(enemy_province(ns[k as int], faction@)(self@.provinces[q as int]));
                    assert(hostile_neighbor(self@.provinces, faction@)(ns[k as int]));
                    return true;
                }
                q += 1;
            }
            k += 1;
        }
        false
    }

    fn available_units(&self, province_id: &String) -> (units: Result<Vec<UnitKind>, CampaignError>)
        ensures
            match units {
                Ok(units) => self@.spec_recruitment_options(province_id@) is Ok && units@
                    == self@.available_units(province_id@),
                Err(e) => self@.spec_recruitment_options(province_id@) == Err::<Seq<RecruitmentOptionView>, CampaignErrorView>(e@),
            },
    {
        let options = match self.recruitment_options(province_id.as_str()) {
            Ok(options) => options,
            Err(error) => return Err(error),
        };
        let ghost views = options@.map_values(|o: crate::campaign::RecruitmentOption| o@);
        let mut units: Vec<UnitKind> = Vec::new();
        let mut i: usize = 0;
        while i < options.len()
            invariant
                i <= options.len(),
                views == options@.map_values(|o: crate::campaign::RecruitmentOption| o@),
                units@ == views.take(i as int).filter(is_available()).map_values(option_unit()),
            decreases options.len() - i,
        {
            proof {
                reveal(Seq::filter);
                assert(views.take(i + 1).drop_last() =~= views.take(i as int));
                assert(views[i as int] == options@[i as int]@);
            }
            if options[i].available {
                units.push(options[i].unit);
                proof {
                    let before = views.take(i as int).filter(is_available());
                    assert(views.take(i + 1).filter(is_available()) == before.push(views[i as int]));
                    assert(before.push(views[i as int]).map_values(option_unit()) =~= before.map_values(
                        option_unit(),
                    ).push(views[i as int].unit));
                }
            }
            i += 1;
        }
        assert(views.take(views.len() as int) =~= views);
        Ok(units)
    }

    fn owns_any_province(&self, faction: &String) -> (owns: bool)
        ensures
            owns == exists_match(self@.provinces, owns_province(faction@)),
    {
        let mut i: usize = 0;
        while i < self.provinces.len()
            invariant
                i <= self.provinces.len(),
                forall|j: int| 0 <= j < i ==> !owns_province(faction@)(#[trigger] self@.provinces[j]),
            decreases self.provinces.len() - i,
        {
            if self.provinces[i].owner == *faction {
                assert(owns_province(faction@)(self@.provinces[i as int]));
                return true;
            }
            i += 1;
        }
        false
    }

    fn recruit_key(&self, seed: u64, province: usize) -> (score: u64)
        requires
            province < self.provinces.len(),
        ensures
            score == self@.recruit_key(seed, self@.provinces[province as int]).0,
    {
        let frontier: u64 = if self.is_frontier(&self.active_faction, province) {
            AI_REINFORCE_SCORE
        } else {
            0
        };
        let wealth = self.provinces[province].wealth as u64 * 100;
        frontier + wealth + mix(seed, hash_text(self.provinces[province].id.as_str())) % 100
    }

    /// The opponent's recruitment step; see `spec_ai_recruit`.
    pub fn ai_recruit(&mut self, seed: u64) -> (result: Result<(), CampaignError>)
        ensures
            final(self)@ == old(self)@.spec_ai_recruit(seed).0,
            unit_result(result) == old(self)@.spec_ai_recruit(seed).1,
    {
        let ghost s = self@;
        let faction_id = self.active_faction.clone();
        let mut best: Option<(usize, u64, Vec<UnitKind>)> = None;
        let owns_any = self.owns_any_province(&faction_id);
        if owns_any {
            match find_faction(&self.factions, &faction_id) {
                Some(index) => {
                    proof {
                        lemma_first_match_unique(s.factions, faction_has_id(faction_id@), index as int);
                    }
                },
                None => return Err(CampaignError::FactionNotFound(faction_id)),
            }
        }
        let mut i: usize = 0;
        while i < self.provinces.len()
            invariant
                i <= self.provinces.len(),
                self@ == s,
                faction_id@ == s.active_faction,
                owns_any == exists_match(s.provinces, owns_province(s.active_faction)),
                owns_any ==> s.has_faction(s.active_faction),
                match best {
                    Some((b, score, units)) => {
                        &&& b < i
                        &&& score == s.recruit_key(seed, s.provinces[b as int]).0
                        &&& units@ == s.available_units(s.provinces[b as int].id)
                        &&& s.recruit_eligible(b as int)
                        &&& forall|j: int|
                            0 <= j < i && j != b && #[trigger] s.recruit_eligible(j) ==> if j < b {
                                key_before(s.recruit_key(seed, s.provinces[b as int]), s.recruit_key(seed, s.provinces[j]))
                            } else {
                                !key_before(s.recruit_key(seed, s.provinces[j]), s.recruit_key(seed, s.provinces[b as int]))
                            }
                    },
                    None => forall|j: int| 0 <= j < i ==> !#[trigger] s.recruit_eligible(j),
                },
            decreases self.provinces.len() - i,
        {
            if self.provinces[i].owner == faction_id {
                let units = match self.available_units(&self.provinces[i].id) {
                    Ok(units) => units,
                    Err(error) => {
                        proof {
                            assert(owns_province(s.active_faction)(s.provinces[i as int]));
                            assert(province_has_id(s.provinces[i as int].id)(s.provinces[i as int]));
                            assert(false);
                        }
                        return Err(error);
                    },
                };
                if units.len() > 0 {
                    let score = self.recruit_key(seed, i);
                    let replace = match &best {
                        None => true,
                        Some((b, best_score, _)) => score > *best_score || (score == *best_score
                            && text_less(&self.provinces[i].id, &self.provinces[*b].id)),
                    };
                    proof {
                        match best {
                            Some((b, best_score, _)) => {
                                let ki = s.recruit_key(seed, s.provinces[i as int]);
                                let kb = s.recruit_key(seed, s.provinces[b as int]);
                                assert(replace == key_before(ki, kb));
                                assert forall|j: int| 0 <= j < i && j != b && #[trigger] s.recruit_eligible(j) implies
                                    (if replace { key_before(ki, s.recruit_key(seed, s.provinces[j])) } else { true }) by {
                                    let kj = s.recruit_key(seed, s.provinces[j]);
                                    lemma_key_order(ki, kb, kj);
                                    lemma_key_order(kb, kj, ki);
                                    lemma_key_order(kj, kb, ki);
                                }
                                lemma_key_order(ki, kb, ki);
                            },
                            None => {},
                        }
                    }
                    if replace {
                        best = Some((i, score, units));
                    }
                }
            }
            i += 1;
        }
        match best {
            None => {
                assert(!exists|b: int| s.is_best_recruit(seed, b));
                Ok(())
            },
            Some((b, _, units)) => {
                proof {
                    assert(s.is_best_recruit(seed, b as int));
                    assert forall|c: int| s.is_best_recruit(seed, c) implies c == b by {
                        if c != b {
                            let kb = s.recruit_key(seed, s.provinces[b as int]);
                            let kc = s.recruit_key(seed, s.provinces[c]);
                            lemma_key_order(kb, kc, kb);
                            assert(s.recruit_eligible(c));
                            assert(s.recruit_eligible(b as int));
                        }
                    }
                }
                let province_id = self.provinces[b].id.clone();
                let index = (mix(seed, hash_text(province_id.as_str()) ^ 0xA11C_E001u64) % (
                units.len() as u64)) as usize;
                let unit = units[index];
                self.queue_recruitment(province_id.as_str(), unit)
            },
        }
    }
}

// ---------------------------------------------------------------------------
// Movement choice
// ---------------------------------------------------------------------------

/// An army of `faction` that has not moved this turn.
pub open spec fn is_mover(faction: Seq<char>) -> spec_fn(ArmyView) -> bool {
    |a: ArmyView| a.owner == faction && !a.moved_this_turn
}

/// A destination id that names no province.
pub open spec fn missing_province(provinces: Seq<ProvinceView>) -> spec_fn(Seq<char>) -> bool {
    |d: Seq<char>| !exists_match(provinces, province_has_id(d))
}

pub open spec fn move_hash_text(army_id: Seq<char>, destination: Seq<char>) -> Seq<char> {
    army_id + ":"@ + destination
}

impl CampaignView {
    /// The error the AI meets when it plans moves for `army_id`, if any.
    pub open spec fn move_failure(self, army_id: Seq<char>) -> Option<CampaignErrorView> {
        match self.spec_legal_destinations(army_id) {
            Err(e) => Some(e),
            Ok(ds) => if exists_match(ds, missing_province(self.provinces)) {
                Some(CampaignErrorView::ProvinceNotFound(ds[first_match(ds, missing_province(self.provinces))]))
            } else {
                None
            },
        }
    }

    pub open spec fn fails(self, j: int) -> bool {
        is_mover(self.active_faction)(self.armies[j]) && self.move_failure(self.armies[j].id) is Some
    }

    /// `f` is a failing army with the smallest id.
    pub open spec fn is_first_failure(self, f: int) -> bool {
        &&& 0 <= f < self.armies.len()
        &&& self.fails(f)
        &&& forall|j: int| 0 <= j < self.armies.len() && #[trigger] self.fails(j) ==> !text_lt(self.armies[j].id, self.armies[f].id)
    }

    /// Attacks first, then reinforcing a friendly frontier, then any friendly
    /// move; richer destinations first; a seeded tie-break below one thousand.
    pub open spec fn move_score(self, seed: u64, army_id: Seq<char>, destination: Seq<char>) -> u64 {
        let province = self.province(destination);
        let hostile = province.owner != self.active_faction;
        let frontier = !hostile && is_frontier(self.provinces, self.active_faction, province);
        let strategic: int = if hostile {
            AI_ATTACK_SCORE as int
        } else if frontier {
            AI_REINFORCE_SCORE as int
        } else {
            AI_FRIENDLY_MOVE_SCORE as int
        };
        (strategic + province.wealth as int * 100 + spec_mix(
            seed,
            spec_hash_text(move_hash_text(army_id, destination)) ^ 0xA11C_0A0Eu64,
        ) as int % 1000) as u64
    }

    pub open spec fn move_key(self, seed: u64, army_id: Seq<char>, destination: Seq<char>) -> (u64, Seq<char>, Seq<char>) {
        (self.move_score(seed, army_id, destination), army_id, destination)
    }

    pub open spec fn valid_choice(self, j: int, k: int) -> bool {
        &&& 0 <= j < self.armies.len()
        &&& is_mover(self.active_faction)(self.armies[j])
        &&& self.spec_legal_destinations(self.armies[j].id) is Ok
        &&& 0 <= k < self.spec_legal_destinations(self.armies[j].id)->Ok_0.len()
    }

    pub open spec fn choice_at(self, seed: u64, j: int, k: int) -> (u64, Seq<char>, Seq<char>) {
        self.move_key(seed, self.armies[j].id, self.spec_legal_destinations(self.armies[j].id)->Ok_0[k])
    }

    /// A legal move of an unmoved army of the active faction.
    pub open spec fn is_move_choice(self, army_id: Seq<char>, destination: Seq<char>) -> bool {
        exists|j: int, k: int| #[trigger] self.valid_choice(j, k) && self.armies[j].id == army_id
            && self.spec_legal_destinations(self.armies[j].id)->Ok_0[k] == destination
    }

    pub open spec fn is_best_move(self, seed: u64, army_id: Seq<char>, destination: Seq<char>) -> bool {
        &&& self.is_move_choice(army_id, destination)
        &&& forall|j: int, k: int| #[trigger] self.valid_choice(j, k) ==> !move_before(self.choice_at(seed, j, k), self.move_key(seed, army_id, destination))
    }

    /// The AI makes the single best-ranked legal move of any unmoved army of
    /// the active faction; planning fails with the error of the failing army
    /// with the smallest id.
    pub open spec fn spec_ai_move(self, seed: u64) -> (CampaignView, Result<(), CampaignErrorView>) {
        if exists|f: int| self.is_first_failure(f) {
            let f = choose|f: int| self.is_first_failure(f);
            (self, Err(self.move_failure(self.armies[f].id)->Some_0))
        } else if exists|a: Seq<char>, d: Seq<char>| self.is_best_move(seed, a, d) {
            let (a, d) = choose|a: Seq<char>, d: Seq<char>| self.is_best_move(seed, a, d);
            self.spec_move_army(a, d)
        } else {
            (self, Ok(()))
        }
    }
}

impl CampaignState {
    fn move_score(&self, seed: u64, army_id: &String, destination: &String, province: usize) -> (score:
        u64)
        requires
            province < self.provinces.len(),
            crate::campaign::is_first(self@.provinces, province_has_id(destination@), province as int),
        ensures
            score == self@.move_score(seed, army_id@, destination@),
    {
        proof {
            lemma_first_match_unique(self@.provinces, province_has_id(destination@), province as int);
        }
        let hostile = self.provinces[province].owner != self.active_faction;
        let frontier = !hostile && self.is_frontier(&self.active_faction, province);
        let strategic = if hostile {
            AI_ATTACK_SCORE
        } else if frontier {
            AI_REINFORCE_SCORE
        } else {
            AI_FRIENDLY_MOVE_SCORE
        };
        let mut text = army_id.clone();
        text.append(":");
        text.append(destination.as_str());
        let tie_break = mix(seed, hash_text(text.as_str()) ^ 0xA11C_0A0Eu64) % 1_000;
        strategic + self.provinces[province].wealth as u64 * 100 + tie_break
    }

    /// The opponent's movement step; see `spec_ai_move`.
    pub fn ai_move(&mut self, seed: u64) -> (result: Result<(), CampaignError>)
        ensures
            final(self)@ == old(self)@.spec_ai_move(seed).0,
            unit_result(result) == old(self)@.spec_ai_move(seed).1,
    {
        let ghost s = self@;
        let faction_id = self.active_faction.clone();
        let mut failure: Option<(usize, CampaignError)> = None;
        let mut best: Option<(u64, String, String)> = None;
        let mut i: usize = 0;
        while i < self.armies.len()
            invariant
                i <= self.armies.len(),
                self@ == s,
                faction_id@ == s.active_faction,
                match failure {
                    Some((f, e)) => {
                        &&& f < i
                        &&& s.fails(f as int)
                        &&& e@ == s.move_failure(s.armies[f as int].id)->Some_0
                        &&& forall|j: int| 0 <= j < i && #[trigger] s.fails(j) ==> !text_lt(s.armies[j].id, s.armies[f as int].id)
                    },
                    None => forall|j: int| 0 <= j < i ==> !#[trigger] s.fails(j),
                },
                failure is None ==> match best {
                    Some((score, a, d)) => {
                        &&& exists|j: int, k: int| #[trigger] s.valid_choice(j, k) && j < i && s.choice_at(seed, j, k) == (score, a@, d@)
                        &&& forall|j: int, k: int| #[trigger] s.valid_choice(j, k) && j < i ==> !move_before(s.choice_at(seed, j, k), (score, a@, d@))
                    },
                    None => forall|j: int, k: int| #[trigger] s.valid_choice(j, k) ==> j >= i,
                },
            decreases self.armies.len() - i,
        {
            if self.armies[i].owner == faction_id && !self.armies[i].moved_this_turn {
                let id = self.armies[i].id.clone();
                let mut error: Option<CampaignError> = None;
                match self.legal_destinations(id.as_str()) {
                    Err(e) => {
                        error = Some(e);
                    },
                    Ok(destinations) => {
                        let ghost ds = s.spec_legal_destinations(id@)->Ok_0;
                        let mut k: usize = 0;
                        while k < destinations.len() && error.is_none()
                            invariant
                                k <= destinations.len(),
                                i < self.armies.len(),
                                self@ == s,
                                faction_id@ == s.active_faction,
                                id@ == s.armies[i as int].id,
                                is_mover(s.active_faction)(s.armies[i as int]),
                                s.spec_legal_destinations(id@) is Ok,
                                ds == s.spec_legal_destinations(id@)->Ok_0,
                                ds == crate::campaign::text_views(destinations@),
                                match error {
                                    Some(e) => k < ds.len() && missing_province(s.provinces)(ds[k as int])
                                        && e@ == CampaignErrorView::ProvinceNotFound(ds[k as int])
                                        && forall|m: int| 0 <= m < k ==> !missing_province(s.provinces)(#[trigger] ds[m]),
                                    None => forall|m: int| 0 <= m < k ==> !missing_province(s.provinces)(#[trigger] ds[m]),
                                },
                                failure is None ==> match best {
                                    Some((score, a, d)) => {
                                        &&& exists|j: int, m: int| #[trigger] s.valid_choice(j, m) && (j < i || (j == i && m < k)) && s.choice_at(seed, j, m) == (score, a@, d@)
                                        &&& forall|j: int, m: int| #[trigger] s.valid_choice(j, m) && (j < i || (j == i && m < k)) ==> !move_before(s.choice_at(seed, j, m), (score, a@, d@))
                                    },
                                    None => forall|j: int, m: int| #[trigger] s.valid_choice(j, m) ==> (j > i || (j == i && m >= k)),
                                },
                            decreases (destinations.len() - k) * 2 + if error is None { 1int } else { 0int },
                        {
                            match find_province(&self.provinces, &destinations[k]) {
                                None => {
                                    error = Some(CampaignError::ProvinceNotFound(destinations[k].clone()));
                                },
                                Some(province) => {
                                    let score = self.move_score(seed, &id, &destinations[k], province);
                                    let ghost key = s.choice_at(seed, i as int, k as int);
                                    assert(s.valid_choice(i as int, k as int));
                                    assert(key == (score, id@, destinations@[k as int]@));
                                    let replace = match &best {
                                        None => true,
                                        Some((best_score, best_army, best_destination)) => score > *best_score || (score
                                            == *best_score && (text_less(&id, best_army) || (*best_army == id
                                            && text_less(&destinations[k], best_destination)))),
                                    };
                                    proof {
                                        if best is Some {
                                            {
                                                let kb = (best->Some_0.0, best->Some_0.1@, best->Some_0.2@);
                                                assert(replace == move_before(key, kb));
                                                if failure is None {
                                                    assert forall|j: int, m: int| #[trigger] s.valid_choice(j, m) && (j < i || (j == i && m < k + 1)) implies
                                                        !move_before(s.choice_at(seed, j, m), if replace { key } else { kb }) by {
                                                        let kj = s.choice_at(seed, j, m);
                                                        lemma_move_order(kj, kb, key);
                                                        lemma_move_order(key, kb, kj);
                                                        lemma_move_order(kj, key, kb);
                                                        lemma_move_order(key, key, key);
                                                    }
                                                }
                                            }
                                        } else {
                                            lemma_move_order(key, key, key);
                                        }
                                    }
                                    if replace {
                                        best = Some((score, id.clone(), destinations[k].clone()));
                                    }
                                    k += 1;
                                },
                            }
                        }
                        proof {
                            if error is None {
                                assert(!exists_match(ds, missing_province(s.provinces)));
                                assert(!s.fails(i as int));
                            } else {
                                lemma_first_match_unique(ds, missing_province(s.provinces), k as int);
                            }
                        }
                    },
                }
                match error {
                    Some(e) => {
                        assert(s.fails(i as int));
                        let replace = match &failure {
                            None => true,
                            Some((f, _)) => text_less(&id, &self.armies[*f].id),
                        };
                        proof {
                            if failure is Some {
                                let f = failure->Some_0.0;
                                {
                                    assert forall|j: int| 0 <= j < i + 1 && #[trigger] s.fails(j) implies
                                        !text_lt(s.armies[j].id, if replace { s.armies[i as int].id } else { s.armies[f as int].id }) by {
                                        lemma_text_lt_total(s.armies[i as int].id, s.armies[f as int].id);
                                        lemma_text_lt_total(s.armies[j].id, s.armies[i as int].id);
                                        if text_lt(s.armies[j].id, s.armies[i as int].id) && text_lt(s.armies[i as int].id, s.armies[f as int].id) {
                                            lemma_text_lt_transitive(s.armies[j].id, s.armies[i as int].id, s.armies[f as int].id);
                                        }
                                    }
                                }
                            } else {
                                lemma_text_lt_total(s.armies[i as int].id, s.armies[i as int].id);
                            }
                        }
                        if replace {
                            failure = Some((i, e));
                        }
                    },
                    None => {},
                }
            } else {
                assert(!s.fails(i as int));
                assert forall|k: int| !s.valid_choice(i as int, k) by {}
            }
            i += 1;
        }
        match failure {
            Some((f, e)) => {
                proof {
                    assert(s.is_first_failure(f as int));
                    let g = choose|g: int| s.is_first_failure(g);
                    lemma_text_lt_total(s.armies[g].id, s.armies[f as int].id);
                }
                Err(e)
            },
            None => {
                assert(!exists|f: int| s.is_first_failure(f));
                match best {
                    None => {
                        assert(!exists|a: Seq<char>, d: Seq<char>| s.is_best_move(seed, a, d)) by {
                            assert forall|a: Seq<char>, d: Seq<char>| !s.is_move_choice(a, d) by {}
                        }
                        Ok(())
                    },
                    Some((_, army_id, destination)) => {
                        proof {
                            assert(s.is_best_move(seed, army_id@, destination@));
                            let (a, d) = choose|a: Seq<char>, d: Seq<char>| s.is_best_move(seed, a, d);
                            assert(s.is_best_move(seed, a, d));
                            let (j, m) = choose|j: int, m: int| #[trigger] s.valid_choice(j, m) && s.armies[j].id == a
                                && s.spec_legal_destinations(s.armies[j].id)->Ok_0[m] == d;
                            let (j2, m2) = choose|j2: int, m2: int| #[trigger] s.valid_choice(j2, m2) && s.armies[j2].id == army_id@
                                && s.spec_legal_destinations(s.armies[j2].id)->Ok_0[m2] == destination@;
                            lemma_move_order(s.move_key(seed, a, d), s.move_key(seed, army_id@, destination@), s.move_key(seed, a, d));
                        }
                        self.move_army(army_id.as_str(), destination.as_str())
                    },
                }
            },
        }
    }
}


/// Salt that derives the battle seed of an opponent turn from its turn seed.
pub const AI_BATTLE_SALT: u64 = 0xB477_1E5E_DA7A_5EED;

impl CampaignView {
    /// The opponent's planning, recruitment, movement and, when its move
    /// started a battle, the battle's resolution; the first failing step
    /// ends the sequence.
    pub open spec fn spec_ai_steps(self, seed: u64) -> (CampaignView, Result<(), CampaignErrorView>) {
        let planned = self.with_log(
            plan_line(self.turn, self.faction_name(self.active_faction), seed),
        );
        let (recruited, recruit_result) = planned.spec_ai_recruit(seed);
        if recruit_result is Err {
            (recruited, recruit_result)
        } else {
            let (moved, move_result) = recruited.spec_ai_move(seed);
            if move_result is Err {
                (moved, move_result)
            } else if moved.pending_battle is Some {
                let (resolved, battle_result) = moved.spec_resolve_pending_battle(
                    spec_mix(seed, AI_BATTLE_SALT),
                );
                match battle_result {
                    Ok(_) => (resolved, Ok(())),
                    Err(e) => (resolved, Err(e)),
                }
            } else {
                (moved, Ok(()))
            }
        }
    }

    /// A whole opponent turn for the active faction, which must not be the
    /// human one: nothing happens once the campaign is decided, and the turn
    /// passes on unless the opponent's battle decided it.
    pub open spec fn spec_play_ai_turn(self, human: Seq<char>, seed: u64) -> (
        CampaignView,
        Result<(), CampaignErrorView>,
    ) {
        if !self.has_faction(human) {
            (self, Err(CampaignErrorView::FactionNotFound(human)))
        } else if self.active_faction == human || self.spec_winner() is Some {
            (self, Ok(()))
        } else {
            let (done, result) = self.spec_ai_steps(seed);
            if result is Err {
                (done, result)
            } else if done.spec_winner() is None {
                done.spec_end_turn()
            } else {
                (done, Ok(()))
            }
        }
    }

    /// The turn counter, year and income of the turn that an opponent turn
    /// passes on fit their integer types.
    pub open spec fn ai_turn_fits(self, seed: u64) -> bool {
        let (done, result) = self.spec_ai_steps(seed);
        result is Ok && done.spec_winner() is None ==> done.end_turn_fits()
    }
}

impl CampaignState {
    /// The opponent's planning, recruitment, movement and battle; see
    /// `spec_ai_steps`.
    fn ai_steps(&mut self, seed: u64) -> (result: Result<(), CampaignError>)
        ensures
            final(self)@ == old(self)@.spec_ai_steps(seed).0,
            unit_result(result) == old(self)@.spec_ai_steps(seed).1,
    {
        let ghost s = self@;
        let ai_faction = self.active_faction.clone();
        let mut line = turn_line(self.turn);
        let name = self.faction_name(&ai_faction);
        line.append(name.as_str());
        line.append(" plans its deterministic opponent turn with seed ");
        let number = decimal_text(seed);
        line.append(number.as_str());
        line.append(".");
        self.log.push(line);
        proof {
            let planned = s.with_log(plan_line(s.turn, s.faction_name(s.active_faction), seed));
            assert(self@.log =~= planned.log);
            assert(self@ =~= planned);
        }
        let recruited = self.ai_recruit(seed);
        if let Err(e) = recruited {
            return Err(e);
        }
        let moved = self.ai_move(seed);
        if let Err(e) = moved {
            return Err(e);
        }
        if self.pending_battle.is_some() {
            let resolved = self.resolve_pending_battle(mix(seed, AI_BATTLE_SALT));
            if let Err(e) = resolved {
                return Err(e);
            }
        }
        Ok(())
    }

    /// Whether an opponent turn with `seed` keeps the counters of the turn
    /// it passes on within their integer types.
    pub fn ai_turn_fits_now(&self, seed: u64) -> (fits: bool)
        ensures
            fits == self@.ai_turn_fits(seed),
    {
        let mut trial = self.clone();
        if trial.ai_steps(seed).is_err() {
            return true;
        }
        if trial.winner().is_some() {
            return true;
        }
        trial.end_turn_fits_now()
    }

    /// Plays one deterministic opponent turn for the active faction with the
    /// same operations a human turn uses; `human_faction` names the faction
    /// that is never automated.
    pub fn play_ai_turn(&mut self, human_faction: &str, seed: u64) -> (result: Result<
        (),
        CampaignError,
    >)
        requires
            old(self)@.ai_turn_fits(seed),
        ensures
            final(self)@ == old(self)@.spec_play_ai_turn(human_faction@, seed).0,
            unit_result(result) == old(self)@.spec_play_ai_turn(human_faction@, seed).1,
    {
        if let Err(e) = self.faction(human_faction) {
            return Err(e);
        }
        let human = owned(human_faction);
        if self.active_faction == human {
            return Ok(());
        }
        if self.winner().is_some() {
            return Ok(());
        }
        if let Err(e) = self.ai_steps(seed) {
            return Err(e);
        }
        if self.winner().is_none() {
            return self.end_turn();
        }
        Ok(())
    }
}

} // verus!
