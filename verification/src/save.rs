use vstd::prelude::*;

use crate::battle::BattleReportView;
use crate::campaign::{
    opt_text_view, Army, Faction, Province,
    contains_text, exists_match, find_army, find_faction, find_province, lemma_first_match_unique,
    text_views, ArmyView, CampaignState, CampaignView, FactionView, PendingBattleView,
    ProvinceView, RecruitmentOrderView, army_has_id, faction_has_id, province_has_id,
};
use crate::text::{decimal, decimal_text, owned};

verus! {

pub const CAMPAIGN_SAVE_SCHEMA_VERSION: u32 = 1;

/// A campaign save document: its schema version, the human player's
/// faction and the whole campaign state.
#[derive(Debug, PartialEq, Eq)]
pub struct CampaignSave {
    pub schema_version: u32,
    pub player_faction: String,
    pub campaign: CampaignState,
}

pub ghost struct SaveView {
    pub schema_version: u32,
    pub player_faction: Seq<char>,
    pub campaign: CampaignView,
}

impl View for CampaignSave {
    type V = SaveView;

    open spec fn view(&self) -> SaveView {
        SaveView {
            schema_version: self.schema_version,
            player_faction: self.player_faction@,
            campaign: self.campaign@,
        }
    }
}

#[derive(Debug, PartialEq, Eq)]
pub enum SaveError {
    InvalidJson(String),
    UnsupportedVersion(u32),
    InvalidState(String),
    Serialization(String),
}

pub ghost enum SaveErrorView {
    InvalidJson(Seq<char>),
    UnsupportedVersion(u32),
    InvalidState(Seq<char>),
    Serialization(Seq<char>),
}

impl View for SaveError {
    type V = SaveErrorView;

    open spec fn view(&self) -> SaveErrorView {
        match self {
            SaveError::InvalidJson(m) => SaveErrorView::InvalidJson(m@),
            SaveError::UnsupportedVersion(v) => SaveErrorView::UnsupportedVersion(*v),
            SaveError::InvalidState(m) => SaveErrorView::InvalidState(m@),
            SaveError::Serialization(m) => SaveErrorView::Serialization(m@),
        }
    }
}

impl SaveErrorView {
    pub open spec fn message(self) -> Seq<char> {
        match self {
            SaveErrorView::InvalidJson(m) => "invalid save document: "@ + m,
            SaveErrorView::UnsupportedVersion(v) => "unsupported campaign save schema version "@
                + decimal(v as nat),
            SaveErrorView::InvalidState(m) => "invalid campaign save state: "@ + m,
            SaveErrorView::Serialization(m) => "could not serialize campaign save: "@ + m,
        }
    }
}

impl SaveError {
    /// The human-readable description of the error.
    pub fn message(&self) -> (text: String)
        ensures
            text@ == self@.message(),
    {
        match self {
            SaveError::InvalidJson(m) => {
                let mut text = owned("invalid save document: ");
                text.append(m.as_str());
                text
            },
            SaveError::UnsupportedVersion(v) => {
                let mut text = owned("unsupported campaign save schema version ");
                let number = decimal_text(*v as u64);
                text.append(number.as_str());
                text
            },
            SaveError::InvalidState(m) => {
                let mut text = owned("invalid campaign save state: ");
                text.append(m.as_str());
                text
            },
            SaveError::Serialization(m) => {
                let mut text = owned("could not serialize campaign save: ");
                text.append(m.as_str());
                text
            },
        }
    }
}

// ---------------------------------------------------------------------------
// The checks, in the order a save is examined
// ---------------------------------------------------------------------------

/// The first problem among checks `0 .. n`.
pub open spec fn first_problem(check: spec_fn(int) -> Option<Seq<char>>, n: int) -> Option<
    Seq<char>,
>
    decreases n,
{
    if n <= 0 {
        None
    } else {
        match first_problem(check, n - 1) {
            Some(m) => Some(m),
            None => check(n - 1),
        }
    }
}

/// Once a problem is found, later checks do not change it.
pub proof fn lemma_first_problem_stable(check: spec_fn(int) -> Option<Seq<char>>, k: int, n: int)
    requires
        k <= n,
        first_problem(check, k) is Some,
    ensures
        first_problem(check, n) == first_problem(check, k),
    decreases n - k,
{
    if k < n {
        lemma_first_problem_stable(check, k, n - 1);
    }
}

pub open spec fn first_of(a: Option<Seq<char>>, b: Option<Seq<char>>) -> Option<Seq<char>> {
    if a is Some {
        a
    } else {
        b
    }
}

/// An id list must hold no empty and no repeated id.
pub open spec fn id_checks(ids: Seq<Seq<char>>, kind: Seq<char>, empty: Seq<char>) -> spec_fn(
    int,
) -> Option<Seq<char>> {
    |i: int|
        if ids[i].len() == 0 {
            Some(kind + empty)
        } else if exists|j: int| 0 <= j < i && ids[j] == ids[i] {
            Some("duplicate "@ + kind + " id "@ + ids[i])
        } else {
            None
        }
}

pub open spec fn faction_ids(c: CampaignView) -> Seq<Seq<char>> {
    c.factions.map_values(|f: FactionView| f.id)
}

pub open spec fn province_ids(c: CampaignView) -> Seq<Seq<char>> {
    c.provinces.map_values(|p: ProvinceView| p.id)
}

pub open spec fn army_ids(c: CampaignView) -> Seq<Seq<char>> {
    c.armies.map_values(|a: ArmyView| a.id)
}

/// No faction has settled its economy in a turn still to come.
pub open spec fn economy_checks(c: CampaignView) -> spec_fn(int) -> Option<Seq<char>> {
    |i: int|
        match c.factions[i].last_economy_turn {
            Some(turn) => if turn > c.turn {
                Some(
                    "faction "@ + c.factions[i].id + " has economy state from future turn "@
                        + decimal(turn as nat),
                )
            } else {
                None
            },
            None => None,
        }
}

/// A border of province `p` must lead to another existing province that
/// borders `p` back.
pub open spec fn border_checks(c: CampaignView, p: ProvinceView) -> spec_fn(int) -> Option<Seq<char>> {
    |k: int|
        {
            let neighbor = p.neighbors[k];
            if neighbor == p.id {
                Some("province "@ + p.id + " borders itself"@)
            } else if !c.has_province(neighbor) {
                Some("province "@ + p.id + " references unknown neighbor "@ + neighbor)
            } else if !exists|j: int|
                0 <= j < c.provinces.len() && (#[trigger] c.provinces[j]).id == neighbor
                    && c.provinces[j].neighbors.contains(p.id) {
                Some("province border "@ + p.id + " -> "@ + neighbor + " is not reciprocal"@)
            } else {
                None
            }
        }
}

pub open spec fn province_checks(c: CampaignView) -> spec_fn(int) -> Option<Seq<char>> {
    |i: int|
        {
            let p = c.provinces[i];
            if !c.has_faction(p.owner) {
                Some("province "@ + p.id + " references unknown owner "@ + p.owner)
            } else {
                first_problem(border_checks(c, p), p.neighbors.len() as int)
            }
        }
}

pub open spec fn army_checks(c: CampaignView) -> spec_fn(int) -> Option<Seq<char>> {
    |i: int|
        {
            let a = c.armies[i];
            if !c.has_faction(a.owner) {
                Some("army "@ + a.id + " references unknown owner "@ + a.owner)
            } else if !c.has_province(a.province) {
                Some("army "@ + a.id + " references unknown province "@ + a.province)
            } else {
                None
            }
        }
}

/// A pending battle must join existing factions and provinces, start from
/// its attacker army's position, and strike the defender's province.
pub open spec fn pending_problem(c: CampaignView) -> Option<Seq<char>> {
    match c.pending_battle {
        None => None,
        Some(pending) => if !c.has_faction(pending.attacker_faction) || !c.has_faction(
            pending.defender_faction,
        ) {
            Some("pending battle references an unknown faction"@)
        } else if !c.has_province(pending.from_province) || !c.has_province(pending.target_province) {
            Some("pending battle references an unknown province"@)
        } else if !c.has_army(pending.attacker_army_id) {
            Some("pending battle references unknown attacker army "@ + pending.attacker_army_id)
        } else if c.armies[c.army_index(pending.attacker_army_id)].owner != pending.attacker_faction
            || c.armies[c.army_index(pending.attacker_army_id)].province != pending.from_province {
            Some("pending battle attacker does not match its army state"@)
        } else if c.province(pending.target_province).owner != pending.defender_faction {
            Some("pending battle defender does not control the target province"@)
        } else {
            None
        },
    }
}

/// A queued recruitment belongs to a faction that holds its province and
/// completes in a turn still to come.
pub open spec fn order_checks(c: CampaignView) -> spec_fn(int) -> Option<Seq<char>> {
    |i: int|
        {
            let o = c.recruitment_queue[i];
            if !c.has_faction(o.faction_id) {
                Some("recruitment order references unknown faction "@ + o.faction_id)
            } else if !c.has_province(o.province_id) {
                Some("recruitment order references unknown province "@ + o.province_id)
            } else if c.province(o.province_id).owner != o.faction_id {
                Some("recruitment order faction "@ + o.faction_id + " does not control "@ + o.province_id)
            } else if o.ready_on_turn <= c.turn {
                Some(
                    "recruitment order in "@ + o.province_id + " is already due on turn "@ + decimal(
                        o.ready_on_turn as nat,
                    ),
                )
            } else {
                None
            }
        }
}

pub open spec fn report_checks(c: CampaignView) -> spec_fn(int) -> Option<Seq<char>> {
    |i: int|
        {
            let r = c.battle_reports[i];
            if !c.has_faction(r.attacker_faction) || !c.has_faction(r.defender_faction) {
                Some("battle report references an unknown faction"@)
            } else if !c.has_province(r.from_province) || !c.has_province(r.target_province) || (
            r.defender_retreat_province matches Some(p) && !c.has_province(p)) {
                Some("battle report references an unknown province"@)
            } else {
                None
            }
        }
}

/// The first inconsistency of a save's campaign, in the order the checks
/// run: turn and non-empty world, faction ids and the active and player
/// factions, economy turns, province ids, owners and borders, army ids and
/// references, the pending battle, the recruitment queue, the battle reports.
pub open spec fn save_problem(save: SaveView) -> Option<Seq<char>> {
    let c = save.campaign;
    if c.turn == 0 {
        Some("turn must be at least 1"@)
    } else if c.factions.len() == 0 {
        Some("campaign must contain at least one faction"@)
    } else if c.provinces.len() == 0 {
        Some("campaign must contain at least one province"@)
    } else {
        first_of(
            first_problem(id_checks(faction_ids(c), "faction"@, " id must not be empty"@), c.factions.len() as int),
            first_of(
                if !c.has_faction(c.active_faction) {
                    Some("active faction "@ + c.active_faction + " does not exist"@)
                } else if !c.has_faction(save.player_faction) {
                    Some("player faction "@ + save.player_faction + " does not exist"@)
                } else {
                    None
                },
                first_of(
                    first_problem(economy_checks(c), c.factions.len() as int),
                    first_of(
                        first_problem(id_checks(province_ids(c), "province"@, " id must not be empty"@), c.provinces.len() as int),
                        first_of(
                            first_problem(province_checks(c), c.provinces.len() as int),
                            first_of(
                                first_problem(id_checks(army_ids(c), "army"@, " id must not be empty"@), c.armies.len() as int),
                                first_of(
                                    first_problem(army_checks(c), c.armies.len() as int),
                                    first_of(
                                        pending_problem(c),
                                        first_of(
                                            first_problem(order_checks(c), c.recruitment_queue.len() as int),
                                            first_problem(report_checks(c), c.battle_reports.len() as int),
                                        ),
                                    ),
                                ),
                            ),
                        ),
                    ),
                ),
            ),
        )
    }
}

/// A save is accepted when it has the supported schema and no problem.
pub open spec fn spec_validate(save: SaveView) -> Result<(), SaveErrorView> {
    if save.schema_version != CAMPAIGN_SAVE_SCHEMA_VERSION {
        Err(SaveErrorView::UnsupportedVersion(save.schema_version))
    } else {
        match save_problem(save) {
            Some(m) => Err(SaveErrorView::InvalidState(m)),
            None => Ok(()),
        }
    }
}

pub open spec fn unit_save_result(r: Result<(), SaveError>) -> Result<(), SaveErrorView> {
    match r {
        Ok(()) => Ok(()),
        Err(e) => Err(e@),
    }
}


// ---------------------------------------------------------------------------
// Checking
// ---------------------------------------------------------------------------

pub(crate) fn has_faction_id(c: &CampaignState, id: &String) -> (found: bool)
    ensures
        found == c@.has_faction(id@),
{
    match find_faction(&c.factions, id) {
        Some(i) => {
            proof {
                lemma_first_match_unique(c@.factions, faction_has_id(id@), i as int);
            }
            true
        },
        None => false,
    }
}

pub(crate) fn has_province_id(c: &CampaignState, id: &String) -> (found: bool)
    ensures
        found == c@.has_province(id@),
{
    match find_province(&c.provinces, id) {
        Some(i) => {
            proof {
                lemma_first_match_unique(c@.provinces, province_has_id(id@), i as int);
            }
            true
        },
        None => false,
    }
}

pub(crate) fn has_army_id(c: &CampaignState, id: &String) -> (found: bool)
    ensures
        found == c@.has_army(id@),
{
    match find_army(&c.armies, id) {
        Some(i) => {
            proof {
                lemma_first_match_unique(c@.armies, army_has_id(id@), i as int);
            }
            true
        },
        None => false,
    }
}

pub(crate) fn sentence2(a: &str, b: &String, c: &str) -> (text: String)
    ensures
        text@ == a@ + b@ + c@,
{
    let mut text = owned(a);
    text.append(b.as_str());
    text.append(c);
    text
}

pub(crate) fn sentence3(a: &str, b: &String, c: &str, d: &String) -> (text: String)
    ensures
        text@ == a@ + b@ + c@ + d@,
{
    let mut text = sentence2(a, b, c);
    text.append(d.as_str());
    text
}

pub(crate) fn sentence4(a: &str, b: &String, c: &str, d: &String, e: &str) -> (text: String)
    ensures
        text@ == a@ + b@ + c@ + d@ + e@,
{
    let mut text = sentence2(a, b, c);
    text.append(d.as_str());
    text.append(e);
    text
}

pub(crate) fn sentence1(a: &str, b: &String) -> (text: String)
    ensures
        text@ == a@ + b@,
{
    let mut text = owned(a);
    text.append(b.as_str());
    text
}

/// The first empty or repeated id of a list.
pub(crate) fn check_ids(ids: &Vec<String>, kind: &str, empty: &str) -> (problem: Option<String>)
    ensures
        opt_text_view(problem) == first_problem(id_checks(text_views(ids@), kind@, empty@), ids.len() as int),
{
    let ghost views = text_views(ids@);
    let ghost check = id_checks(views, kind@, empty@);
    let mut i: usize = 0;
    while i < ids.len()
        invariant
            i <= ids.len(),
            views == text_views(ids@),
            views.len() == ids.len(),
            check == id_checks(views, kind@, empty@),
            first_problem(check, i as int) is None,
        decreases ids.len() - i,
    {
        assert(views[i as int] == ids@[i as int]@);
        if ids[i].as_str().is_empty() {
            let mut text = owned(kind);
            text.append(empty);
            proof {
                lemma_first_problem_stable(check, i as int + 1, ids.len() as int);
            }
            return Some(text);
        }
        let mut j: usize = 0;
        while j < i
            invariant
                j <= i < ids.len(),
                views == text_views(ids@),
                views.len() == ids.len(),
                check == id_checks(views, kind@, empty@),
                first_problem(check, i as int) is None,
                views[i as int].len() != 0,
                forall|k: int| 0 <= k < j ==> #[trigger] views[k] != views[i as int],
            decreases i - j,
        {
            if ids[j] == ids[i] {
                assert(views[j as int] == views[i as int]);
                let mut text = owned("duplicate ");
                text.append(kind);
                text.append(" id ");
                text.append(ids[i].as_str());
                proof {
                    lemma_first_problem_stable(check, i as int + 1, ids.len() as int);
                }
                return Some(text);
            }
            j += 1;
        }
        i += 1;
    }
    None
}

pub(crate) fn faction_id_list(factions: &Vec<Faction>) -> (ids: Vec<String>)
    ensures
        text_views(ids@) == factions@.map_values(|f: Faction| f@).map_values(|f: FactionView| f.id),
{
    let mut ids: Vec<String> = Vec::new();
    let mut i: usize = 0;
    while i < factions.len()
        invariant
            i <= factions.len(),
            ids.len() == i,
            forall|j: int| 0 <= j < i ==> (#[trigger] ids@[j])@ == factions@[j].id@,
        decreases factions.len() - i,
    {
        ids.push(factions[i].id.clone());
        i += 1;
    }
    assert(text_views(ids@) =~= factions@.map_values(|f: Faction| f@).map_values(
        |f: FactionView| f.id,
    ));
    ids
}

pub(crate) fn province_id_list(provinces: &Vec<Province>) -> (ids: Vec<String>)
    ensures
        text_views(ids@) == provinces@.map_values(|p: Province| p@).map_values(|p: ProvinceView| p.id),
{
    let mut ids: Vec<String> = Vec::new();
    let mut i: usize = 0;
    while i < provinces.len()
        invariant
            i <= provinces.len(),
            ids.len() == i,
            forall|j: int| 0 <= j < i ==> (#[trigger] ids@[j])@ == provinces@[j].id@,
        decreases provinces.len() - i,
    {
        ids.push(provinces[i].id.clone());
        i += 1;
    }
    assert(text_views(ids@) =~= provinces@.map_values(|p: Province| p@).map_values(
        |p: ProvinceView| p.id,
    ));
    ids
}

pub(crate) fn army_id_list(armies: &Vec<Army>) -> (ids: Vec<String>)
    ensures
        text_views(ids@) == armies@.map_values(|a: Army| a@).map_values(|a: ArmyView| a.id),
{
    let mut ids: Vec<String> = Vec::new();
    let mut i: usize = 0;
    while i < armies.len()
        invariant
            i <= armies.len(),
            ids.len() == i,
            forall|j: int| 0 <= j < i ==> (#[trigger] ids@[j])@ == armies@[j].id@,
        decreases armies.len() - i,
    {
        ids.push(armies[i].id.clone());
        i += 1;
    }
    assert(text_views(ids@) =~= armies@.map_values(|a: Army| a@).map_values(|a: ArmyView| a.id));
    ids
}

fn check_economy(c: &CampaignState) -> (problem: Option<String>)
    ensures
        opt_text_view(problem) == first_problem(economy_checks(c@), c@.factions.len() as int),
{
    let ghost check = economy_checks(c@);
    let mut i: usize = 0;
    while i < c.factions.len()
        invariant
            i <= c.factions.len(),
            check == economy_checks(c@),
            first_problem(check, i as int) is None,
        decreases c.factions.len() - i,
    {
        assert(c@.factions[i as int] == c.factions@[i as int]@);
        if let Some(turn) = c.factions[i].last_economy_turn {
            if turn > c.turn {
                let mut text = sentence2("faction ", &c.factions[i].id, " has economy state from future turn ");
                let number = decimal_text(turn as u64);
                text.append(number.as_str());
                proof {
                    lemma_first_problem_stable(check, i as int + 1, c@.factions.len() as int);
                }
                return Some(text);
            }
        }
        i += 1;
    }
    None
}

/// Whether some province with id `neighbor` borders `province` back.
fn borders_back(c: &CampaignState, neighbor: &String, province: &String) -> (found: bool)
    ensures
        found == exists|j: int|
            0 <= j < c@.provinces.len() && (#[trigger] c@.provinces[j]).id == neighbor@
                && c@.provinces[j].neighbors.contains(province@),
{
    let mut j: usize = 0;
    while j < c.provinces.len()
        invariant
            j <= c.provinces.len(),
            forall|k: int|
                0 <= k < j ==> !((#[trigger] c@.provinces[k]).id == neighbor@
                    && c@.provinces[k].neighbors.contains(province@)),
        decreases c.provinces.len() - j,
    {
        assert(c@.provinces[j as int] == c.provinces@[j as int]@);
        if c.provinces[j].id == *neighbor && contains_text(&c.provinces[j].neighbors, province) {
            return true;
        }
        j += 1;
    }
    false
}

fn check_borders(c: &CampaignState, i: usize) -> (problem: Option<String>)
    requires
        i < c.provinces.len(),
    ensures
        opt_text_view(problem) == first_problem(
            border_checks(c@, c@.provinces[i as int]),
            c@.provinces[i as int].neighbors.len() as int,
        ),
{
    let ghost p = c@.provinces[i as int];
    let ghost check = border_checks(c@, p);
    let province = &c.provinces[i];
    assert(province@ == p);
    let mut k: usize = 0;
    while k < province.neighbors.len()
        invariant
            k <= province.neighbors.len(),
            i < c.provinces.len(),
            p == c@.provinces[i as int],
            province@ == p,
            p.neighbors.len() == province.neighbors.len(),
            check == border_checks(c@, p),
            first_problem(check, k as int) is None,
        decreases province.neighbors.len() - k,
    {
        let neighbor = &province.neighbors[k];
        assert(p.neighbors[k as int] == neighbor@);
        if *neighbor == province.id {
            proof {
                lemma_first_problem_stable(check, k as int + 1, p.neighbors.len() as int);
            }
            return Some(sentence2("province ", &province.id, " borders itself"));
        }
        if !has_province_id(c, neighbor) {
            proof {
                lemma_first_problem_stable(check, k as int + 1, p.neighbors.len() as int);
            }
            return Some(sentence3("province ", &province.id, " references unknown neighbor ", neighbor));
        }
        if !borders_back(c, neighbor, &province.id) {
            proof {
                lemma_first_problem_stable(check, k as int + 1, p.neighbors.len() as int);
            }
            return Some(sentence4("province border ", &province.id, " -> ", neighbor, " is not reciprocal"));
        }
        k += 1;
    }
    None
}

fn check_provinces(c: &CampaignState) -> (problem: Option<String>)
    ensures
        opt_text_view(problem) == first_problem(province_checks(c@), c@.provinces.len() as int),
{
    let ghost check = province_checks(c@);
    let mut i: usize = 0;
    while i < c.provinces.len()
        invariant
            i <= c.provinces.len(),
            check == province_checks(c@),
            first_problem(check, i as int) is None,
        decreases c.provinces.len() - i,
    {
        let province = &c.provinces[i];
        assert(c@.provinces[i as int] == province@);
        if !has_faction_id(c, &province.owner) {
            proof {
                lemma_first_problem_stable(check, i as int + 1, c@.provinces.len() as int);
            }
            return Some(sentence3("province ", &province.id, " references unknown owner ", &province.owner));
        }
        let borders = check_borders(c, i);
        if borders.is_some() {
            proof {
                lemma_first_problem_stable(check, i as int + 1, c@.provinces.len() as int);
            }
            return borders;
        }
        i += 1;
    }
    None
}

pub(crate) fn check_armies(c: &CampaignState) -> (problem: Option<String>)
    ensures
        opt_text_view(problem) == first_problem(army_checks(c@), c@.armies.len() as int),
{
    let ghost check = army_checks(c@);
    let mut i: usize = 0;
    while i < c.armies.len()
        invariant
            i <= c.armies.len(),
            check == army_checks(c@),
            first_problem(check, i as int) is None,
        decreases c.armies.len() - i,
    {
        let army = &c.armies[i];
        assert(c@.armies[i as int] == army@);
        if !has_faction_id(c, &army.owner) {
            proof {
                lemma_first_problem_stable(check, i as int + 1, c@.armies.len() as int);
            }
            return Some(sentence3("army ", &army.id, " references unknown owner ", &army.owner));
        }
        if !has_province_id(c, &army.province) {
            proof {
                lemma_first_problem_stable(check, i as int + 1, c@.armies.len() as int);
            }
            return Some(sentence3("army ", &army.id, " references unknown province ", &army.province));
        }
        i += 1;
    }
    None
}

fn check_pending(c: &CampaignState) -> (problem: Option<String>)
    ensures
        opt_text_view(problem) == pending_problem(c@),
{
    let pending = match &c.pending_battle {
        Some(pending) => pending,
        None => return None,
    };
    if !has_faction_id(c, &pending.attacker_faction) || !has_faction_id(c, &pending.defender_faction) {
        return Some(owned("pending battle references an unknown faction"));
    }
    if !has_province_id(c, &pending.from_province) || !has_province_id(c, &pending.target_province) {
        return Some(owned("pending battle references an unknown province"));
    }
    let a = match find_army(&c.armies, &pending.attacker_army_id) {
        Some(a) => a,
        None => return Some(sentence1("pending battle references unknown attacker army ", &pending.attacker_army_id)),
    };
    proof {
        lemma_first_match_unique(c@.armies, army_has_id(pending.attacker_army_id@), a as int);
    }
    assert(c@.armies[a as int] == c.armies@[a as int]@);
    if c.armies[a].owner != pending.attacker_faction || c.armies[a].province != pending.from_province {
        return Some(owned("pending battle attacker does not match its army state"));
    }
    match find_province(&c.provinces, &pending.target_province) {
        Some(t) => {
            proof {
                lemma_first_match_unique(c@.provinces, province_has_id(pending.target_province@), t as int);
            }
            assert(c@.provinces[t as int] == c.provinces@[t as int]@);
            if c.provinces[t].owner != pending.defender_faction {
                return Some(owned("pending battle defender does not control the target province"));
            }
        },
        None => {},
    }
    None
}

fn check_orders(c: &CampaignState) -> (problem: Option<String>)
    ensures
        opt_text_view(problem) == first_problem(order_checks(c@), c@.recruitment_queue.len() as int),
{
    let ghost check = order_checks(c@);
    let mut i: usize = 0;
    while i < c.recruitment_queue.len()
        invariant
            i <= c.recruitment_queue.len(),
            check == order_checks(c@),
            first_problem(check, i as int) is None,
        decreases c.recruitment_queue.len() - i,
    {
        let order = &c.recruitment_queue[i];
        assert(c@.recruitment_queue[i as int] == order@);
        if !has_faction_id(c, &order.faction_id) {
            proof {
                lemma_first_problem_stable(check, i as int + 1, c@.recruitment_queue.len() as int);
            }
            return Some(sentence1("recruitment order references unknown faction ", &order.faction_id));
        }
        let p = match find_province(&c.provinces, &order.province_id) {
            Some(p) => p,
            None => {
                proof {
                    lemma_first_problem_stable(check, i as int + 1, c@.recruitment_queue.len() as int);
                }
                return Some(
                    sentence1("recruitment order references unknown province ", &order.province_id),
                );
            },
        };
        proof {
            lemma_first_match_unique(c@.provinces, province_has_id(order.province_id@), p as int);
        }
        assert(c@.provinces[p as int] == c.provinces@[p as int]@);
        if c.provinces[p].owner != order.faction_id {
            proof {
                lemma_first_problem_stable(check, i as int + 1, c@.recruitment_queue.len() as int);
            }
            return Some(sentence3("recruitment order faction ", &order.faction_id, " does not control ", &order.province_id));
        }
        if order.ready_on_turn <= c.turn {
            let mut text = sentence2("recruitment order in ", &order.province_id, " is already due on turn ");
            let number = decimal_text(order.ready_on_turn as u64);
            text.append(number.as_str());
            proof {
                lemma_first_problem_stable(check, i as int + 1, c@.recruitment_queue.len() as int);
            }
            return Some(text);
        }
        i += 1;
    }
    None
}

fn check_reports(c: &CampaignState) -> (problem: Option<String>)
    ensures
        opt_text_view(problem) == first_problem(report_checks(c@), c@.battle_reports.len() as int),
{
    let ghost check = report_checks(c@);
    let mut i: usize = 0;
    while i < c.battle_reports.len()
        invariant
            i <= c.battle_reports.len(),
            check == report_checks(c@),
            first_problem(check, i as int) is None,
        decreases c.battle_reports.len() - i,
    {
        let report = &c.battle_reports[i];
        assert(c@.battle_reports[i as int] == report@);
        if !has_faction_id(c, &report.attacker_faction) || !has_faction_id(c, &report.defender_faction) {
            proof {
                lemma_first_problem_stable(check, i as int + 1, c@.battle_reports.len() as int);
            }
            return Some(owned("battle report references an unknown faction"));
        }
        let retreat_unknown = match &report.defender_retreat_province {
            Some(p) => !has_province_id(c, p),
            None => false,
        };
        if !has_province_id(c, &report.from_province) || !has_province_id(c, &report.target_province)
            || retreat_unknown {
            proof {
                lemma_first_problem_stable(check, i as int + 1, c@.battle_reports.len() as int);
            }
            return Some(owned("battle report references an unknown province"));
        }
        i += 1;
    }
    None
}

impl CampaignSave {
    /// The first inconsistency of the campaign, if any.
    fn problem(&self) -> (problem: Option<String>)
        ensures
            opt_text_view(problem) == save_problem(self@),
    {
        let c = &self.campaign;
        if c.turn == 0 {
            return Some(owned("turn must be at least 1"));
        }
        if c.factions.len() == 0 {
            return Some(owned("campaign must contain at least one faction"));
        }
        if c.provinces.len() == 0 {
            return Some(owned("campaign must contain at least one province"));
        }
        let faction_list = faction_id_list(&c.factions);
        assert(text_views(faction_list@) =~= faction_ids(c@));
        let problem = check_ids(&faction_list, "faction", " id must not be empty");
        if problem.is_some() {
            return problem;
        }
        if !has_faction_id(c, &c.active_faction) {
            return Some(sentence2("active faction ", &c.active_faction, " does not exist"));
        }
        if !has_faction_id(c, &self.player_faction) {
            return Some(sentence2("player faction ", &self.player_faction, " does not exist"));
        }
        let problem = check_economy(c);
        if problem.is_some() {
            return problem;
        }
        let province_list = province_id_list(&c.provinces);
        assert(text_views(province_list@) =~= province_ids(c@));
        let problem = check_ids(&province_list, "province", " id must not be empty");
        if problem.is_some() {
            return problem;
        }
        let problem = check_provinces(c);
        if problem.is_some() {
            return problem;
        }
        let army_list = army_id_list(&c.armies);
        assert(text_views(army_list@) =~= army_ids(c@));
        let problem = check_ids(&army_list, "army", " id must not be empty");
        if problem.is_some() {
            return problem;
        }
        let problem = check_armies(c);
        if problem.is_some() {
            return problem;
        }
        let problem = check_pending(c);
        if problem.is_some() {
            return problem;
        }
        let problem = check_orders(c);
        if problem.is_some() {
            return problem;
        }
        check_reports(c)
    }

    /// Accepts a save of the supported schema whose campaign is consistent;
    /// otherwise names the schema it has or its first inconsistency.
    pub fn validate(&self) -> (result: Result<(), SaveError>)
        ensures
            unit_save_result(result) == spec_validate(self@),
    {
        if self.schema_version != CAMPAIGN_SAVE_SCHEMA_VERSION {
            return Err(SaveError::UnsupportedVersion(self.schema_version));
        }
        match self.problem() {
            Some(message) => Err(SaveError::InvalidState(message)),
            None => Ok(()),
        }
    }

    /// A save of the current schema for `campaign`, played by
    /// `player_faction`, once it validates.
    pub fn from_campaign(campaign: CampaignState, player_faction: &str) -> (save: Result<
        Self,
        SaveError,
    >)
        ensures
            ({
                let expected = SaveView {
                    schema_version: CAMPAIGN_SAVE_SCHEMA_VERSION,
                    player_faction: player_faction@,
                    campaign: campaign@,
                };
                match save {
                    Ok(s) => s@ == expected && spec_validate(expected) is Ok,
                    Err(e) => spec_validate(expected) == Err::<(), SaveErrorView>(e@),
                }
            }),
    {
        let save = CampaignSave {
            schema_version: CAMPAIGN_SAVE_SCHEMA_VERSION,
            player_faction: owned(player_faction),
            campaign,
        };
        match save.validate() {
            Ok(()) => Ok(save),
            Err(e) => Err(e),
        }
    }
}


// ---------------------------------------------------------------------------
// What a valid save guarantees
// ---------------------------------------------------------------------------

/// Ids are present and never repeated.
pub open spec fn distinct_present(ids: Seq<Seq<char>>) -> bool {
    &&& forall|i: int| 0 <= i < ids.len() ==> (#[trigger] ids[i]).len() > 0
    &&& forall|i: int, j: int| 0 <= j < i < ids.len() ==> (#[trigger] ids[j]) != (#[trigger] ids[i])
}

/// A campaign whose every reference resolves: unique ids; existing active
/// and player factions; no economy from the future; owned provinces with
/// reciprocal borders to other existing provinces; armies of existing
/// factions in existing provinces; a pending battle, recruitment orders and
/// reports that refer to existing things.
pub open spec fn consistent(save: SaveView) -> bool {
    let c = save.campaign;
    &&& c.turn >= 1
    &&& c.factions.len() > 0
    &&& c.provinces.len() > 0
    &&& distinct_present(faction_ids(c))
    &&& distinct_present(province_ids(c))
    &&& distinct_present(army_ids(c))
    &&& c.has_faction(c.active_faction)
    &&& c.has_faction(save.player_faction)
    &&& forall|i: int|
        0 <= i < c.factions.len() ==> ((#[trigger] c.factions[i]).last_economy_turn matches Some(t)
            ==> t <= c.turn)
    &&& forall|i: int| 0 <= i < c.provinces.len() ==> c.has_faction((#[trigger] c.provinces[i]).owner)
    &&& forall|i: int, k: int|
        0 <= i < c.provinces.len() && 0 <= k < c.provinces[i].neighbors.len() ==> {
            let neighbor = #[trigger] c.provinces[i].neighbors[k];
            &&& neighbor != c.provinces[i].id
            &&& c.has_province(neighbor)
            &&& exists|j: int|
                0 <= j < c.provinces.len() && (#[trigger] c.provinces[j]).id == neighbor
                    && c.provinces[j].neighbors.contains(c.provinces[i].id)
        }
    &&& forall|i: int|
        0 <= i < c.armies.len() ==> c.has_faction((#[trigger] c.armies[i]).owner) && c.has_province(
            c.armies[i].province,
        )
    &&& (c.pending_battle matches Some(pending) ==> {
        &&& c.has_faction(pending.attacker_faction)
        &&& c.has_faction(pending.defender_faction)
        &&& c.has_province(pending.from_province)
        &&& c.has_province(pending.target_province)
        &&& c.has_army(pending.attacker_army_id)
        &&& c.armies[c.army_index(pending.attacker_army_id)].owner == pending.attacker_faction
        &&& c.armies[c.army_index(pending.attacker_army_id)].province == pending.from_province
        &&& c.province(pending.target_province).owner == pending.defender_faction
    })
    &&& forall|i: int|
        0 <= i < c.recruitment_queue.len() ==> {
            let o = #[trigger] c.recruitment_queue[i];
            &&& c.has_faction(o.faction_id)
            &&& c.has_province(o.province_id)
            &&& c.province(o.province_id).owner == o.faction_id
            &&& o.ready_on_turn > c.turn
        }
    &&& forall|i: int|
        0 <= i < c.battle_reports.len() ==> {
            let r = #[trigger] c.battle_reports[i];
            &&& c.has_faction(r.attacker_faction)
            &&& c.has_faction(r.defender_faction)
            &&& c.has_province(r.from_province)
            &&& c.has_province(r.target_province)
            &&& (r.defender_retreat_province matches Some(p) ==> c.has_province(p))
        }
}

proof fn lemma_all_clear(check: spec_fn(int) -> Option<Seq<char>>, n: int)
    requires
        forall|i: int| 0 <= i < n ==> (#[trigger] check(i)) is None,
    ensures
        first_problem(check, n) is None,
    decreases n,
{
    if n > 0 {
        lemma_all_clear(check, n - 1);
    }
}

proof fn lemma_distinct_ids_pass(ids: Seq<Seq<char>>, kind: Seq<char>, empty: Seq<char>)
    requires
        distinct_present(ids),
    ensures
        first_problem(id_checks(ids, kind, empty), ids.len() as int) is None,
{
    assert forall|i: int| 0 <= i < ids.len() implies (#[trigger] id_checks(ids, kind, empty)(i)) is None by {
        assert(ids[i].len() > 0);
        if exists|j: int| 0 <= j < i && ids[j] == ids[i] {
            let j = choose|j: int| 0 <= j < i && ids[j] == ids[i];
            assert(ids[j] != ids[i]);
        }
    }
    lemma_all_clear(id_checks(ids, kind, empty), ids.len() as int);
}

/// A save is accepted exactly when it has the supported schema and is
/// consistent: validation refuses no consistent save (whatever its battle
/// reports, recruitment orders or pending battle hold, as long as they refer
/// to existing things) and accepts no inconsistent one.
pub proof fn saves_validate_exactly_when_consistent(save: SaveView)
    ensures
        spec_validate(save) is Ok <==> (save.schema_version == CAMPAIGN_SAVE_SCHEMA_VERSION
            && consistent(save)),
{
    if spec_validate(save) is Ok {
        validated_saves_are_consistent(save);
    }
    if save.schema_version == CAMPAIGN_SAVE_SCHEMA_VERSION && consistent(save) {
        let c = save.campaign;
        lemma_distinct_ids_pass(faction_ids(c), "faction"@, " id must not be empty"@);
        lemma_distinct_ids_pass(province_ids(c), "province"@, " id must not be empty"@);
        lemma_distinct_ids_pass(army_ids(c), "army"@, " id must not be empty"@);
        assert forall|i: int| 0 <= i < c.factions.len() implies (#[trigger] economy_checks(c)(i)) is None by {
            assert(c.factions[i].last_economy_turn matches Some(t) ==> t <= c.turn);
        }
        lemma_all_clear(economy_checks(c), c.factions.len() as int);
        assert forall|i: int| 0 <= i < c.provinces.len() implies (#[trigger] province_checks(c)(i)) is None by {
            let p = c.provinces[i];
            assert(c.has_faction(p.owner));
            assert forall|k: int| 0 <= k < p.neighbors.len() implies (#[trigger] border_checks(c, p)(k)) is None by {
                let neighbor = c.provinces[i].neighbors[k];
                assert(neighbor != p.id);
            }
            lemma_all_clear(border_checks(c, p), p.neighbors.len() as int);
        }
        lemma_all_clear(province_checks(c), c.provinces.len() as int);
        assert forall|i: int| 0 <= i < c.armies.len() implies (#[trigger] army_checks(c)(i)) is None by {
            assert(c.has_faction(c.armies[i].owner));
        }
        lemma_all_clear(army_checks(c), c.armies.len() as int);
        assert forall|i: int| 0 <= i < c.recruitment_queue.len() implies (#[trigger] order_checks(c)(i)) is None by {
            assert(c.has_faction(c.recruitment_queue[i].faction_id));
        }
        lemma_all_clear(order_checks(c), c.recruitment_queue.len() as int);
        assert forall|i: int| 0 <= i < c.battle_reports.len() implies (#[trigger] report_checks(c)(i)) is None by {
            assert(c.has_faction(c.battle_reports[i].attacker_faction));
        }
        lemma_all_clear(report_checks(c), c.battle_reports.len() as int);
    }
}

pub proof fn lemma_no_problem(check: spec_fn(int) -> Option<Seq<char>>, n: int, i: int)
    requires
        first_problem(check, n) is None,
        0 <= i < n,
    ensures
        check(i) is None,
    decreases n,
{
    if i < n - 1 {
        lemma_no_problem(check, n - 1, i);
    }
}

proof fn lemma_ids_checked(ids: Seq<Seq<char>>, kind: Seq<char>, empty: Seq<char>)
    requires
        first_problem(id_checks(ids, kind, empty), ids.len() as int) is None,
    ensures
        distinct_present(ids),
{
    assert forall|i: int| 0 <= i < ids.len() implies (#[trigger] ids[i]).len() > 0 by {
        lemma_no_problem(id_checks(ids, kind, empty), ids.len() as int, i);
    }
    assert forall|i: int, j: int| 0 <= j < i < ids.len() implies (#[trigger] ids[j]) != (
    #[trigger] ids[i]) by {
        lemma_no_problem(id_checks(ids, kind, empty), ids.len() as int, i);
    }
}

/// A save that validates is consistent: every id is unique and every
/// reference in the campaign resolves.
pub proof fn validated_saves_are_consistent(save: SaveView)
    requires
        spec_validate(save) is Ok,
    ensures
        consistent(save),
{
    let c = save.campaign;
    lemma_ids_checked(faction_ids(c), "faction"@, " id must not be empty"@);
    lemma_ids_checked(province_ids(c), "province"@, " id must not be empty"@);
    lemma_ids_checked(army_ids(c), "army"@, " id must not be empty"@);
    assert forall|i: int| 0 <= i < c.factions.len() implies ((#[trigger] c.factions[i]).last_economy_turn
        matches Some(t) ==> t <= c.turn) by {
        lemma_no_problem(economy_checks(c), c.factions.len() as int, i);
    }
    assert forall|i: int| 0 <= i < c.provinces.len() implies c.has_faction(
        (#[trigger] c.provinces[i]).owner,
    ) by {
        lemma_no_problem(province_checks(c), c.provinces.len() as int, i);
    }
    assert forall|i: int, k: int|
        0 <= i < c.provinces.len() && 0 <= k < c.provinces[i].neighbors.len() implies {
        let neighbor = #[trigger] c.provinces[i].neighbors[k];
        &&& neighbor != c.provinces[i].id
        &&& c.has_province(neighbor)
        &&& exists|j: int|
            0 <= j < c.provinces.len() && (#[trigger] c.provinces[j]).id == neighbor
                && c.provinces[j].neighbors.contains(c.provinces[i].id)
    } by {
        lemma_no_problem(province_checks(c), c.provinces.len() as int, i);
        lemma_no_problem(
            border_checks(c, c.provinces[i]),
            c.provinces[i].neighbors.len() as int,
            k,
        );
    }
    assert forall|i: int| 0 <= i < c.armies.len() implies c.has_faction(
        (#[trigger] c.armies[i]).owner,
    ) && c.has_province(c.armies[i].province) by {
        lemma_no_problem(army_checks(c), c.armies.len() as int, i);
    }
    assert forall|i: int| 0 <= i < c.recruitment_queue.len() implies {
        let o = #[trigger] c.recruitment_queue[i];
        &&& c.has_faction(o.faction_id)
        &&& c.has_province(o.province_id)
        &&& c.province(o.province_id).owner == o.faction_id
        &&& o.ready_on_turn > c.turn
    } by {
        lemma_no_problem(order_checks(c), c.recruitment_queue.len() as int, i);
    }
    assert forall|i: int| 0 <= i < c.battle_reports.len() implies {
        let r = #[trigger] c.battle_reports[i];
        &&& c.has_faction(r.attacker_faction)
        &&& c.has_faction(r.defender_faction)
        &&& c.has_province(r.from_province)
        &&& c.has_province(r.target_province)
        &&& (r.defender_retreat_province matches Some(p) ==> c.has_province(p))
    } by {
        lemma_no_problem(report_checks(c), c.battle_reports.len() as int, i);
    }
}

/// The version gate of reading a save: a document is interpreted further
/// only when it declares the supported schema.
pub fn check_core_schema_version(found: u32) -> (result: Result<(), SaveError>)
    ensures
        unit_save_result(result) == if found == CAMPAIGN_SAVE_SCHEMA_VERSION {
            Ok::<(), SaveErrorView>(())
        } else {
            Err(SaveErrorView::UnsupportedVersion(found))
        },
{
    if found != CAMPAIGN_SAVE_SCHEMA_VERSION {
        return Err(SaveError::UnsupportedVersion(found));
    }
    Ok(())
}

} // verus!
