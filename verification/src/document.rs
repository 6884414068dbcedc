use vstd::prelude::*;

use crate::campaign::{
    find_army, lemma_first_match_unique, opt_text_view, army_has_id, CampaignState, CampaignView,
};
use crate::save::{
    army_checks, army_id_list, army_ids, check_armies, check_ids, faction_id_list, faction_ids,
    first_of, first_problem, has_faction_id, has_province_id, id_checks,
    lemma_first_problem_stable, province_id_list, province_ids, sentence1, sentence2, sentence3,
};
use crate::text::{decimal, decimal_text, owned};

verus! {

/// The schema version of save files this build reads and writes.
pub const SAVE_SCHEMA_VERSION: u32 = 1;

/// A versioned save file: the schema, the human player's faction and the
/// campaign.
#[derive(Debug, PartialEq, Eq)]
pub struct CampaignSave {
    pub schema_version: u32,
    pub player_faction: String,
    pub campaign: CampaignState,
}

pub ghost struct SaveFileView {
    pub schema_version: u32,
    pub player_faction: Seq<char>,
    pub campaign: CampaignView,
}

impl View for CampaignSave {
    type V = SaveFileView;

    open spec fn view(&self) -> SaveFileView {
        SaveFileView {
            schema_version: self.schema_version,
            player_faction: self.player_faction@,
            campaign: self.campaign@,
        }
    }
}

#[derive(Debug, PartialEq, Eq)]
pub enum SaveError {
    InvalidJson(String),
    UnsupportedVersion { found: u32, supported: u32 },
    InvalidState(String),
}

pub ghost enum SaveFileErrorView {
    InvalidJson(Seq<char>),
    UnsupportedVersion { found: u32, supported: u32 },
    InvalidState(Seq<char>),
}

impl View for SaveError {
    type V = SaveFileErrorView;

    open spec fn view(&self) -> SaveFileErrorView {
        match self {
            SaveError::InvalidJson(m) => SaveFileErrorView::InvalidJson(m@),
            SaveError::UnsupportedVersion { found, supported } => SaveFileErrorView::UnsupportedVersion {
                found: *found,
                supported: *supported,
            },
            SaveError::InvalidState(m) => SaveFileErrorView::InvalidState(m@),
        }
    }
}

impl SaveFileErrorView {
    pub open spec fn message(self) -> Seq<char> {
        match self {
            SaveFileErrorView::InvalidJson(m) => "invalid campaign save: "@ + m,
            SaveFileErrorView::UnsupportedVersion { found, supported } => "unsupported campaign save version "@
                + decimal(found as nat) + "; this build supports version "@ + decimal(supported as nat),
            SaveFileErrorView::InvalidState(m) => "invalid campaign state: "@ + m,
        }
    }
}

impl SaveError {
    /// The human-readable description of the error.
    pub fn message(&self) -> (text: String)
        ensures
            text@ == self@.message(),
    {
        match self {
            SaveError::InvalidJson(m) => {
                let mut text = owned("invalid campaign save: ");
                text.append(m.as_str());
                text
            },
            SaveError::UnsupportedVersion { found, supported } => {
                let mut text = owned("unsupported campaign save version ");
                let found_text = decimal_text(*found as u64);
                text.append(found_text.as_str());
                text.append("; this build supports version ");
                let supported_text = decimal_text(*supported as u64);
                text.append(supported_text.as_str());
                text
            },
            SaveError::InvalidState(m) => {
                let mut text = owned("invalid campaign state: ");
                text.append(m.as_str());
                text
            },
        }
    }
}

/// A province's owner and each of its borders must exist.
pub open spec fn file_province_checks(c: CampaignView) -> spec_fn(int) -> Option<Seq<char>> {
    |i: int|
        {
            let p = c.provinces[i];
            if !c.has_faction(p.owner) {
                Some("province "@ + p.id + " references unknown owner "@ + p.owner)
            } else {
                first_problem(file_border_checks(c, i), p.neighbors.len() as int)
            }
        }
}

pub open spec fn file_border_checks(c: CampaignView, i: int) -> spec_fn(int) -> Option<Seq<char>> {
    |k: int|
        {
            let p = c.provinces[i];
            if !c.has_province(p.neighbors[k]) {
                Some("province "@ + p.id + " references unknown neighbor "@ + p.neighbors[k])
            } else {
                None
            }
        }
}

pub open spec fn file_order_checks(c: CampaignView) -> spec_fn(int) -> Option<Seq<char>> {
    |i: int|
        {
            let o = c.recruitment_queue[i];
            if !c.has_faction(o.faction_id) {
                Some("recruitment order references unknown faction "@ + o.faction_id)
            } else if !c.has_province(o.province_id) {
                Some("recruitment order references unknown province "@ + o.province_id)
            } else {
                None
            }
        }
}

/// A pending battle must name an existing attacker army owned by the
/// attacking faction, and existing factions and provinces.
pub open spec fn file_pending_problem(c: CampaignView) -> Option<Seq<char>> {
    match c.pending_battle {
        None => None,
        Some(battle) => if !c.has_army(battle.attacker_army_id) {
            Some("pending battle references unknown attacker army "@ + battle.attacker_army_id)
        } else if !c.has_faction(battle.attacker_faction) || !c.has_faction(battle.defender_faction) {
            Some("pending battle references an unknown faction"@)
        } else if !c.has_province(battle.from_province) || !c.has_province(battle.target_province) {
            Some("pending battle references an unknown province"@)
        } else {
            let attacker = c.armies[c.army_index(battle.attacker_army_id)];
            if attacker.owner != battle.attacker_faction {
                Some(
                    "pending battle attacker "@ + attacker.id + " is owned by "@ + attacker.owner
                        + ", not "@ + battle.attacker_faction,
                )
            } else {
                None
            }
        },
    }
}

/// The first dangling or duplicated reference of a save file, in the order
/// the checks run.
pub open spec fn file_problem(save: SaveFileView) -> Option<Seq<char>> {
    let c = save.campaign;
    first_of(
        first_problem(id_checks(faction_ids(c), "faction"@, " id cannot be empty"@), c.factions.len() as int),
        first_of(
            if c.factions.len() == 0 {
                Some("campaign contains no factions"@)
            } else if !c.has_faction(save.player_faction) {
                Some("player faction "@ + save.player_faction + " does not exist"@)
            } else if !c.has_faction(c.active_faction) {
                Some("active faction "@ + c.active_faction + " does not exist"@)
            } else {
                None
            },
            first_of(
                first_problem(id_checks(province_ids(c), "province"@, " id cannot be empty"@), c.provinces.len() as int),
                first_of(
                    first_problem(file_province_checks(c), c.provinces.len() as int),
                    first_of(
                        first_problem(id_checks(army_ids(c), "army"@, " id cannot be empty"@), c.armies.len() as int),
                        first_of(
                            first_problem(army_checks(c), c.armies.len() as int),
                            first_of(
                                first_problem(file_order_checks(c), c.recruitment_queue.len() as int),
                                file_pending_problem(c),
                            ),
                        ),
                    ),
                ),
            ),
        ),
    )
}

pub open spec fn spec_validate_file(save: SaveFileView) -> Result<(), SaveFileErrorView> {
    if save.schema_version != SAVE_SCHEMA_VERSION {
        Err(SaveFileErrorView::UnsupportedVersion { found: save.schema_version, supported: SAVE_SCHEMA_VERSION })
    } else {
        match file_problem(save) {
            Some(m) => Err(SaveFileErrorView::InvalidState(m)),
            None => Ok(()),
        }
    }
}

pub open spec fn file_result(r: Result<(), SaveError>) -> Result<(), SaveFileErrorView> {
    match r {
        Ok(()) => Ok(()),
        Err(e) => Err(e@),
    }
}

fn check_file_borders(c: &CampaignState, i: usize) -> (problem: Option<String>)
    requires
        i < c.provinces.len(),
    ensures
        opt_text_view(problem) == first_problem(
            file_border_checks(c@, i as int),
            c@.provinces[i as int].neighbors.len() as int,
        ),
{
    let ghost check = file_border_checks(c@, i as int);
    let province = &c.provinces[i];
    assert(province@ == c@.provinces[i as int]);
    let mut k: usize = 0;
    while k < province.neighbors.len()
        invariant
            k <= province.neighbors.len(),
            i < c.provinces.len(),
            province@ == c@.provinces[i as int],
            check == file_border_checks(c@, i as int),
            first_problem(check, k as int) is None,
        decreases province.neighbors.len() - k,
    {
        let neighbor = &province.neighbors[k];
        assert(c@.provinces[i as int].neighbors[k as int] == neighbor@);
        if !has_province_id(c, neighbor) {
            proof {
                lemma_first_problem_stable(check, k as int + 1, c@.provinces[i as int].neighbors.len() as int);
            }
            return Some(sentence3("province ", &province.id, " references unknown neighbor ", neighbor));
        }
        k += 1;
    }
    None
}

fn check_file_provinces(c: &CampaignState) -> (problem: Option<String>)
    ensures
        opt_text_view(problem) == first_problem(file_province_checks(c@), c@.provinces.len() as int),
{
    let ghost check = file_province_checks(c@);
    let mut i: usize = 0;
    while i < c.provinces.len()
        invariant
            i <= c.provinces.len(),
            check == file_province_checks(c@),
            first_problem(check, i as int) is None,
        decreases c.provinces.len() - i,
    {
        let province = &c.provinces[i];
        assert(c@.provinces[i as int] == province@);
        let problem = if !has_faction_id(c, &province.owner) {
            Some(sentence3("province ", &province.id, " references unknown owner ", &province.owner))
        } else {
            check_file_borders(c, i)
        };
        if problem.is_some() {
            proof {
                lemma_first_problem_stable(check, i as int + 1, c@.provinces.len() as int);
            }
            return problem;
        }
        i += 1;
    }
    None
}

fn check_file_orders(c: &CampaignState) -> (problem: Option<String>)
    ensures
        opt_text_view(problem) == first_problem(file_order_checks(c@), c@.recruitment_queue.len() as int),
{
    let ghost check = file_order_checks(c@);
    let mut i: usize = 0;
    while i < c.recruitment_queue.len()
        invariant
            i <= c.recruitment_queue.len(),
            check == file_order_checks(c@),
            first_problem(check, i as int) is None,
        decreases c.recruitment_queue.len() - i,
    {
        let order = &c.recruitment_queue[i];
        assert(c@.recruitment_queue[i as int] == order@);
        let problem = if !has_faction_id(c, &order.faction_id) {
            Some(sentence1("recruitment order references unknown faction ", &order.faction_id))
        } else if !has_province_id(c, &order.province_id) {
            Some(sentence1("recruitment order references unknown province ", &order.province_id))
        } else {
            None
        };
        if problem.is_some() {
            proof {
                lemma_first_problem_stable(check, i as int + 1, c@.recruitment_queue.len() as int);
            }
            return problem;
        }
        i += 1;
    }
    None
}

fn check_file_pending(c: &CampaignState) -> (problem: Option<String>)
    ensures
        opt_text_view(problem) == file_pending_problem(c@),
{
    let battle = match &c.pending_battle {
        Some(battle) => battle,
        None => return None,
    };
    let a = match find_army(&c.armies, &battle.attacker_army_id) {
        Some(a) => a,
        None => return Some(sentence1("pending battle references unknown attacker army ", &battle.attacker_army_id)),
    };
    proof {
        lemma_first_match_unique(c@.armies, army_has_id(battle.attacker_army_id@), a as int);
    }
    if !has_faction_id(c, &battle.attacker_faction) || !has_faction_id(c, &battle.defender_faction) {
        return Some(owned("pending battle references an unknown faction"));
    }
    if !has_province_id(c, &battle.from_province) || !has_province_id(c, &battle.target_province) {
        return Some(owned("pending battle references an unknown province"));
    }
    let attacker = &c.armies[a];
    assert(c@.armies[a as int] == attacker@);
    if attacker.owner != battle.attacker_faction {
        let mut text = sentence2("pending battle attacker ", &attacker.id, " is owned by ");
        text.append(attacker.owner.as_str());
        text.append(", not ");
        text.append(battle.attacker_faction.as_str());
        return Some(text);
    }
    None
}

fn file_problem_of(save: &CampaignSave) -> (problem: Option<String>)
    ensures
        opt_text_view(problem) == file_problem(save@),
{
    let c = &save.campaign;
    let faction_list = faction_id_list(&c.factions);
    assert(text_views_eq(faction_list@, faction_ids(c@)));
    let problem = check_ids(&faction_list, "faction", " id cannot be empty");
    if problem.is_some() {
        return problem;
    }
    if c.factions.len() == 0 {
        return Some(owned("campaign contains no factions"));
    }
    if !has_faction_id(c, &save.player_faction) {
        return Some(sentence2("player faction ", &save.player_faction, " does not exist"));
    }
    if !has_faction_id(c, &c.active_faction) {
        return Some(sentence2("active faction ", &c.active_faction, " does not exist"));
    }
    let province_list = province_id_list(&c.provinces);
    assert(text_views_eq(province_list@, province_ids(c@)));
    let problem = check_ids(&province_list, "province", " id cannot be empty");
    if problem.is_some() {
        return problem;
    }
    let problem = check_file_provinces(c);
    if problem.is_some() {
        return problem;
    }
    let army_list = army_id_list(&c.armies);
    assert(text_views_eq(army_list@, army_ids(c@)));
    let problem = check_ids(&army_list, "army", " id cannot be empty");
    if problem.is_some() {
        return problem;
    }
    let problem = check_armies(c);
    if problem.is_some() {
        return problem;
    }
    let problem = check_file_orders(c);
    if problem.is_some() {
        return problem;
    }
    check_file_pending(c)
}

spec fn text_views_eq(texts: Seq<String>, ids: Seq<Seq<char>>) -> bool {
    crate::campaign::text_views(texts) =~= ids
}

/// Accepts a save file of the supported schema whose campaign has no
/// dangling or duplicated reference.
pub fn validate_campaign_save(save: &CampaignSave) -> (result: Result<(), SaveError>)
    ensures
        file_result(result) == spec_validate_file(save@),
{
    if save.schema_version != SAVE_SCHEMA_VERSION {
        return Err(
            SaveError::UnsupportedVersion {
                found: save.schema_version,
                supported: SAVE_SCHEMA_VERSION,
            },
        );
    }
    match file_problem_of(save) {
        Some(message) => Err(SaveError::InvalidState(message)),
        None => Ok(()),
    }
}


/// The save file for `campaign` played by `player_faction`, once it
/// validates; what is then written is this document.
pub fn campaign_save_file(campaign: &CampaignState, player_faction: &str) -> (save: Result<
    CampaignSave,
    SaveError,
>)
    ensures
        ({
            let expected = SaveFileView {
                schema_version: SAVE_SCHEMA_VERSION,
                player_faction: player_faction@,
                campaign: campaign@,
            };
            match save {
                Ok(s) => s@ == expected && spec_validate_file(expected) is Ok,
                Err(e) => spec_validate_file(expected) == Err::<(), SaveFileErrorView>(e@),
            }
        }),
{
    let save = CampaignSave {
        schema_version: SAVE_SCHEMA_VERSION,
        player_faction: owned(player_faction),
        campaign: campaign.clone(),
    };
    match validate_campaign_save(&save) {
        Ok(()) => Ok(save),
        Err(e) => Err(e),
    }
}

/// The version gate of reading: only the supported schema is decoded
/// further.
pub fn check_schema_version(found: u32) -> (result: Result<(), SaveError>)
    ensures
        found == SAVE_SCHEMA_VERSION ==> result is Ok,
        found != SAVE_SCHEMA_VERSION ==> file_result(result) == Err::<(), SaveFileErrorView>(
            SaveFileErrorView::UnsupportedVersion { found, supported: SAVE_SCHEMA_VERSION },
        ),
{
    if found != SAVE_SCHEMA_VERSION {
        return Err(SaveError::UnsupportedVersion { found, supported: SAVE_SCHEMA_VERSION });
    }
    Ok(())
}

} // verus!
