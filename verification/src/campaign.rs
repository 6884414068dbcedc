use vstd::prelude::*;

use crate::battle::{BattleReport, BattleReportView};
use crate::text::{decimal, decimal_text, owned};

verus! {

pub const INCOME_PER_WEALTH: u32 = 50;

// ---------------------------------------------------------------------------
// First-match search over sequences
// ---------------------------------------------------------------------------

/// `i` is the first position whose element satisfies `p`.
pub open spec fn is_first<A>(s: Seq<A>, p: spec_fn(A) -> bool, i: int) -> bool {
    &&& 0 <= i < s.len()
    &&& p(s[i])
    &&& forall|j: int| 0 <= j < i ==> !p(#[trigger] s[j])
}

pub open spec fn exists_match<A>(s: Seq<A>, p: spec_fn(A) -> bool) -> bool {
    exists|i: int| 0 <= i < s.len() && p(#[trigger] s[i])
}

pub open spec fn first_match<A>(s: Seq<A>, p: spec_fn(A) -> bool) -> int {
    choose|i: int| is_first(s, p, i)
}

pub proof fn lemma_first_match_unique<A>(s: Seq<A>, p: spec_fn(A) -> bool, i: int)
    requires
        is_first(s, p, i),
    ensures
        first_match(s, p) == i,
        exists_match(s, p),
{
    let k = first_match(s, p);
    assert(is_first(s, p, k));
    if k < i {
        assert(!p(s[k]));
    }
    if k > i {
        assert(!p(s[i]));
    }
}

pub proof fn lemma_exists_has_first<A>(s: Seq<A>, p: spec_fn(A) -> bool)
    requires
        exists_match(s, p),
    ensures
        is_first(s, p, first_match(s, p)),
    decreases s.len(),
{
    let w = choose|i: int| 0 <= i < s.len() && p(#[trigger] s[i]);
    if p(s[0]) {
        assert(is_first(s, p, 0));
    } else {
        let t = s.drop_first();
        assert(p(t[w - 1]));
        lemma_exists_has_first(t, p);
        let k = first_match(t, p);
        assert forall|j: int| 0 <= j < k + 1 implies !p(#[trigger] s[j]) by {
            if j > 0 {
                assert(s[j] == t[j - 1]);
            }
        }
        assert(is_first(s, p, k + 1));
    }
}

// ---------------------------------------------------------------------------
// Campaign data
// ---------------------------------------------------------------------------

#[derive(Copy, Clone, Debug, PartialEq, Eq, Structural)]
pub enum UnitKind {
    Levy,
    Spearmen,
    Archers,
    Knights,
}

pub open spec fn spec_unit_label(unit: UnitKind) -> Seq<char> {
    match unit {
        UnitKind::Levy => "Levy"@,
        UnitKind::Spearmen => "Spearmen"@,
        UnitKind::Archers => "Archers"@,
        UnitKind::Knights => "Knights"@,
    }
}

pub open spec fn spec_unit_cost(unit: UnitKind) -> u32 {
    match unit {
        UnitKind::Levy => 120,
        UnitKind::Spearmen => 220,
        UnitKind::Archers => 260,
        UnitKind::Knights => 500,
    }
}

pub open spec fn spec_unit_soldiers(unit: UnitKind) -> u16 {
    match unit {
        UnitKind::Levy => 40,
        UnitKind::Spearmen => 30,
        UnitKind::Archers => 20,
        UnitKind::Knights => 10,
    }
}

pub struct UnitSpec {
    pub label: String,
    pub cost: u32,
    pub soldiers: u16,
}

impl UnitKind {
    /// The recruitment price list of each unit kind.
    pub fn spec(self) -> (spec: UnitSpec)
        ensures
            spec.label@ == spec_unit_label(self),
            spec.cost == spec_unit_cost(self),
            spec.soldiers == spec_unit_soldiers(self),
    {
        match self {
            UnitKind::Levy => UnitSpec { label: owned("Levy"), cost: 120, soldiers: 40 },
            UnitKind::Spearmen => UnitSpec { label: owned("Spearmen"), cost: 220, soldiers: 30 },
            UnitKind::Archers => UnitSpec { label: owned("Archers"), cost: 260, soldiers: 20 },
            UnitKind::Knights => UnitSpec { label: owned("Knights"), cost: 500, soldiers: 10 },
        }
    }
}

/// The unit kinds in recruitment-option order.
pub open spec fn spec_unit_kinds() -> Seq<UnitKind> {
    seq![UnitKind::Levy, UnitKind::Spearmen, UnitKind::Archers, UnitKind::Knights]
}

#[derive(Debug, PartialEq, Eq)]
pub struct Faction {
    pub id: String,
    pub name: String,
    pub treasury: u32,
    pub last_economy_turn: Option<u32>,
}

pub ghost struct FactionView {
    pub id: Seq<char>,
    pub name: Seq<char>,
    pub treasury: u32,
    pub last_economy_turn: Option<u32>,
}

impl View for Faction {
    type V = FactionView;

    open spec fn view(&self) -> FactionView {
        FactionView {
            id: self.id@,
            name: self.name@,
            treasury: self.treasury,
            last_economy_turn: self.last_economy_turn,
        }
    }
}

impl Clone for Faction {
    fn clone(&self) -> (copy: Self)
        ensures
            copy == *self,
    {
        Faction {
            id: self.id.clone(),
            name: self.name.clone(),
            treasury: self.treasury,
            last_economy_turn: self.last_economy_turn,
        }
    }
}

#[derive(Debug, PartialEq, Eq)]
pub struct Province {
    pub id: String,
    pub name: String,
    pub owner: String,
    pub wealth: u32,
    pub neighbors: Vec<String>,
}

pub ghost struct ProvinceView {
    pub id: Seq<char>,
    pub name: Seq<char>,
    pub owner: Seq<char>,
    pub wealth: u32,
    pub neighbors: Seq<Seq<char>>,
}

pub open spec fn text_views(v: Seq<String>) -> Seq<Seq<char>> {
    v.map_values(|t: String| t@)
}

impl View for Province {
    type V = ProvinceView;

    open spec fn view(&self) -> ProvinceView {
        ProvinceView {
            id: self.id@,
            name: self.name@,
            owner: self.owner@,
            wealth: self.wealth,
            neighbors: text_views(self.neighbors@),
        }
    }
}

pub fn clone_texts(v: &Vec<String>) -> (copy: Vec<String>)
    ensures
        copy@ == v@,
{
    let mut copy: Vec<String> = Vec::new();
    let mut i: usize = 0;
    while i < v.len()
        invariant
            i <= v.len(),
            copy@ == v@.take(i as int),
        decreases v.len() - i,
    {
        copy.push(v[i].clone());
        proof {
            assert(v@.take(i + 1) =~= v@.take(i as int).push(v@[i as int]));
        }
        i += 1;
    }
    assert(v@.take(v.len() as int) =~= v@);
    copy
}

impl Clone for Province {
    fn clone(&self) -> (copy: Self)
        ensures
            copy@ == self@,
    {
        Province {
            id: self.id.clone(),
            name: self.name.clone(),
            owner: self.owner.clone(),
            wealth: self.wealth,
            neighbors: clone_texts(&self.neighbors),
        }
    }
}

#[derive(Debug, PartialEq, Eq)]
pub struct Army {
    pub id: String,
    pub owner: String,
    pub province: String,
    pub levy: u16,
    pub spearmen: u16,
    pub archers: u16,
    pub knights: u16,
    pub moved_this_turn: bool,
}

pub ghost struct ArmyView {
    pub id: Seq<char>,
    pub owner: Seq<char>,
    pub province: Seq<char>,
    pub levy: u16,
    pub spearmen: u16,
    pub archers: u16,
    pub knights: u16,
    pub moved_this_turn: bool,
}

impl View for Army {
    type V = ArmyView;

    open spec fn view(&self) -> ArmyView {
        ArmyView {
            id: self.id@,
            owner: self.owner@,
            province: self.province@,
            levy: self.levy,
            spearmen: self.spearmen,
            archers: self.archers,
            knights: self.knights,
            moved_this_turn: self.moved_this_turn,
        }
    }
}

impl Clone for Army {
    fn clone(&self) -> (copy: Self)
        ensures
            copy == *self,
    {
        Army {
            id: self.id.clone(),
            owner: self.owner.clone(),
            province: self.province.clone(),
            levy: self.levy,
            spearmen: self.spearmen,
            archers: self.archers,
            knights: self.knights,
            moved_this_turn: self.moved_this_turn,
        }
    }
}

#[derive(Debug, PartialEq, Eq)]
pub struct PendingBattle {
    pub attacker_army_id: String,
    pub attacker_faction: String,
    pub from_province: String,
    pub target_province: String,
    pub defender_faction: String,
}

pub ghost struct PendingBattleView {
    pub attacker_army_id: Seq<char>,
    pub attacker_faction: Seq<char>,
    pub from_province: Seq<char>,
    pub target_province: Seq<char>,
    pub defender_faction: Seq<char>,
}

impl View for PendingBattle {
    type V = PendingBattleView;

    open spec fn view(&self) -> PendingBattleView {
        PendingBattleView {
            attacker_army_id: self.attacker_army_id@,
            attacker_faction: self.attacker_faction@,
            from_province: self.from_province@,
            target_province: self.target_province@,
            defender_faction: self.defender_faction@,
        }
    }
}

impl Clone for PendingBattle {
    fn clone(&self) -> (copy: Self)
        ensures
            copy == *self,
    {
        PendingBattle {
            attacker_army_id: self.attacker_army_id.clone(),
            attacker_faction: self.attacker_faction.clone(),
            from_province: self.from_province.clone(),
            target_province: self.target_province.clone(),
            defender_faction: self.defender_faction.clone(),
        }
    }
}

#[derive(Debug, PartialEq, Eq)]
pub struct RecruitmentOption {
    pub unit: UnitKind,
    pub label: String,
    pub cost: u32,
    pub soldiers: u16,
    pub available: bool,
    pub reason: Option<String>,
}

pub ghost struct RecruitmentOptionView {
    pub unit: UnitKind,
    pub label: Seq<char>,
    pub cost: u32,
    pub soldiers: u16,
    pub available: bool,
    pub reason: Option<Seq<char>>,
}

pub open spec fn opt_text_view(t: Option<String>) -> Option<Seq<char>> {
    match t {
        Some(t) => Some(t@),
        None => None,
    }
}

impl View for RecruitmentOption {
    type V = RecruitmentOptionView;

    open spec fn view(&self) -> RecruitmentOptionView {
        RecruitmentOptionView {
            unit: self.unit,
            label: self.label@,
            cost: self.cost,
            soldiers: self.soldiers,
            available: self.available,
            reason: opt_text_view(self.reason),
        }
    }
}

#[derive(Debug, PartialEq, Eq)]
pub struct RecruitmentOrder {
    pub faction_id: String,
    pub province_id: String,
    pub unit: UnitKind,
    pub label: String,
    pub cost: u32,
    pub soldiers: u16,
    pub ready_on_turn: u32,
}

pub ghost struct RecruitmentOrderView {
    pub faction_id: Seq<char>,
    pub province_id: Seq<char>,
    pub unit: UnitKind,
    pub label: Seq<char>,
    pub cost: u32,
    pub soldiers: u16,
    pub ready_on_turn: u32,
}

impl View for RecruitmentOrder {
    type V = RecruitmentOrderView;

    open spec fn view(&self) -> RecruitmentOrderView {
        RecruitmentOrderView {
            faction_id: self.faction_id@,
            province_id: self.province_id@,
            unit: self.unit,
            label: self.label@,
            cost: self.cost,
            soldiers: self.soldiers,
            ready_on_turn: self.ready_on_turn,
        }
    }
}

impl Clone for RecruitmentOrder {
    fn clone(&self) -> (copy: Self)
        ensures
            copy == *self,
    {
        RecruitmentOrder {
            faction_id: self.faction_id.clone(),
            province_id: self.province_id.clone(),
            unit: self.unit,
            label: self.label.clone(),
            cost: self.cost,
            soldiers: self.soldiers,
            ready_on_turn: self.ready_on_turn,
        }
    }
}

/// The whole strategic state of a campaign.
#[derive(Debug, PartialEq, Eq)]
pub struct CampaignState {
    pub year: u16,
    pub turn: u32,
    pub active_faction: String,
    pub factions: Vec<Faction>,
    pub provinces: Vec<Province>,
    pub armies: Vec<Army>,
    pub pending_battle: Option<PendingBattle>,
    pub recruitment_queue: Vec<RecruitmentOrder>,
    pub battle_reports: Vec<BattleReport>,
    pub log: Vec<String>,
}

#[verifier::ext_equal]
pub ghost struct CampaignView {
    pub year: u16,
    pub turn: u32,
    pub active_faction: Seq<char>,
    pub factions: Seq<FactionView>,
    pub provinces: Seq<ProvinceView>,
    pub armies: Seq<ArmyView>,
    pub pending_battle: Option<PendingBattleView>,
    pub recruitment_queue: Seq<RecruitmentOrderView>,
    pub battle_reports: Seq<BattleReportView>,
    pub log: Seq<Seq<char>>,
}

pub open spec fn faction_views(v: Seq<Faction>) -> Seq<FactionView> {
    v.map_values(|f: Faction| f@)
}

pub open spec fn province_views(v: Seq<Province>) -> Seq<ProvinceView> {
    v.map_values(|p: Province| p@)
}

pub open spec fn army_views(v: Seq<Army>) -> Seq<ArmyView> {
    v.map_values(|a: Army| a@)
}

pub open spec fn order_views(v: Seq<RecruitmentOrder>) -> Seq<RecruitmentOrderView> {
    v.map_values(|o: RecruitmentOrder| o@)
}

pub open spec fn report_views(v: Seq<BattleReport>) -> Seq<BattleReportView> {
    v.map_values(|r: BattleReport| r@)
}

pub open spec fn pending_view(p: Option<PendingBattle>) -> Option<PendingBattleView> {
    match p {
        Some(p) => Some(p@),
        None => None,
    }
}

impl View for CampaignState {
    type V = CampaignView;

    open spec fn view(&self) -> CampaignView {
        CampaignView {
            year: self.year,
            turn: self.turn,
            active_faction: self.active_faction@,
            factions: faction_views(self.factions@),
            provinces: province_views(self.provinces@),
            armies: army_views(self.armies@),
            pending_battle: pending_view(self.pending_battle),
            recruitment_queue: order_views(self.recruitment_queue@),
            battle_reports: report_views(self.battle_reports@),
            log: text_views(self.log@),
        }
    }
}

// ---------------------------------------------------------------------------
// Errors
// ---------------------------------------------------------------------------

#[derive(Debug, PartialEq, Eq)]
pub enum CampaignError {
    ArmyNotFound(String),
    FactionNotFound(String),
    ProvinceNotFound(String),
    NotActiveFaction { army_owner: String, active_faction: String },
    ArmyAlreadyMoved(String),
    BattlePending,
    NoPendingBattle,
    DestinationNotAdjacent { from: String, destination: String },
    ProvinceNotOwned { province: String, owner: String, active_faction: String },
    RecruitmentAlreadyQueued { province: String, unit: UnitKind },
    InsufficientTreasury { faction: String, cost: u32, treasury: u32 },
}

pub ghost enum CampaignErrorView {
    ArmyNotFound(Seq<char>),
    FactionNotFound(Seq<char>),
    ProvinceNotFound(Seq<char>),
    NotActiveFaction { army_owner: Seq<char>, active_faction: Seq<char> },
    ArmyAlreadyMoved(Seq<char>),
    BattlePending,
    NoPendingBattle,
    DestinationNotAdjacent { from: Seq<char>, destination: Seq<char> },
    ProvinceNotOwned { province: Seq<char>, owner: Seq<char>, active_faction: Seq<char> },
    RecruitmentAlreadyQueued { province: Seq<char>, unit: UnitKind },
    InsufficientTreasury { faction: Seq<char>, cost: u32, treasury: u32 },
}

impl View for CampaignError {
    type V = CampaignErrorView;

    open spec fn view(&self) -> CampaignErrorView {
        match self {
            CampaignError::ArmyNotFound(a) => CampaignErrorView::ArmyNotFound(a@),
            CampaignError::FactionNotFound(f) => CampaignErrorView::FactionNotFound(f@),
            CampaignError::ProvinceNotFound(p) => CampaignErrorView::ProvinceNotFound(p@),
            CampaignError::NotActiveFaction { army_owner, active_faction } =>
                CampaignErrorView::NotActiveFaction {
                army_owner: army_owner@,
                active_faction: active_faction@,
            },
            CampaignError::ArmyAlreadyMoved(a) => CampaignErrorView::ArmyAlreadyMoved(a@),
            CampaignError::BattlePending => CampaignErrorView::BattlePending,
            CampaignError::NoPendingBattle => CampaignErrorView::NoPendingBattle,
            CampaignError::DestinationNotAdjacent { from, destination } =>
                CampaignErrorView::DestinationNotAdjacent {
                from: from@,
                destination: destination@,
            },
            CampaignError::ProvinceNotOwned { province, owner, active_faction } =>
                CampaignErrorView::ProvinceNotOwned {
                province: province@,
                owner: owner@,
                active_faction: active_faction@,
            },
            CampaignError::RecruitmentAlreadyQueued { province, unit } =>
                CampaignErrorView::RecruitmentAlreadyQueued { province: province@, unit: *unit },
            CampaignError::InsufficientTreasury { faction, cost, treasury } =>
                CampaignErrorView::InsufficientTreasury {
                faction: faction@,
                cost: *cost,
                treasury: *treasury,
            },
        }
    }
}

impl CampaignErrorView {
    /// The human-readable description of a campaign error.
    pub open spec fn message(self) -> Seq<char> {
        match self {
            CampaignErrorView::ArmyNotFound(a) => "army "@ + a + " does not exist"@,
            CampaignErrorView::FactionNotFound(f) => "faction "@ + f + " does not exist"@,
            CampaignErrorView::ProvinceNotFound(p) => "province "@ + p + " does not exist"@,
            CampaignErrorView::NotActiveFaction { army_owner, active_faction } => army_owner
                + " cannot move while "@ + active_faction + " is the active faction"@,
            CampaignErrorView::ArmyAlreadyMoved(a) => "army "@ + a + " has already moved this turn"@,
            CampaignErrorView::BattlePending => "resolve the pending battle before continuing"@,
            CampaignErrorView::NoPendingBattle => "there is no pending battle to resolve"@,
            CampaignErrorView::DestinationNotAdjacent { from, destination } => destination
                + " is not adjacent to "@ + from,
            CampaignErrorView::ProvinceNotOwned { province, owner, active_faction } => active_faction
                + " cannot recruit in "@ + province + ", which is controlled by "@ + owner,
            CampaignErrorView::RecruitmentAlreadyQueued { province, unit } => spec_unit_label(unit)
                + " is already queued in "@ + province,
            CampaignErrorView::InsufficientTreasury { faction, cost, treasury } => faction
                + " needs "@ + decimal(cost as nat) + " gold but has only "@ + decimal(
                treasury as nat,
            ),
        }
    }
}

fn joined(parts_a: &str, b: &String, c: &str) -> (text: String)
    ensures
        text@ == parts_a@ + b@ + c@,
{
    let mut text = owned(parts_a);
    text.append(b.as_str());
    text.append(c);
    text
}

impl CampaignError {
    /// The human-readable description of the error.
    pub fn message(&self) -> (text: String)
        ensures
            text@ == self@.message(),
    {
        match self {
            CampaignError::ArmyNotFound(a) => joined("army ", a, " does not exist"),
            CampaignError::FactionNotFound(f) => joined("faction ", f, " does not exist"),
            CampaignError::ProvinceNotFound(p) => joined("province ", p, " does not exist"),
            CampaignError::NotActiveFaction { army_owner, active_faction } => {
                let mut text = army_owner.clone();
                text.append(" cannot move while ");
                text.append(active_faction.as_str());
                text.append(" is the active faction");
                text
            },
            CampaignError::ArmyAlreadyMoved(a) => joined("army ", a, " has already moved this turn"),
            CampaignError::BattlePending => owned("resolve the pending battle before continuing"),
            CampaignError::NoPendingBattle => owned("there is no pending battle to resolve"),
            CampaignError::DestinationNotAdjacent { from, destination } => {
                let mut text = destination.clone();
                text.append(" is not adjacent to ");
                text.append(from.as_str());
                text
            },
            CampaignError::ProvinceNotOwned { province, owner, active_faction } => {
                let mut text = active_faction.clone();
                text.append(" cannot recruit in ");
                text.append(province.as_str());
                text.append(", which is controlled by ");
                text.append(owner.as_str());
                text
            },
            CampaignError::RecruitmentAlreadyQueued { province, unit } => {
                let mut text = unit.spec().label;
                text.append(" is already queued in ");
                text.append(province.as_str());
                text
            },
            CampaignError::InsufficientTreasury { faction, cost, treasury } => {
                let mut text = faction.clone();
                text.append(" needs ");
                let c = decimal_text(*cost as u64);
                text.append(c.as_str());
                text.append(" gold but has only ");
                let t = decimal_text(*treasury as u64);
                text.append(t.as_str());
                text
            },
        }
    }
}

pub open spec fn unit_result(r: Result<(), CampaignError>) -> Result<(), CampaignErrorView> {
    match r {
        Ok(()) => Ok(()),
        Err(e) => Err(e@),
    }
}

// ---------------------------------------------------------------------------
// Lookups in the model
// ---------------------------------------------------------------------------

pub open spec fn faction_has_id(id: Seq<char>) -> spec_fn(FactionView) -> bool {
    |f: FactionView| f.id == id
}

pub open spec fn province_has_id(id: Seq<char>) -> spec_fn(ProvinceView) -> bool {
    |p: ProvinceView| p.id == id
}

pub open spec fn army_has_id(id: Seq<char>) -> spec_fn(ArmyView) -> bool {
    |a: ArmyView| a.id == id
}

/// An army of `owner` stationed in `province`.
pub open spec fn army_at(owner: Seq<char>, province: Seq<char>) -> spec_fn(ArmyView) -> bool {
    |a: ArmyView| a.owner == owner && a.province == province
}

impl CampaignView {
    pub open spec fn has_faction(self, id: Seq<char>) -> bool {
        exists_match(self.factions, faction_has_id(id))
    }

    pub open spec fn faction_index(self, id: Seq<char>) -> int {
        first_match(self.factions, faction_has_id(id))
    }

    pub open spec fn has_province(self, id: Seq<char>) -> bool {
        exists_match(self.provinces, province_has_id(id))
    }

    pub open spec fn province_index(self, id: Seq<char>) -> int {
        first_match(self.provinces, province_has_id(id))
    }

    pub open spec fn province(self, id: Seq<char>) -> ProvinceView {
        self.provinces[self.province_index(id)]
    }

    pub open spec fn has_army(self, id: Seq<char>) -> bool {
        exists_match(self.armies, army_has_id(id))
    }

    pub open spec fn army_index(self, id: Seq<char>) -> int {
        first_match(self.armies, army_has_id(id))
    }

    /// The display name of a faction, or the id itself when it is unknown.
    pub open spec fn faction_name(self, id: Seq<char>) -> Seq<char> {
        if self.has_faction(id) {
            self.factions[self.faction_index(id)].name
        } else {
            id
        }
    }

    pub open spec fn with_log(self, line: Seq<char>) -> CampaignView {
        CampaignView { log: self.log.push(line), ..self }
    }
}

// ---------------------------------------------------------------------------
// Log lines
// ---------------------------------------------------------------------------

pub open spec fn turn_prefix(turn: u32) -> Seq<char> {
    "Turn "@ + decimal(turn as nat) + ": "@
}

pub open spec fn move_line(turn: u32, army: Seq<char>, from: Seq<char>, to: Seq<char>) -> Seq<char> {
    turn_prefix(turn) + army + " moves from "@ + from + " to "@ + to + "."@
}

pub open spec fn march_line(turn: u32, army: Seq<char>, from: Seq<char>, to: Seq<char>) -> Seq<char> {
    turn_prefix(turn) + army + " marches from "@ + from + " into hostile "@ + to
        + ". Battle pending."@
}

/// Starts a log line with "Turn {turn}: ".
pub fn turn_line(turn: u32) -> (line: String)
    ensures
        line@ == turn_prefix(turn),
{
    let mut line = owned("Turn ");
    let number = decimal_text(turn as u64);
    line.append(number.as_str());
    line.append(": ");
    line
}

// ---------------------------------------------------------------------------
// Exec lookups
// ---------------------------------------------------------------------------

pub fn find_faction(factions: &Vec<Faction>, id: &String) -> (found: Option<usize>)
    ensures
        match found {
            Some(i) => is_first(faction_views(factions@), faction_has_id(id@), i as int),
            None => !exists_match(faction_views(factions@), faction_has_id(id@)),
        },
{
    let ghost views = faction_views(factions@);
    let mut i: usize = 0;
    while i < factions.len()
        invariant
            i <= factions.len(),
            views == faction_views(factions@),
            views.len() == factions@.len(),
            forall|j: int| 0 <= j < i ==> !faction_has_id(id@)(#[trigger] views[j]),
        decreases factions.len() - i,
    {
        if factions[i].id == *id {
            return Some(i);
        }
        i += 1;
    }
    None
}

pub fn find_province(provinces: &Vec<Province>, id: &String) -> (found: Option<usize>)
    ensures
        match found {
            Some(i) => is_first(province_views(provinces@), province_has_id(id@), i as int),
            None => !exists_match(province_views(provinces@), province_has_id(id@)),
        },
{
    let ghost views = province_views(provinces@);
    let mut i: usize = 0;
    while i < provinces.len()
        invariant
            i <= provinces.len(),
            views == province_views(provinces@),
            views.len() == provinces@.len(),
            forall|j: int| 0 <= j < i ==> !province_has_id(id@)(#[trigger] views[j]),
        decreases provinces.len() - i,
    {
        if provinces[i].id == *id {
            return Some(i);
        }
        i += 1;
    }
    None
}

pub fn find_army(armies: &Vec<Army>, id: &String) -> (found: Option<usize>)
    ensures
        match found {
            Some(i) => is_first(army_views(armies@), army_has_id(id@), i as int),
            None => !exists_match(army_views(armies@), army_has_id(id@)),
        },
{
    let ghost views = army_views(armies@);
    let mut i: usize = 0;
    while i < armies.len()
        invariant
            i <= armies.len(),
            views == army_views(armies@),
            views.len() == armies@.len(),
            forall|j: int| 0 <= j < i ==> !army_has_id(id@)(#[trigger] views[j]),
        decreases armies.len() - i,
    {
        if armies[i].id == *id {
            return Some(i);
        }
        i += 1;
    }
    None
}

pub fn find_army_at(armies: &Vec<Army>, owner: &String, province: &String) -> (found: Option<
    usize,
>)
    ensures
        match found {
            Some(i) => is_first(army_views(armies@), army_at(owner@, province@), i as int),
            None => !exists_match(army_views(armies@), army_at(owner@, province@)),
        },
{
    let ghost views = army_views(armies@);
    let mut i: usize = 0;
    while i < armies.len()
        invariant
            i <= armies.len(),
            views == army_views(armies@),
            views.len() == armies@.len(),
            forall|j: int| 0 <= j < i ==> !army_at(owner@, province@)(#[trigger] views[j]),
        decreases armies.len() - i,
    {
        if armies[i].owner == *owner && armies[i].province == *province {
            return Some(i);
        }
        i += 1;
    }
    None
}

pub fn contains_text(texts: &Vec<String>, target: &String) -> (found: bool)
    ensures
        found == text_views(texts@).contains(target@),
{
    let ghost views = text_views(texts@);
    let mut i: usize = 0;
    while i < texts.len()
        invariant
            i <= texts.len(),
            views == text_views(texts@),
            views.len() == texts@.len(),
            forall|j: int| 0 <= j < i ==> #[trigger] views[j] != target@,
        decreases texts.len() - i,
    {
        if texts[i] == *target {
            assert(views[i as int] == target@);
            return true;
        }
        i += 1;
    }
    false
}

pub open spec fn texts_result(r: Result<Vec<String>, CampaignError>) -> Result<
    Seq<Seq<char>>,
    CampaignErrorView,
> {
    match r {
        Ok(v) => Ok(text_views(v@)),
        Err(e) => Err(e@),
    }
}

// ---------------------------------------------------------------------------
// Movement
// ---------------------------------------------------------------------------

impl CampaignView {
    /// Where an army may move: the neighbours of its province, provided no
    /// battle is pending and the army belongs to the active faction and has
    /// not moved this turn.
    pub open spec fn spec_legal_destinations(self, army_id: Seq<char>) -> Result<
        Seq<Seq<char>>,
        CampaignErrorView,
    > {
        if self.pending_battle is Some {
            Err(CampaignErrorView::BattlePending)
        } else if !self.has_army(army_id) {
            Err(CampaignErrorView::ArmyNotFound(army_id))
        } else {
            let army = self.armies[self.army_index(army_id)];
            if army.owner != self.active_faction {
                Err(
                    CampaignErrorView::NotActiveFaction {
                        army_owner: army.owner,
                        active_faction: self.active_faction,
                    },
                )
            } else if army.moved_this_turn {
                Err(CampaignErrorView::ArmyAlreadyMoved(army.id))
            } else if !self.has_province(army.province) {
                Err(CampaignErrorView::ProvinceNotFound(army.province))
            } else {
                Ok(self.province(army.province).neighbors)
            }
        }
    }

    /// Moving into a friendly province relocates the army; moving into a
    /// hostile one leaves it in place and records a pending battle. Either way
    /// the army has moved for this turn and one log line is added.
    pub open spec fn spec_move_army(self, army_id: Seq<char>, destination: Seq<char>) -> (
        CampaignView,
        Result<(), CampaignErrorView>,
    ) {
        if self.pending_battle is Some {
            (self, Err(CampaignErrorView::BattlePending))
        } else if !self.has_army(army_id) {
            (self, Err(CampaignErrorView::ArmyNotFound(army_id)))
        } else {
            let i = self.army_index(army_id);
            let army = self.armies[i];
            if army.owner != self.active_faction {
                (
                    self,
                    Err(
                        CampaignErrorView::NotActiveFaction {
                            army_owner: army.owner,
                            active_faction: self.active_faction,
                        },
                    ),
                )
            } else if army.moved_this_turn {
                (self, Err(CampaignErrorView::ArmyAlreadyMoved(army.id)))
            } else if !self.has_province(army.province) {
                (self, Err(CampaignErrorView::ProvinceNotFound(army.province)))
            } else if !self.province(army.province).neighbors.contains(destination) {
                (
                    self,
                    Err(
                        CampaignErrorView::DestinationNotAdjacent {
                            from: army.province,
                            destination,
                        },
                    ),
                )
            } else if !self.has_province(destination) {
                (self, Err(CampaignErrorView::ProvinceNotFound(destination)))
            } else {
                let source = self.province(army.province);
                let target = self.province(destination);
                if target.owner == army.owner {
                    let moved = ArmyView { province: destination, moved_this_turn: true, ..army };
                    (
                        CampaignView {
                            armies: self.armies.update(i, moved),
                            log: self.log.push(
                                move_line(self.turn, army.id, source.name, target.name),
                            ),
                            ..self
                        },
                        Ok(()),
                    )
                } else {
                    let moved = ArmyView { moved_this_turn: true, ..army };
                    (
                        CampaignView {
                            armies: self.armies.update(i, moved),
                            pending_battle: Some(
                                PendingBattleView {
                                    attacker_army_id: army.id,
                                    attacker_faction: army.owner,
                                    from_province: army.province,
                                    target_province: destination,
                                    defender_faction: target.owner,
                                },
                            ),
                            log: self.log.push(
                                march_line(self.turn, army.id, source.name, target.name),
                            ),
                            ..self
                        },
                        Ok(()),
                    )
                }
            }
        }
    }
}

impl CampaignState {
    pub fn legal_destinations(&self, army_id: &str) -> (destinations: Result<
        Vec<String>,
        CampaignError,
    >)
        ensures
            texts_result(destinations) == self@.spec_legal_destinations(army_id@),
    {
        if self.pending_battle.is_some() {
            return Err(CampaignError::BattlePending);
        }
        let id = owned(army_id);
        let index = match find_army(&self.armies, &id) {
            Some(index) => index,
            None => return Err(CampaignError::ArmyNotFound(id)),
        };
        proof {
            lemma_first_match_unique(self@.armies, army_has_id(id@), index as int);
        }
        let army = &self.armies[index];
        if army.owner != self.active_faction {
            return Err(
                CampaignError::NotActiveFaction {
                    army_owner: army.owner.clone(),
                    active_faction: self.active_faction.clone(),
                },
            );
        }
        if army.moved_this_turn {
            return Err(CampaignError::ArmyAlreadyMoved(army.id.clone()));
        }
        let province = match find_province(&self.provinces, &army.province) {
            Some(province) => province,
            None => return Err(CampaignError::ProvinceNotFound(army.province.clone())),
        };
        proof {
            lemma_first_match_unique(self@.provinces, province_has_id(army.province@), province as int);
        }
        Ok(clone_texts(&self.provinces[province].neighbors))
    }

    pub fn move_army(&mut self, army_id: &str, destination: &str) -> (result: Result<
        (),
        CampaignError,
    >)
        ensures
            final(self)@ == old(self)@.spec_move_army(army_id@, destination@).0,
            unit_result(result) == old(self)@.spec_move_army(army_id@, destination@).1,
    {
        if self.pending_battle.is_some() {
            return Err(CampaignError::BattlePending);
        }
        let id = owned(army_id);
        let index = match find_army(&self.armies, &id) {
            Some(index) => index,
            None => return Err(CampaignError::ArmyNotFound(id)),
        };
        proof {
            lemma_first_match_unique(self@.armies, army_has_id(id@), index as int);
        }
        if self.armies[index].owner != self.active_faction {
            return Err(
                CampaignError::NotActiveFaction {
                    army_owner: self.armies[index].owner.clone(),
                    active_faction: self.active_faction.clone(),
                },
            );
        }
        if self.armies[index].moved_this_turn {
            return Err(CampaignError::ArmyAlreadyMoved(self.armies[index].id.clone()));
        }
        let from_province = self.armies[index].province.clone();
        let source = match find_province(&self.provinces, &from_province) {
            Some(source) => source,
            None => return Err(CampaignError::ProvinceNotFound(from_province)),
        };
        proof {
            lemma_first_match_unique(self@.provinces, province_has_id(from_province@), source as int);
        }
        let target_id = owned(destination);
        if !contains_text(&self.provinces[source].neighbors, &target_id) {
            return Err(
                CampaignError::DestinationNotAdjacent {
                    from: from_province,
                    destination: target_id,
                },
            );
        }
        let target = match find_province(&self.provinces, &target_id) {
            Some(target) => target,
            None => return Err(CampaignError::ProvinceNotFound(target_id)),
        };
        proof {
            lemma_first_match_unique(self@.provinces, province_has_id(target_id@), target as int);
        }
        let ghost old_view = self@;
        let source_name = self.provinces[source].name.clone();
        let target_name = self.provinces[target].name.clone();
        let target_owner = self.provinces[target].owner.clone();
        let attacker_army_id = self.armies[index].id.clone();
        self.armies[index].moved_this_turn = true;
        let mut line = turn_line(self.turn);
        line.append(attacker_army_id.as_str());
        if target_owner == self.armies[index].owner {
            self.armies[index].province = target_id;
            line.append(" moves from ");
            line.append(source_name.as_str());
            line.append(" to ");
            line.append(target_name.as_str());
            line.append(".");
            self.log.push(line);
        } else {
            self.pending_battle = Some(
                PendingBattle {
                    attacker_army_id: attacker_army_id,
                    attacker_faction: self.armies[index].owner.clone(),
                    from_province: from_province,
                    target_province: target_id,
                    defender_faction: target_owner,
                },
            );
            line.append(" marches from ");
            line.append(source_name.as_str());
            line.append(" into hostile ");
            line.append(target_name.as_str());
            line.append(". Battle pending.");
            self.log.push(line);
        }
        proof {
            let spec = old_view.spec_move_army(army_id@, destination@).0;
            assert(self@.armies =~= spec.armies);
            assert(self@.log =~= spec.log);
        }
        Ok(())
    }
}

// ---------------------------------------------------------------------------
// Recruitment
// ---------------------------------------------------------------------------

/// An order of `faction` for `unit` in `province`.
pub open spec fn order_for(faction: Seq<char>, province: Seq<char>, unit: UnitKind) -> spec_fn(
    RecruitmentOrderView,
) -> bool {
    |o: RecruitmentOrderView| o.faction_id == faction && o.province_id == province && o.unit == unit
}

pub open spec fn pending_reason() -> Seq<char> {
    "Resolve the pending battle before recruiting."@
}

pub open spec fn not_owner_reason(faction_name: Seq<char>, province_name: Seq<char>) -> Seq<char> {
    "Only "@ + faction_name + " can recruit during this turn, and it does not control "@
        + province_name + "."@
}

pub open spec fn queued_reason(unit: UnitKind, province_name: Seq<char>) -> Seq<char> {
    spec_unit_label(unit) + " is already queued in "@ + province_name + "."@
}

pub open spec fn treasury_reason(cost: u32, treasury: u32) -> Seq<char> {
    "Need "@ + decimal(cost as nat) + " gold; the treasury has "@ + decimal(treasury as nat) + "."@
}

pub open spec fn queue_line(
    turn: u32,
    faction_name: Seq<char>,
    unit: UnitKind,
    province_name: Seq<char>,
) -> Seq<char> {
    turn_prefix(turn) + faction_name + " queues "@ + decimal(spec_unit_soldiers(unit) as nat) + " "@
        + spec_unit_label(unit) + " in "@ + province_name + " for "@ + decimal(
        spec_unit_cost(unit) as nat,
    ) + " gold."@
}

pub open spec fn sat_add_u32(a: u32, b: u32) -> u32 {
    if a as int + b as int <= u32::MAX { (a + b) as u32 } else { u32::MAX }
}

impl CampaignView {
    pub open spec fn has_queued(self, province_id: Seq<char>, unit: UnitKind) -> bool {
        exists_match(self.recruitment_queue, order_for(self.active_faction, province_id, unit))
    }

    /// Why the active faction cannot recruit `unit` in `province` with
    /// `treasury` gold, or `None` when it can.
    pub open spec fn spec_unavailable_reason(
        self,
        province: ProvinceView,
        unit: UnitKind,
        treasury: u32,
    ) -> Option<Seq<char>> {
        if self.pending_battle is Some {
            Some(pending_reason())
        } else if province.owner != self.active_faction {
            Some(not_owner_reason(self.faction_name(self.active_faction), province.name))
        } else if self.has_queued(province.id, unit) {
            Some(queued_reason(unit, province.name))
        } else if treasury < spec_unit_cost(unit) {
            Some(treasury_reason(spec_unit_cost(unit), treasury))
        } else {
            None
        }
    }

    pub open spec fn spec_option(self, province: ProvinceView, unit: UnitKind, treasury: u32) -> RecruitmentOptionView {
        let reason = self.spec_unavailable_reason(province, unit, treasury);
        RecruitmentOptionView {
            unit,
            label: spec_unit_label(unit),
            cost: spec_unit_cost(unit),
            soldiers: spec_unit_soldiers(unit),
            available: reason is None,
            reason,
        }
    }

    /// One option per unit kind, in the fixed kind order.
    pub open spec fn spec_recruitment_options(self, province_id: Seq<char>) -> Result<
        Seq<RecruitmentOptionView>,
        CampaignErrorView,
    > {
        if !self.has_province(province_id) {
            Err(CampaignErrorView::ProvinceNotFound(province_id))
        } else if !self.has_faction(self.active_faction) {
            Err(CampaignErrorView::FactionNotFound(self.active_faction))
        } else {
            let province = self.province(province_id);
            let treasury = self.factions[self.faction_index(self.active_faction)].treasury;
            Ok(spec_unit_kinds().map_values(|unit: UnitKind| self.spec_option(province, unit, treasury)))
        }
    }

    /// Queuing pays the full cost now and delivers the soldiers when the
    /// faction's turn comes round again.
    pub open spec fn spec_queue_recruitment(self, province_id: Seq<char>, unit: UnitKind) -> (
        CampaignView,
        Result<(), CampaignErrorView>,
    ) {
        if self.pending_battle is Some {
            (self, Err(CampaignErrorView::BattlePending))
        } else if !self.has_province(province_id) {
            (self, Err(CampaignErrorView::ProvinceNotFound(province_id)))
        } else {
            let province = self.province(province_id);
            if province.owner != self.active_faction {
                (
                    self,
                    Err(
                        CampaignErrorView::ProvinceNotOwned {
                            province: province.name,
                            owner: province.owner,
                            active_faction: self.active_faction,
                        },
                    ),
                )
            } else if self.has_queued(province_id, unit) {
                (
                    self,
                    Err(
                        CampaignErrorView::RecruitmentAlreadyQueued {
                            province: province.name,
                            unit,
                        },
                    ),
                )
            } else if !self.has_faction(self.active_faction) {
                (self, Err(CampaignErrorView::FactionNotFound(self.active_faction)))
            } else {
                let fi = self.faction_index(self.active_faction);
                let faction = self.factions[fi];
                if faction.treasury < spec_unit_cost(unit) {
                    (
                        self,
                        Err(
                            CampaignErrorView::InsufficientTreasury {
                                faction: faction.name,
                                cost: spec_unit_cost(unit),
                                treasury: faction.treasury,
                            },
                        ),
                    )
                } else {
                    let order = RecruitmentOrderView {
                        faction_id: self.active_faction,
                        province_id,
                        unit,
                        label: spec_unit_label(unit),
                        cost: spec_unit_cost(unit),
                        soldiers: spec_unit_soldiers(unit),
                        ready_on_turn: sat_add_u32(self.turn, self.factions.len() as u32),
                    };
                    (
                        CampaignView {
                            factions: self.factions.update(
                                fi,
                                FactionView {
                                    treasury: (faction.treasury - spec_unit_cost(unit)) as u32,
                                    ..faction
                                },
                            ),
                            recruitment_queue: self.recruitment_queue.push(order),
                            log: self.log.push(
                                queue_line(self.turn, faction.name, unit, province.name),
                            ),
                            ..self
                        },
                        Ok(()),
                    )
                }
            }
        }
    }
}

pub open spec fn options_result(r: Result<Vec<RecruitmentOption>, CampaignError>) -> Result<
    Seq<RecruitmentOptionView>,
    CampaignErrorView,
> {
    match r {
        Ok(v) => Ok(v@.map_values(|o: RecruitmentOption| o@)),
        Err(e) => Err(e@),
    }
}

impl CampaignState {
    pub fn faction_name(&self, faction_id: &String) -> (name: String)
        ensures
            name@ == self@.faction_name(faction_id@),
    {
        match find_faction(&self.factions, faction_id) {
            Some(index) => {
                proof {
                    lemma_first_match_unique(self@.factions, faction_has_id(faction_id@), index as int);
                }
                self.factions[index].name.clone()
            },
            None => faction_id.clone(),
        }
    }

    fn has_queued(&self, province_id: &String, unit: UnitKind) -> (queued: bool)
        ensures
            queued == self@.has_queued(province_id@, unit),
    {
        let ghost views = self@.recruitment_queue;
        let ghost p = order_for(self.active_faction@, province_id@, unit);
        let mut i: usize = 0;
        while i < self.recruitment_queue.len()
            invariant
                i <= self.recruitment_queue.len(),
                views == self@.recruitment_queue,
                p == order_for(self.active_faction@, province_id@, unit),
                views.len() == self.recruitment_queue@.len(),
                forall|j: int| 0 <= j < i ==> !p(#[trigger] views[j]),
            decreases self.recruitment_queue.len() - i,
        {
            let order = &self.recruitment_queue[i];
            if order.faction_id == self.active_faction && order.province_id == *province_id
                && order.unit == unit {
                assert(p(views[i as int]));
                return true;
            }
            i += 1;
        }
        false
    }

    fn recruitment_unavailable_reason(&self, province: usize, unit: UnitKind, treasury: u32) -> (reason:
        Option<String>)
        requires
            province < self.provinces.len(),
        ensures
            opt_text_view(reason) == self@.spec_unavailable_reason(
                self@.provinces[province as int],
                unit,
                treasury,
            ),
    {
        if self.pending_battle.is_some() {
            return Some(owned("Resolve the pending battle before recruiting."));
        }
        let province = &self.provinces[province];
        if province.owner != self.active_faction {
            let mut line = owned("Only ");
            line.append(self.faction_name(&self.active_faction).as_str());
            line.append(" can recruit during this turn, and it does not control ");
            line.append(province.name.as_str());
            line.append(".");
            return Some(line);
        }
        if self.has_queued(&province.id, unit) {
            let mut line = unit.spec().label;
            line.append(" is already queued in ");
            line.append(province.name.as_str());
            line.append(".");
            return Some(line);
        }
        let spec = unit.spec();
        if treasury < spec.cost {
            let mut line = owned("Need ");
            line.append(decimal_text(spec.cost as u64).as_str());
            line.append(" gold; the treasury has ");
            line.append(decimal_text(treasury as u64).as_str());
            line.append(".");
            return Some(line);
        }
        None
    }

    fn recruitment_option(&self, province: usize, unit: UnitKind, treasury: u32) -> (option:
        RecruitmentOption)
        requires
            province < self.provinces.len(),
        ensures
            option@ == self@.spec_option(self@.provinces[province as int], unit, treasury),
    {
        let spec = unit.spec();
        let reason = self.recruitment_unavailable_reason(province, unit, treasury);
        RecruitmentOption {
            unit,
            label: spec.label,
            cost: spec.cost,
            soldiers: spec.soldiers,
            available: reason.is_none(),
            reason,
        }
    }

    pub fn recruitment_options(&self, province_id: &str) -> (options: Result<
        Vec<RecruitmentOption>,
        CampaignError,
    >)
        ensures
            options_result(options) == self@.spec_recruitment_options(province_id@),
    {
        let id = owned(province_id);
        let province = match find_province(&self.provinces, &id) {
            Some(province) => province,
            None => return Err(CampaignError::ProvinceNotFound(id)),
        };
        proof {
            lemma_first_match_unique(self@.provinces, province_has_id(id@), province as int);
        }
        let faction = match find_faction(&self.factions, &self.active_faction) {
            Some(faction) => faction,
            None => return Err(CampaignError::FactionNotFound(self.active_faction.clone())),
        };
        proof {
            lemma_first_match_unique(self@.factions, faction_has_id(self.active_faction@), faction as int);
        }
        let treasury = self.factions[faction].treasury;
        let mut options: Vec<RecruitmentOption> = Vec::new();
        options.push(self.recruitment_option(province, UnitKind::Levy, treasury));
        options.push(self.recruitment_option(province, UnitKind::Spearmen, treasury));
        options.push(self.recruitment_option(province, UnitKind::Archers, treasury));
        options.push(self.recruitment_option(province, UnitKind::Knights, treasury));
        proof {
            let expected = self@.spec_recruitment_options(province_id@);
            assert(options@.map_values(|o: RecruitmentOption| o@) =~= expected->Ok_0);
        }
        Ok(options)
    }

    pub fn queue_recruitment(&mut self, province_id: &str, unit: UnitKind) -> (result: Result<
        (),
        CampaignError,
    >)
        ensures
            final(self)@ == old(self)@.spec_queue_recruitment(province_id@, unit).0,
            unit_result(result) == old(self)@.spec_queue_recruitment(province_id@, unit).1,
    {
        if self.pending_battle.is_some() {
            return Err(CampaignError::BattlePending);
        }
        let id = owned(province_id);
        let province = match find_province(&self.provinces, &id) {
            Some(province) => province,
            None => return Err(CampaignError::ProvinceNotFound(id)),
        };
        proof {
            lemma_first_match_unique(self@.provinces, province_has_id(id@), province as int);
        }
        let province_name = self.provinces[province].name.clone();
        if self.provinces[province].owner != self.active_faction {
            return Err(
                CampaignError::ProvinceNotOwned {
                    province: province_name,
                    owner: self.provinces[province].owner.clone(),
                    active_faction: self.active_faction.clone(),
                },
            );
        }
        if self.has_queued(&id, unit) {
            return Err(CampaignError::RecruitmentAlreadyQueued { province: province_name, unit });
        }
        let faction = match find_faction(&self.factions, &self.active_faction) {
            Some(faction) => faction,
            None => return Err(CampaignError::FactionNotFound(self.active_faction.clone())),
        };
        proof {
            lemma_first_match_unique(self@.factions, faction_has_id(self.active_faction@), faction as int);
        }
        let spec = unit.spec();
        let treasury = self.factions[faction].treasury;
        if treasury < spec.cost {
            return Err(
                CampaignError::InsufficientTreasury {
                    faction: self.factions[faction].name.clone(),
                    cost: spec.cost,
                    treasury,
                },
            );
        }
        let ghost old_view = self@;
        self.factions[faction].treasury = treasury - spec.cost;
        let ready_on_turn = self.turn.saturating_add(self.factions.len() as u32);
        let faction_name = self.factions[faction].name.clone();
        self.recruitment_queue.push(
            RecruitmentOrder {
                faction_id: self.active_faction.clone(),
                province_id: id,
                unit,
                label: spec.label,
                cost: spec.cost,
                soldiers: spec.soldiers,
                ready_on_turn,
            },
        );
        let mut line = turn_line(self.turn);
        line.append(faction_name.as_str());
        line.append(" queues ");
        line.append(decimal_text(spec.soldiers as u64).as_str());
        line.append(" ");
        line.append(unit.spec().label.as_str());
        line.append(" in ");
        line.append(province_name.as_str());
        line.append(" for ");
        line.append(decimal_text(spec.cost as u64).as_str());
        line.append(" gold.");
        self.log.push(line);
        proof {
            let spec_state = old_view.spec_queue_recruitment(province_id@, unit).0;
            assert(self@.factions =~= spec_state.factions);
            assert(self@.recruitment_queue =~= spec_state.recruitment_queue);
            assert(self@.log =~= spec_state.log);
        }
        Ok(())
    }
}

// ---------------------------------------------------------------------------
// Turn order, economy and recruitment delivery
// ---------------------------------------------------------------------------

pub open spec fn sat_add_u16(a: u16, b: u16) -> u16 {
    if a as int + b as int <= u16::MAX { (a + b) as u16 } else { u16::MAX }
}

pub open spec fn sat_mul_u32(a: u32, b: u32) -> u32 {
    if a as int * b as int <= u32::MAX { (a * b) as u32 } else { u32::MAX }
}

/// Provincial income of a faction: fifty gold per point of wealth of every
/// province it owns (each province's share saturating at `u32::MAX`).
pub open spec fn spec_income(provinces: Seq<ProvinceView>, faction_id: Seq<char>) -> int
    decreases provinces.len(),
{
    if provinces.len() == 0 {
        0
    } else {
        spec_income(provinces.drop_last(), faction_id) + if provinces.last().owner == faction_id {
            sat_mul_u32(provinces.last().wealth, INCOME_PER_WEALTH) as int
        } else {
            0
        }
    }
}

/// Adds delivered soldiers of one kind to an army, saturating at `u16::MAX`.
pub open spec fn add_soldiers(army: ArmyView, unit: UnitKind, soldiers: u16) -> ArmyView {
    match unit {
        UnitKind::Levy => ArmyView { levy: sat_add_u16(army.levy, soldiers), ..army },
        UnitKind::Spearmen => ArmyView { spearmen: sat_add_u16(army.spearmen, soldiers), ..army },
        UnitKind::Archers => ArmyView { archers: sat_add_u16(army.archers, soldiers), ..army },
        UnitKind::Knights => ArmyView { knights: sat_add_u16(army.knights, soldiers), ..army },
    }
}

pub open spec fn recruit_army_id(faction: Seq<char>, province: Seq<char>, turn: u32) -> Seq<char> {
    faction + "-"@ + province + "-recruits-t"@ + decimal(turn as nat)
}

pub open spec fn begin_line(turn: u32, faction_name: Seq<char>) -> Seq<char> {
    turn_prefix(turn) + faction_name + " begins its turn."@
}

pub open spec fn income_line(turn: u32, faction_name: Seq<char>, income: int) -> Seq<char> {
    turn_prefix(turn) + faction_name + " receives "@ + decimal(income as nat)
        + " gold in provincial income."@
}

pub open spec fn delivery_line(turn: u32, soldiers: u16, label: Seq<char>, province_name: Seq<char>) -> Seq<char> {
    turn_prefix(turn) + decimal(soldiers as nat) + " "@ + label + " complete recruitment in "@
        + province_name + "."@
}

/// An order of `faction` that is due by `turn`.
pub open spec fn order_due(faction: Seq<char>, turn: u32) -> spec_fn(RecruitmentOrderView) -> bool {
    |o: RecruitmentOrderView| o.faction_id == faction && o.ready_on_turn <= turn
}

pub open spec fn order_not_due(faction: Seq<char>, turn: u32) -> spec_fn(RecruitmentOrderView) -> bool {
    |o: RecruitmentOrderView| !(o.faction_id == faction && o.ready_on_turn <= turn)
}

/// An army of `faction` is no longer marked as having moved.
pub open spec fn refresh_army(faction: Seq<char>) -> spec_fn(ArmyView) -> ArmyView {
    |a: ArmyView| if a.owner == faction { ArmyView { moved_this_turn: false, ..a } } else { a }
}

impl CampaignView {
    /// Delivers one order: its soldiers join the first army of the faction in
    /// the province, or a new army raised there.
    pub open spec fn spec_complete_recruitment(self, order: RecruitmentOrderView) -> (
        CampaignView,
        Result<(), CampaignErrorView>,
    ) {
        if !self.has_province(order.province_id) {
            (self, Err(CampaignErrorView::ProvinceNotFound(order.province_id)))
        } else {
            let line = delivery_line(
                self.turn,
                order.soldiers,
                order.label,
                self.province(order.province_id).name,
            );
            let here = army_at(order.faction_id, order.province_id);
            if exists_match(self.armies, here) {
                let i = first_match(self.armies, here);
                (
                    CampaignView {
                        armies: self.armies.update(
                            i,
                            add_soldiers(self.armies[i], order.unit, order.soldiers),
                        ),
                        log: self.log.push(line),
                        ..self
                    },
                    Ok(()),
                )
            } else {
                let raised = ArmyView {
                    id: recruit_army_id(order.faction_id, order.province_id, self.turn),
                    owner: order.faction_id,
                    province: order.province_id,
                    levy: 0,
                    spearmen: 0,
                    archers: 0,
                    knights: 0,
                    moved_this_turn: false,
                };
                (
                    CampaignView {
                        armies: self.armies.push(add_soldiers(raised, order.unit, order.soldiers)),
                        log: self.log.push(line),
                        ..self
                    },
                    Ok(()),
                )
            }
        }
    }

    /// Delivers orders in sequence, stopping at the first failure.
    pub open spec fn spec_complete_all(self, orders: Seq<RecruitmentOrderView>) -> (
        CampaignView,
        Result<(), CampaignErrorView>,
    )
        decreases orders.len(),
    {
        if orders.len() == 0 {
            (self, Ok(()))
        } else {
            let (before, result) = self.spec_complete_all(orders.drop_last());
            if result is Err {
                (before, result)
            } else {
                before.spec_complete_recruitment(orders.last())
            }
        }
    }

    /// Whether the start-of-turn economy would pay income this turn.
    pub open spec fn pays_income(self) -> bool {
        self.has_faction(self.active_faction) && self.factions[self.faction_index(
            self.active_faction,
        )].last_economy_turn != Some(self.turn)
    }

    /// Once per faction turn: pay provincial income, then deliver every due
    /// recruitment order of the active faction in queue order.
    pub open spec fn spec_apply_turn_start(self) -> (CampaignView, Result<(), CampaignErrorView>) {
        let fid = self.active_faction;
        if !self.has_faction(fid) {
            (self, Err(CampaignErrorView::FactionNotFound(fid)))
        } else {
            let fi = self.faction_index(fid);
            let faction = self.factions[fi];
            if faction.last_economy_turn == Some(self.turn) {
                (self, Ok(()))
            } else {
                let income = spec_income(self.provinces, fid);
                let paid = CampaignView {
                    factions: self.factions.update(
                        fi,
                        FactionView {
                            treasury: sat_add_u32(faction.treasury, income as u32),
                            last_economy_turn: Some(self.turn),
                            ..faction
                        },
                    ),
                    recruitment_queue: self.recruitment_queue.filter(order_not_due(fid, self.turn)),
                    log: self.log.push(income_line(self.turn, faction.name, income)),
                    ..self
                };
                paid.spec_complete_all(self.recruitment_queue.filter(order_due(fid, self.turn)))
            }
        }
    }

    pub open spec fn next_faction_index(self) -> int {
        let current = if self.has_faction(self.active_faction) {
            self.faction_index(self.active_faction)
        } else {
            0
        };
        (current + 1) % (self.factions.len() as int)
    }

    /// The state right after the turn passes to the next faction in order,
    /// before its start-of-turn economy.
    pub open spec fn spec_pass_turn(self) -> CampaignView {
        let next = self.next_faction_index();
        let faction = self.factions[next];
        CampaignView {
            turn: (self.turn + 1) as u32,
            year: if next == 0 { (self.year + 1) as u16 } else { self.year },
            active_faction: faction.id,
            armies: self.armies.map_values(refresh_army(faction.id)),
            log: self.log.push(begin_line((self.turn + 1) as u32, faction.name)),
            ..self
        }
    }

    /// The turn counter, the year and the income fit their integer types.
    pub open spec fn end_turn_fits(self) -> bool {
        self.pending_battle is Some || self.factions.len() == 0 || {
            &&& self.turn < u32::MAX
            &&& self.next_faction_index() == 0 ==> self.year < u16::MAX
            &&& self.spec_pass_turn().pays_income() ==> spec_income(
                self.provinces,
                self.spec_pass_turn().active_faction,
            ) <= u32::MAX
        }
    }

    /// Ends the active faction's turn: the next faction in order becomes
    /// active (a new year starts when the order wraps), its armies may move
    /// again, and its start-of-turn economy runs.
    pub open spec fn spec_end_turn(self) -> (CampaignView, Result<(), CampaignErrorView>) {
        if self.pending_battle is Some {
            (self, Err(CampaignErrorView::BattlePending))
        } else if self.factions.len() == 0 {
            (self, Ok(()))
        } else {
            self.spec_pass_turn().spec_apply_turn_start()
        }
    }
}

impl CampaignState {
    pub fn faction(&self, faction_id: &str) -> (faction: Result<&Faction, CampaignError>)
        ensures
            match faction {
                Ok(f) => self@.has_faction(faction_id@) && f@ == self@.factions[self@.faction_index(
                    faction_id@,
                )],
                Err(e) => !self@.has_faction(faction_id@) && e@
                    == CampaignErrorView::FactionNotFound(faction_id@),
            },
    {
        let id = owned(faction_id);
        match find_faction(&self.factions, &id) {
            Some(index) => {
                proof {
                    lemma_first_match_unique(self@.factions, faction_has_id(id@), index as int);
                }
                Ok(&self.factions[index])
            },
            None => Err(CampaignError::FactionNotFound(id)),
        }
    }

    fn income_for(&self, faction_id: &String) -> (income: u32)
        requires
            spec_income(self@.provinces, faction_id@) <= u32::MAX,
        ensures
            income == spec_income(self@.provinces, faction_id@),
    {
        let mut total: u32 = 0;
        let mut i: usize = 0;
        while i < self.provinces.len()
            invariant
                i <= self.provinces.len(),
                spec_income(self@.provinces, faction_id@) <= u32::MAX,
                total == spec_income(self@.provinces.take(i as int), faction_id@),
            decreases self.provinces.len() - i,
        {
            proof {
                assert(self@.provinces.take(i + 1).drop_last() =~= self@.provinces.take(i as int));
                lemma_income_prefix(self@.provinces, faction_id@, i + 1);
            }
            if self.provinces[i].owner == *faction_id {
                let share = self.provinces[i].wealth as u64 * INCOME_PER_WEALTH as u64;
                let share: u32 = if share > u32::MAX as u64 {
                    u32::MAX
                } else {
                    share as u32
                };
                total = total + share;
            }
            i += 1;
        }
        assert(self@.provinces.take(self.provinces.len() as int) =~= self@.provinces);
        total
    }

    fn complete_recruitment(&mut self, order: RecruitmentOrder) -> (result: Result<
        (),
        CampaignError,
    >)
        ensures
            final(self)@ == old(self)@.spec_complete_recruitment(order@).0,
            unit_result(result) == old(self)@.spec_complete_recruitment(order@).1,
    {
        let province = match find_province(&self.provinces, &order.province_id) {
            Some(province) => province,
            None => return Err(CampaignError::ProvinceNotFound(order.province_id)),
        };
        proof {
            lemma_first_match_unique(self@.provinces, province_has_id(order.province_id@), province as int);
        }
        let ghost old_view = self@;
        let province_name = self.provinces[province].name.clone();
        let index = match find_army_at(&self.armies, &order.faction_id, &order.province_id) {
            Some(index) => {
                proof {
                    lemma_first_match_unique(
                        self@.armies,
                        army_at(order.faction_id@, order.province_id@),
                        index as int,
                    );
                }
                index
            },
            None => {
                let mut id = order.faction_id.clone();
                id.append("-");
                id.append(order.province_id.as_str());
                id.append("-recruits-t");
                id.append(decimal_text(self.turn as u64).as_str());
                self.armies.push(
                    Army {
                        id,
                        owner: order.faction_id.clone(),
                        province: order.province_id.clone(),
                        levy: 0,
                        spearmen: 0,
                        archers: 0,
                        knights: 0,
                        moved_this_turn: false,
                    },
                );
                self.armies.len() - 1
            },
        };
        match order.unit {
            UnitKind::Levy => {
                self.armies[index].levy = self.armies[index].levy.saturating_add(order.soldiers);
            },
            UnitKind::Spearmen => {
                self.armies[index].spearmen = self.armies[index].spearmen.saturating_add(
                    order.soldiers,
                );
            },
            UnitKind::Archers => {
                self.armies[index].archers = self.armies[index].archers.saturating_add(
                    order.soldiers,
                );
            },
            UnitKind::Knights => {
                self.armies[index].knights = self.armies[index].knights.saturating_add(
                    order.soldiers,
                );
            },
        }
        let mut line = turn_line(self.turn);
        line.append(decimal_text(order.soldiers as u64).as_str());
        line.append(" ");
        line.append(order.label.as_str());
        line.append(" complete recruitment in ");
        line.append(province_name.as_str());
        line.append(".");
        self.log.push(line);
        proof {
            let spec_state = old_view.spec_complete_recruitment(order@).0;
            assert(self@.armies =~= spec_state.armies);
            assert(self@.log =~= spec_state.log);
        }
        Ok(())
    }

    /// Runs the start-of-turn economy of the active faction once per turn.
    pub fn apply_turn_start(&mut self) -> (result: Result<(), CampaignError>)
        requires
            old(self)@.pays_income() ==> spec_income(old(self)@.provinces, old(self)@.active_faction)
                <= u32::MAX,
        ensures
            final(self)@ == old(self)@.spec_apply_turn_start().0,
            unit_result(result) == old(self)@.spec_apply_turn_start().1,
    {
        let faction_id = self.active_faction.clone();
        let faction = match find_faction(&self.factions, &faction_id) {
            Some(faction) => faction,
            None => return Err(CampaignError::FactionNotFound(faction_id)),
        };
        proof {
            lemma_first_match_unique(self@.factions, faction_has_id(faction_id@), faction as int);
        }
        match self.factions[faction].last_economy_turn {
            Some(turn) => {
                if turn == self.turn {
                    return Ok(());
                }
            },
            None => {},
        }
        let ghost old_view = self@;
        let income = self.income_for(&faction_id);
        self.factions[faction].treasury = self.factions[faction].treasury.saturating_add(income);
        self.factions[faction].last_economy_turn = Some(self.turn);
        let faction_name = self.factions[faction].name.clone();
        let mut line = turn_line(self.turn);
        line.append(faction_name.as_str());
        line.append(" receives ");
        line.append(decimal_text(income as u64).as_str());
        line.append(" gold in provincial income.");
        self.log.push(line);

        let ghost queue = old_view.recruitment_queue;
        let ghost due = order_due(faction_id@, self.turn);
        let ghost not_due = order_not_due(faction_id@, self.turn);
        let mut ready: Vec<RecruitmentOrder> = Vec::new();
        let mut rest: Vec<RecruitmentOrder> = Vec::new();
        let mut i: usize = 0;
        while i < self.recruitment_queue.len()
            invariant
                i <= self.recruitment_queue.len(),
                queue == order_views(self.recruitment_queue@),
                due == order_due(faction_id@, self.turn),
                not_due == order_not_due(faction_id@, self.turn),
                order_views(ready@) == queue.take(i as int).filter(due),
                order_views(rest@) == queue.take(i as int).filter(not_due),
            decreases self.recruitment_queue.len() - i,
        {
            let order = self.recruitment_queue[i].clone();
            proof {
                reveal(Seq::filter);
                assert(queue.take(i + 1).drop_last() =~= queue.take(i as int));
                assert(queue.take(i + 1).last() == order@);
            }
            if order.faction_id == faction_id && order.ready_on_turn <= self.turn {
                ready.push(order);
                proof {
                    assert(order_views(ready@) =~= order_views(ready@).drop_last().push(order@));
                }
            } else {
                rest.push(order);
                proof {
                    assert(order_views(rest@) =~= order_views(rest@).drop_last().push(order@));
                }
            }
            i += 1;
        }
        proof {
            assert(queue.take(queue.len() as int) =~= queue);
        }
        self.recruitment_queue = rest;
        proof {
            let paid = CampaignView {
                factions: old_view.factions.update(
                    faction as int,
                    FactionView {
                        treasury: sat_add_u32(old_view.factions[faction as int].treasury, income),
                        last_economy_turn: Some(old_view.turn),
                        ..old_view.factions[faction as int]
                    },
                ),
                recruitment_queue: queue.filter(not_due),
                log: old_view.log.push(
                    income_line(old_view.turn, old_view.factions[faction as int].name, income as int),
                ),
                ..old_view
            };
            assert(self@ =~= paid);
            assert(order_views(ready@).take(0) =~= Seq::<RecruitmentOrderView>::empty());
        }
        let ghost start = self@;
        let ghost orders = order_views(ready@);
        assert(old_view.spec_apply_turn_start() == start.spec_complete_all(orders));
        let mut k: usize = 0;
        while k < ready.len()
            invariant
                k <= ready.len(),
                orders == order_views(ready@),
                old_view.spec_apply_turn_start() == start.spec_complete_all(orders),
                old_view == old(self)@,
                start.spec_complete_all(orders.take(k as int)) == (self@, Ok::<(), CampaignErrorView>(())),
            decreases ready.len() - k,
        {
            let order = ready[k].clone();
            proof {
                assert(orders.take(k + 1).drop_last() =~= orders.take(k as int));
                assert(orders.take(k + 1).last() == order@);
            }
            let ghost before = self@;
            let ghost order_view = order@;
            let result = self.complete_recruitment(order);
            proof {
                assert(start.spec_complete_all(orders.take(k + 1)) == before.spec_complete_recruitment(order_view));
            }
            match result {
                Ok(()) => {},
                Err(error) => {
                    proof {
                        lemma_complete_all_stops(start, orders, (k + 1) as int);
                    }
                    return Err(error);
                },
            }
            k += 1;
        }
        proof {
            assert(orders.take(orders.len() as int) =~= orders);
        }
        Ok(())
    }

    /// Passes the turn to the next faction in order and runs its economy.
    pub fn end_turn(&mut self) -> (result: Result<(), CampaignError>)
        requires
            old(self)@.end_turn_fits(),
        ensures
            final(self)@ == old(self)@.spec_end_turn().0,
            unit_result(result) == old(self)@.spec_end_turn().1,
    {
        if self.pending_battle.is_some() {
            return Err(CampaignError::BattlePending);
        }
        if self.factions.len() == 0 {
            return Ok(());
        }
        let ghost old_view = self@;
        let current = match find_faction(&self.factions, &self.active_faction) {
            Some(index) => {
                proof {
                    lemma_first_match_unique(
                        self@.factions,
                        faction_has_id(self.active_faction@),
                        index as int,
                    );
                }
                index
            },
            None => 0,
        };
        let next = (current + 1) % self.factions.len();
        self.turn = self.turn + 1;
        if next == 0 {
            self.year = self.year + 1;
        }
        self.active_faction = self.factions[next].id.clone();
        let ghost mid = self@;
        let mut i: usize = 0;
        while i < self.armies.len()
            invariant
                i <= self.armies.len(),
                self.armies.len() == old_view.armies.len(),
                self.factions.len() == old_view.factions.len(),
                next < self.factions.len(),
                self@ =~= (CampaignView { armies: army_views(self.armies@), ..mid }),
                mid.active_faction == old_view.factions[next as int].id,
                forall|j: int|
                    0 <= j < i ==> #[trigger] army_views(self.armies@)[j] == refresh_army(
                        self.active_faction@,
                    )(old_view.armies[j]),
                forall|j: int|
                    i <= j < self.armies.len() ==> #[trigger] army_views(self.armies@)[j]
                        == old_view.armies[j],
            decreases self.armies.len() - i,
        {
            let ghost before = self.armies@;
            assert(army_views(before)[i as int] == old_view.armies[i as int]);
            if self.armies[i].owner == self.active_faction {
                self.armies[i].moved_this_turn = false;
            }
            proof {
                assert(self.armies@[i as int]@ == refresh_army(self.active_faction@)(
                    before[i as int]@,
                ));
                assert forall|j: int| 0 <= j < self.armies.len() && j != i implies #[trigger] army_views(self.armies@)[j]
                    == army_views(before)[j] by {
                    assert(self.armies@[j] == before[j]);
                }
            }
            i += 1;
        }
        let name = self.factions[next].name.clone();
        let mut line = turn_line(self.turn);
        line.append(name.as_str());
        line.append(" begins its turn.");
        self.log.push(line);
        proof {
            let passed = old_view.spec_pass_turn();
            assert(self@.armies =~= passed.armies);
            assert(self@.log =~= passed.log);
            assert(self@ =~= passed);
        }
        self.apply_turn_start()
    }
}

proof fn lemma_income_prefix(provinces: Seq<ProvinceView>, faction_id: Seq<char>, n: int)
    requires
        0 <= n <= provinces.len(),
    ensures
        spec_income(provinces.take(n), faction_id) <= spec_income(provinces, faction_id),
        spec_income(provinces.take(n), faction_id) >= 0,
    decreases provinces.len() - n,
{
    if n < provinces.len() {
        lemma_income_prefix(provinces, faction_id, n + 1);
        assert(provinces.take(n + 1).drop_last() =~= provinces.take(n));
    } else {
        assert(provinces.take(n) =~= provinces);
    }
    lemma_income_nonneg(provinces.take(n), faction_id);
}

proof fn lemma_income_nonneg(provinces: Seq<ProvinceView>, faction_id: Seq<char>)
    ensures
        spec_income(provinces, faction_id) >= 0,
    decreases provinces.len(),
{
    if provinces.len() > 0 {
        lemma_income_nonneg(provinces.drop_last(), faction_id);
    }
}

proof fn lemma_complete_all_stops(start: CampaignView, orders: Seq<RecruitmentOrderView>, n: int)
    requires
        0 < n <= orders.len(),
        start.spec_complete_all(orders.take(n)).1 is Err,
    ensures
        start.spec_complete_all(orders) == start.spec_complete_all(orders.take(n)),
    decreases orders.len() - n,
{
    if n < orders.len() {
        assert(orders.take(n + 1).drop_last() =~= orders.take(n));
        lemma_complete_all_stops(start, orders, n + 1);
    } else {
        assert(orders.take(n) =~= orders);
    }
}

// ---------------------------------------------------------------------------
// The opening position
// ---------------------------------------------------------------------------

pub open spec fn faction_view(id: Seq<char>, name: Seq<char>, last_economy_turn: Option<u32>) -> FactionView {
    FactionView { id, name, treasury: 1_200, last_economy_turn }
}

pub open spec fn province_view(
    id: Seq<char>,
    name: Seq<char>,
    owner: Seq<char>,
    wealth: u32,
    neighbors: Seq<Seq<char>>,
) -> ProvinceView {
    ProvinceView { id, name, owner, wealth, neighbors }
}

pub open spec fn main_army_view(id: Seq<char>, owner: Seq<char>, province: Seq<char>) -> ArmyView {
    ArmyView {
        id,
        owner,
        province,
        levy: 120,
        spearmen: 80,
        archers: 40,
        knights: 20,
        moved_this_turn: false,
    }
}

/// England (Wessex, Normandy) against France (Brittany, Anjou, Paris,
/// Flanders) in 1087, each with 1,200 gold and one main army; England moves first.
pub open spec fn spec_new_campaign() -> CampaignView {
    CampaignView {
        year: 1087,
        turn: 1,
        active_faction: "england"@,
        factions: seq![
            faction_view("england"@, "Kingdom of England"@, Some(1)),
            faction_view("france"@, "Kingdom of France"@, None),
        ],
        provinces: seq![
            province_view("wessex"@, "Wessex"@, "england"@, 5, seq!["normandy"@]),
            province_view(
                "normandy"@,
                "Normandy"@,
                "england"@,
                6,
                seq!["wessex"@, "brittany"@, "paris"@],
            ),
            province_view("brittany"@, "Brittany"@, "france"@, 4, seq!["normandy"@, "anjou"@]),
            province_view("anjou"@, "Anjou"@, "france"@, 4, seq!["brittany"@, "paris"@]),
            province_view(
                "paris"@,
                "Paris"@,
                "france"@,
                8,
                seq!["normandy"@, "anjou"@, "flanders"@],
            ),
            province_view("flanders"@, "Flanders"@, "france"@, 7, seq!["paris"@]),
        ],
        armies: seq![
            main_army_view("england-main"@, "england"@, "normandy"@),
            main_army_view("france-main"@, "france"@, "paris"@),
        ],
        pending_battle: None,
        recruitment_queue: Seq::empty(),
        battle_reports: Seq::empty(),
        log: seq!["The campaign begins in 1087."@],
    }
}

fn new_faction(id: &str, name: &str, last_economy_turn: Option<u32>) -> (faction: Faction)
    ensures
        faction@ == faction_view(id@, name@, last_economy_turn),
{
    Faction { id: owned(id), name: owned(name), treasury: 1_200, last_economy_turn }
}

fn new_province(id: &str, name: &str, owner: &str, wealth: u32, neighbors: Vec<String>) -> (province:
    Province)
    ensures
        province@ == province_view(id@, name@, owner@, wealth, text_views(neighbors@)),
{
    Province { id: owned(id), name: owned(name), owner: owned(owner), wealth, neighbors }
}

fn main_army(id: &str, owner: &str, province: &str) -> (army: Army)
    ensures
        army@ == main_army_view(id@, owner@, province@),
{
    Army {
        id: owned(id),
        owner: owned(owner),
        province: owned(province),
        levy: 120,
        spearmen: 80,
        archers: 40,
        knights: 20,
        moved_this_turn: false,
    }
}

/// The deterministic opening position of every campaign.
pub fn new_campaign() -> (campaign: CampaignState)
    ensures
        campaign@ == spec_new_campaign(),
{
    let wessex_neighbors = vec![owned("normandy")];
    let normandy_neighbors = vec![owned("wessex"), owned("brittany"), owned("paris")];
    let brittany_neighbors = vec![owned("normandy"), owned("anjou")];
    let anjou_neighbors = vec![owned("brittany"), owned("paris")];
    let paris_neighbors = vec![owned("normandy"), owned("anjou"), owned("flanders")];
    let flanders_neighbors = vec![owned("paris")];
    assert(text_views(wessex_neighbors@) =~= seq!["normandy"@]);
    assert(text_views(normandy_neighbors@) =~= seq!["wessex"@, "brittany"@, "paris"@]);
    assert(text_views(brittany_neighbors@) =~= seq!["normandy"@, "anjou"@]);
    assert(text_views(anjou_neighbors@) =~= seq!["brittany"@, "paris"@]);
    assert(text_views(paris_neighbors@) =~= seq!["normandy"@, "anjou"@, "flanders"@]);
    assert(text_views(flanders_neighbors@) =~= seq!["paris"@]);
    let factions = vec![
        new_faction("england", "Kingdom of England", Some(1)),
        new_faction("france", "Kingdom of France", None),
    ];
    let provinces = vec![
        new_province("wessex", "Wessex", "england", 5, wessex_neighbors),
        new_province("normandy", "Normandy", "england", 6, normandy_neighbors),
        new_province("brittany", "Brittany", "france", 4, brittany_neighbors),
        new_province("anjou", "Anjou", "france", 4, anjou_neighbors),
        new_province("paris", "Paris", "france", 8, paris_neighbors),
        new_province("flanders", "Flanders", "france", 7, flanders_neighbors),
    ];
    let armies = vec![
        main_army("england-main", "england", "normandy"),
        main_army("france-main", "france", "paris"),
    ];
    let log = vec![owned("The campaign begins in 1087.")];
    let campaign = CampaignState {
        year: 1087,
        turn: 1,
        active_faction: owned("england"),
        factions,
        provinces,
        armies,
        pending_battle: None,
        recruitment_queue: Vec::new(),
        battle_reports: Vec::new(),
        log,
    };
    proof {
        let expected = spec_new_campaign();
        assert(campaign@.factions =~= expected.factions);
        assert(campaign@.provinces =~= expected.provinces);
        assert(campaign@.armies =~= expected.armies);
        assert(campaign@.recruitment_queue =~= expected.recruitment_queue);
        assert(campaign@.battle_reports =~= expected.battle_reports);
        assert(campaign@.log =~= expected.log);
    }
    campaign
}


// ---------------------------------------------------------------------------
// Counter limits
// ---------------------------------------------------------------------------

impl CampaignState {
    /// Whether the provincial income of `faction_id` fits in a `u32`.
    fn income_fits(&self, faction_id: &String) -> (fits: bool)
        ensures
            fits == (spec_income(self@.provinces, faction_id@) <= u32::MAX),
    {
        let mut total: u64 = 0;
        let mut i: usize = 0;
        while i < self.provinces.len()
            invariant
                i <= self.provinces.len(),
                total == spec_income(self@.provinces.take(i as int), faction_id@),
                total <= u32::MAX,
            decreases self.provinces.len() - i,
        {
            proof {
                assert(self@.provinces.take(i + 1).drop_last() =~= self@.provinces.take(i as int));
                lemma_income_prefix(self@.provinces, faction_id@, i + 1);
            }
            if self.provinces[i].owner == *faction_id {
                let share = self.provinces[i].wealth as u64 * INCOME_PER_WEALTH as u64;
                let share: u64 = if share > u32::MAX as u64 {
                    u32::MAX as u64
                } else {
                    share
                };
                total = total + share;
            }
            if total > u32::MAX as u64 {
                return false;
            }
            i += 1;
        }
        assert(self@.provinces.take(self.provinces.len() as int) =~= self@.provinces);
        true
    }

    /// Whether ending the active faction's turn keeps the turn counter, the
    /// year and the next faction's income within their integer types.
    pub fn end_turn_fits_now(&self) -> (fits: bool)
        ensures
            fits == self@.end_turn_fits(),
    {
        if self.pending_battle.is_some() || self.factions.len() == 0 {
            return true;
        }
        if self.turn == u32::MAX {
            return false;
        }
        let current = match find_faction(&self.factions, &self.active_faction) {
            Some(index) => {
                proof {
                    lemma_first_match_unique(self@.factions, faction_has_id(self@.active_faction), index as int);
                }
                index
            },
            None => 0,
        };
        let next = (current + 1) % self.factions.len();
        if next == 0 && self.year == u16::MAX {
            return false;
        }
        let next_id = &self.factions[next].id;
        assert(self@.factions[next as int].id == next_id@);
        let first = match find_faction(&self.factions, next_id) {
            Some(index) => index,
            None => {
                assert(faction_has_id(next_id@)(self@.factions[next as int]));
                return false;
            },
        };
        proof {
            lemma_first_match_unique(self@.factions, faction_has_id(next_id@), first as int);
        }
        assert(self@.factions[first as int] == self.factions@[first as int]@);
        let pays = match self.factions[first].last_economy_turn {
            Some(turn) => turn != self.turn + 1,
            None => true,
        };
        if !pays {
            return true;
        }
        self.income_fits(next_id)
    }
}

} // verus!
