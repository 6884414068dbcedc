use vstd::prelude::*;

use crate::campaign::{
    new_campaign, spec_new_campaign, CampaignErrorView, CampaignState, CampaignView,
    RecruitmentOption, UnitKind,
};
use crate::save::{spec_validate, CampaignSave, SaveView, CAMPAIGN_SAVE_SCHEMA_VERSION};
use crate::text::owned;

verus! {

/// The fixed name of the desktop save file inside the application's data
/// directory; players never supply a path.
pub const SAVE_FILE_NAME: &'static str = "campaign-save.json";

/// The faction a fresh session plays.
pub open spec fn default_player() -> Seq<char> {
    "england"@
}

/// One player's running campaign.
#[derive(Debug, PartialEq, Eq)]
pub struct GameSession {
    pub campaign: CampaignState,
    pub player_faction: String,
}

pub ghost struct SessionView {
    pub campaign: CampaignView,
    pub player_faction: Seq<char>,
}

impl View for GameSession {
    type V = SessionView;

    open spec fn view(&self) -> SessionView {
        SessionView { campaign: self.campaign@, player_faction: self.player_faction@ }
    }
}

impl Clone for GameSession {
    fn clone(&self) -> (copy: Self)
        ensures
            copy@ == self@,
    {
        GameSession { campaign: self.campaign.clone(), player_faction: self.player_faction.clone() }
    }
}

pub open spec fn over_message(winner: Seq<char>) -> Seq<char> {
    "campaign is over; "@ + winner + " has already won"@
}

pub open spec fn opponent_pending_message() -> Seq<char> {
    "the deterministic opponent must finish before the player can end another turn"@
}

pub open spec fn text_result(r: Result<(), String>) -> Result<(), Seq<char>> {
    match r {
        Ok(()) => Ok(()),
        Err(e) => Err(e@),
    }
}

impl SessionView {
    /// Commands are refused once the campaign has a winner.
    pub open spec fn refusal(self) -> Option<Seq<char>> {
        match self.campaign.spec_winner() {
            Some(winner) => Some(over_message(winner)),
            None => None,
        }
    }

    /// Applies a campaign command while the campaign runs; its error becomes
    /// the session's error and leaves the session unchanged.
    pub open spec fn command(self, outcome: (CampaignView, Result<(), CampaignErrorView>)) -> (
        SessionView,
        Result<(), Seq<char>>,
    ) {
        match self.refusal() {
            Some(m) => (self, Err(m)),
            None => match outcome.1 {
                Ok(()) => (SessionView { campaign: outcome.0, ..self }, Ok(())),
                Err(e) => (self, Err(e.message())),
            },
        }
    }

    /// The player ends the turn: the opponent, when the campaign is still
    /// undecided, plays its whole turn at once with `seed`; any failure
    /// leaves the session as it was.
    pub open spec fn spec_end_player_turn(self, seed: u64) -> (SessionView, Result<(), Seq<char>>) {
        match self.refusal() {
            Some(m) => (self, Err(m)),
            None => if self.campaign.active_faction != self.player_faction {
                (self, Err(opponent_pending_message()))
            } else {
                let (ended, result) = self.campaign.spec_end_turn();
                match result {
                    Err(e) => (self, Err(e.message())),
                    Ok(()) => if ended.spec_winner() is None {
                        let (played, ai_result) = ended.spec_play_ai_turn(self.player_faction, seed);
                        match ai_result {
                            Err(e) => (self, Err(e.message())),
                            Ok(()) => (SessionView { campaign: played, ..self }, Ok(())),
                        }
                    } else {
                        (SessionView { campaign: ended, ..self }, Ok(()))
                    },
                }
            },
        }
    }

    /// The counters that ending the player's turn advances stay within
    /// their integer types.
    pub open spec fn end_player_turn_fits(self, seed: u64) -> bool {
        self.refusal() is None && self.campaign.active_faction == self.player_faction ==> {
            &&& self.campaign.end_turn_fits()
            &&& self.campaign.spec_end_turn().1 is Ok && self.campaign.spec_end_turn().0.spec_winner() is None
                ==> self.campaign.spec_end_turn().0.ai_turn_fits(seed)
        }
    }
}

impl GameSession {
    /// A fresh campaign played by England.
    pub fn new() -> (session: Self)
        ensures
            session@ == (SessionView { campaign: spec_new_campaign(), player_faction: default_player() }),
    {
        GameSession { campaign: new_campaign(), player_faction: owned("england") }
    }

    /// Refuses commands once the campaign has been won.
    pub fn ensure_campaign_running(&self) -> (result: Result<(), String>)
        ensures
            match result {
                Ok(()) => self@.refusal() is None,
                Err(m) => self@.refusal() == Some(m@),
            },
    {
        match self.campaign.winner() {
            Some(winner) => {
                let mut message = owned("campaign is over; ");
                message.append(winner.as_str());
                message.append(" has already won");
                Err(message)
            },
            None => Ok(()),
        }
    }

    /// Starts a fresh campaign for `player_faction`, which must be one of
    /// its factions; otherwise the session is unchanged.
    pub fn start_new_campaign(&mut self, player_faction: &str) -> (result: Result<(), String>)
        ensures
            ({
                let (chosen, outcome) = spec_new_campaign().spec_select_player_faction(player_faction@);
                match outcome {
                    Ok(()) => result is Ok && final(self)@ == (SessionView {
                        campaign: chosen,
                        player_faction: player_faction@,
                    }),
                    Err(e) => text_result(result) == Err::<(), Seq<char>>(e.message()) && final(self)@
                        == old(self)@,
                }
            }),
    {
        let mut campaign = new_campaign();
        if let Err(e) = campaign.select_player_faction(player_faction) {
            return Err(e.message());
        }
        self.campaign = campaign;
        self.player_faction = owned(player_faction);
        Ok(())
    }

    /// The legal destinations of an army while the campaign runs.
    pub fn legal_army_destinations(&self, army_id: &str) -> (destinations: Result<Vec<String>, String>)
        ensures
            match self@.refusal() {
                Some(m) => destinations matches Err(e) && e@ == m,
                None => match self@.campaign.spec_legal_destinations(army_id@) {
                    Ok(d) => destinations matches Ok(v) && crate::campaign::text_views(v@) == d,
                    Err(e) => destinations matches Err(m) && m@ == e.message(),
                },
            },
    {
        if let Err(m) = self.ensure_campaign_running() {
            return Err(m);
        }
        match self.campaign.legal_destinations(army_id) {
            Ok(destinations) => Ok(destinations),
            Err(e) => Err(e.message()),
        }
    }

    /// Moves an army while the campaign runs.
    pub fn move_army(&mut self, army_id: &str, destination: &str) -> (result: Result<(), String>)
        ensures
            final(self)@ == old(self)@.command(old(self)@.campaign.spec_move_army(army_id@, destination@)).0,
            text_result(result) == old(self)@.command(
                old(self)@.campaign.spec_move_army(army_id@, destination@),
            ).1,
    {
        if let Err(m) = self.ensure_campaign_running() {
            return Err(m);
        }
        match self.campaign.move_army(army_id, destination) {
            Ok(()) => Ok(()),
            Err(e) => Err(e.message()),
        }
    }

    /// The recruitment options of a province while the campaign runs.
    pub fn recruitment_options(&self, province_id: &str) -> (options: Result<
        Vec<RecruitmentOption>,
        String,
    >)
        ensures
            match self@.refusal() {
                Some(m) => options matches Err(e) && e@ == m,
                None => match self@.campaign.spec_recruitment_options(province_id@) {
                    Ok(o) => options matches Ok(v) && v@.map_values(|r: RecruitmentOption| r@) == o,
                    Err(e) => options matches Err(m) && m@ == e.message(),
                },
            },
    {
        if let Err(m) = self.ensure_campaign_running() {
            return Err(m);
        }
        match self.campaign.recruitment_options(province_id) {
            Ok(options) => Ok(options),
            Err(e) => Err(e.message()),
        }
    }

    /// Queues a recruitment while the campaign runs.
    pub fn queue_recruitment(&mut self, province_id: &str, unit: UnitKind) -> (result: Result<(), String>)
        ensures
            final(self)@ == old(self)@.command(
                old(self)@.campaign.spec_queue_recruitment(province_id@, unit),
            ).0,
            text_result(result) == old(self)@.command(
                old(self)@.campaign.spec_queue_recruitment(province_id@, unit),
            ).1,
    {
        if let Err(m) = self.ensure_campaign_running() {
            return Err(m);
        }
        match self.campaign.queue_recruitment(province_id, unit) {
            Ok(()) => Ok(()),
            Err(e) => Err(e.message()),
        }
    }

    /// Resolves the pending battle from `seed` while the campaign runs.
    pub fn resolve_pending_battle(&mut self, seed: u64) -> (result: Result<(), String>)
        ensures
            ({
                let (after, outcome) = old(self)@.campaign.spec_resolve_pending_battle(seed);
                match old(self)@.refusal() {
                    Some(m) => final(self)@ == old(self)@ && text_result(result) == Err::<(), Seq<char>>(m),
                    None => match outcome {
                        Ok(_) => final(self)@ == (SessionView { campaign: after, ..old(self)@ }) && result is Ok,
                        Err(e) => final(self)@ == old(self)@ && text_result(result) == Err::<(), Seq<char>>(e.message()),
                    },
                }
            }),
    {
        if let Err(m) = self.ensure_campaign_running() {
            return Err(m);
        }
        match self.campaign.resolve_pending_battle(seed) {
            Ok(_) => Ok(()),
            Err(e) => Err(e.message()),
        }
    }

    /// Whether ending the player's turn with `seed` keeps every counter in
    /// range; a shell checks it before `end_player_turn`.
    pub fn end_player_turn_fits_now(&self, seed: u64) -> (fits: bool)
        ensures
            fits == self@.end_player_turn_fits(seed),
    {
        if self.ensure_campaign_running().is_err() || self.campaign.active_faction != self.player_faction {
            return true;
        }
        if !self.campaign.end_turn_fits_now() {
            return false;
        }
        let mut trial = self.campaign.clone();
        if trial.end_turn().is_err() {
            return true;
        }
        if trial.winner().is_some() {
            return true;
        }
        trial.ai_turn_fits_now(seed)
    }

    /// Ends the player's turn and plays the opponent's; see
    /// `spec_end_player_turn`.
    pub fn end_player_turn(&mut self, seed: u64) -> (result: Result<(), String>)
        requires
            old(self)@.end_player_turn_fits(seed),
        ensures
            final(self)@ == old(self)@.spec_end_player_turn(seed).0,
            text_result(result) == old(self)@.spec_end_player_turn(seed).1,
    {
        if let Err(m) = self.ensure_campaign_running() {
            return Err(m);
        }
        if self.campaign.active_faction != self.player_faction {
            return Err(
                owned("the deterministic opponent must finish before the player can end another turn"),
            );
        }
        let mut next = self.campaign.clone();
        if let Err(e) = next.end_turn() {
            return Err(e.message());
        }
        if next.winner().is_none() {
            let player = self.player_faction.clone();
            if let Err(e) = next.play_ai_turn(player.as_str(), seed) {
                return Err(e.message());
            }
        }
        self.campaign = next;
        Ok(())
    }

    /// The save document of the session, once the campaign validates.
    pub fn save_document(&self) -> (save: Result<CampaignSave, String>)
        ensures
            ({
                let expected = SaveView {
                    schema_version: CAMPAIGN_SAVE_SCHEMA_VERSION,
                    player_faction: self@.player_faction,
                    campaign: self@.campaign,
                };
                match save {
                    Ok(s) => s@ == expected && spec_validate(expected) is Ok,
                    Err(m) => spec_validate(expected) matches Err(e) && m@ == e.message(),
                }
            }),
    {
        match CampaignSave::from_campaign(self.campaign.clone(), self.player_faction.as_str()) {
            Ok(save) => Ok(save),
            Err(e) => Err(e.message()),
        }
    }

    /// The session a validated save describes.
    pub fn from_save(save: CampaignSave) -> (session: Self)
        ensures
            session@ == (SessionView { campaign: save@.campaign, player_faction: save@.player_faction }),
    {
        GameSession { campaign: save.campaign, player_faction: save.player_faction }
    }
}

} // verus!
