//! The data that passes between the client, the ranking and the overlay.
use crate::number::Real;
use crate::text::{
    law_lower_settles, law_trim_keeps, law_trimmed_ends, lower, same, to_lower, trim, trimmed,
};
use vstd::prelude::*;

verus! {

/// One champion of the catalog.
#[derive(Debug, PartialEq, Eq)]
pub struct ChampionInfo {
    pub id: i64,
    pub key: String,
    pub name: String,
    pub slug: String,
    pub icon_url: String,
}

impl Clone for ChampionInfo {
    fn clone(&self) -> (copy: Self)
        ensures
            copy == *self,
    {
        ChampionInfo {
            id: self.id,
            key: self.key.clone(),
            name: self.name.clone(),
            slug: self.slug.clone(),
            icon_url: self.icon_url.clone(),
        }
    }
}

/// One seat of a champion-select lobby.
#[derive(Debug)]
pub struct PlayerSlot {
    pub cell_id: i64,
    /// The champion that is locked in; 0 where none is.
    pub champion_id: i64,
    /// The champion that is hovered or declared; 0 where none is.
    pub intent_id: i64,
    pub assigned_position: String,
    /// The champion to show for the seat; 0 where there is none.
    pub display_champion_id: i64,
    pub is_local: bool,
}

impl Clone for PlayerSlot {
    fn clone(&self) -> (copy: Self)
        ensures
            copy == *self,
    {
        PlayerSlot {
            cell_id: self.cell_id,
            champion_id: self.champion_id,
            intent_id: self.intent_id,
            assigned_position: self.assigned_position.clone(),
            display_champion_id: self.display_champion_id,
            is_local: self.is_local,
        }
    }
}

impl Default for PlayerSlot {
    fn default() -> (slot: Self)
        ensures
            slot.cell_id == 0,
            slot.champion_id == 0,
            slot.intent_id == 0,
            slot.assigned_position@ == Seq::<char>::empty(),
            slot.display_champion_id == 0,
            !slot.is_local,
    {
        PlayerSlot {
            cell_id: 0,
            champion_id: 0,
            intent_id: 0,
            assigned_position: String::new(),
            display_champion_id: 0,
            is_local: false,
        }
    }
}

/// The state of a draft as the overlay shows it.
#[derive(Debug)]
pub struct DraftView {
    pub role: String,
    pub pick_turn: i64,
    pub is_our_turn: bool,
    pub phase: String,
    pub seconds_left: i64,
    pub allies: Vec<PlayerSlot>,
    pub enemies: Vec<PlayerSlot>,
    pub bans: Vec<i64>,
    pub enemies_locked: usize,
    pub allies_locked: usize,
    pub lane_enemy_id: Option<i64>,
}

impl DraftView {
    /// The two drafts agree in every field.
    pub open spec fn same_draft(self, other: DraftView) -> bool {
        &&& self.role@ == other.role@
        &&& self.pick_turn == other.pick_turn
        &&& self.is_our_turn == other.is_our_turn
        &&& self.phase@ == other.phase@
        &&& self.seconds_left == other.seconds_left
        &&& self.allies@ == other.allies@
        &&& self.enemies@ == other.enemies@
        &&& self.bans@ == other.bans@
        &&& self.enemies_locked == other.enemies_locked
        &&& self.allies_locked == other.allies_locked
        &&& self.lane_enemy_id == other.lane_enemy_id
    }
}

impl Clone for DraftView {
    fn clone(&self) -> (copy: Self)
        ensures
            copy.same_draft(*self),
    {
        let allies = self.allies.clone();
        let enemies = self.enemies.clone();
        let bans = self.bans.clone();
        assert(allies@ =~= self.allies@);
        assert(enemies@ =~= self.enemies@);
        assert(bans@ =~= self.bans@);
        DraftView {
            role: self.role.clone(),
            pick_turn: self.pick_turn,
            is_our_turn: self.is_our_turn,
            phase: self.phase.clone(),
            seconds_left: self.seconds_left,
            allies,
            enemies,
            bans,
            enemies_locked: self.enemies_locked,
            allies_locked: self.allies_locked,
            lane_enemy_id: self.lane_enemy_id,
        }
    }
}

impl Default for DraftView {
    fn default() -> (draft: Self)
        ensures
            draft.role@ == Seq::<char>::empty(),
            draft.pick_turn == 0,
            !draft.is_our_turn,
            draft.phase@ == Seq::<char>::empty(),
            draft.seconds_left == 0,
            draft.allies@.len() == 0,
            draft.enemies@.len() == 0,
            draft.bans@.len() == 0,
            draft.enemies_locked == 0,
            draft.allies_locked == 0,
            draft.lane_enemy_id is None,
    {
        DraftView {
            role: String::new(),
            pick_turn: 0,
            is_our_turn: false,
            phase: String::new(),
            seconds_left: 0,
            allies: Vec::new(),
            enemies: Vec::new(),
            bans: Vec::new(),
            enemies_locked: 0,
            allies_locked: 0,
            lane_enemy_id: None,
        }
    }
}

/// One card of the recommendation list.
#[derive(Debug)]
pub struct Recommendation {
    pub champion_id: i64,
    pub name: String,
    pub slug: String,
    pub icon_url: String,
    pub score: Real,
    pub reason: String,
    pub lane_delta: Option<Real>,
    pub team_delta: Option<Real>,
    pub synergy_delta: Option<Real>,
    pub meta_wr: Option<Real>,
    /// The games behind the win rate.
    pub meta_games: Option<i64>,
    /// The share of games in which the champion is picked for the role, where
    /// it is known.
    pub meta_pickrate: Option<Real>,
}

impl Clone for Recommendation {
    fn clone(&self) -> (copy: Self)
        ensures
            copy == *self,
    {
        Recommendation {
            champion_id: self.champion_id,
            name: self.name.clone(),
            slug: self.slug.clone(),
            icon_url: self.icon_url.clone(),
            score: self.score,
            reason: self.reason.clone(),
            lane_delta: self.lane_delta,
            team_delta: self.team_delta,
            synergy_delta: self.synergy_delta,
            meta_wr: self.meta_wr,
            meta_games: self.meta_games,
            meta_pickrate: self.meta_pickrate,
        }
    }
}

/// Whether the client is there, and who is logged in.
#[derive(Debug)]
pub struct LcuStatus {
    pub connected: bool,
    pub summoner_name: Option<String>,
    pub game_name: Option<String>,
    pub detected_rank: Option<String>,
}

impl Clone for LcuStatus {
    fn clone(&self) -> (copy: Self)
        ensures
            copy == *self,
    {
        LcuStatus {
            connected: self.connected,
            summoner_name: self.summoner_name.clone(),
            game_name: self.game_name.clone(),
            detected_rank: self.detected_rank.clone(),
        }
    }
}

impl Default for LcuStatus {
    fn default() -> (status: Self)
        ensures
            !status.connected,
            status.summoner_name is None,
            status.game_name is None,
            status.detected_rank is None,
    {
        LcuStatus { connected: false, summoner_name: None, game_name: None, detected_rank: None }
    }
}

/// How far a piece of work has come: `base` hundredths, and of `span` further
/// hundredths the part `done` out of `total`.
#[derive(Debug, Clone, Copy, PartialEq, Eq, Structural)]
pub struct Progress {
    pub base: u32,
    pub span: u32,
    pub done: u64,
    pub total: u64,
}

impl Progress {
    /// A fixed number of hundredths.
    pub open spec fn fixed(hundredths: u32) -> Progress {
        Progress { base: hundredths, span: 0, done: 0, total: 1 }
    }

    /// What has been reached, in hundredths of a `total`th.
    pub open spec fn reached(self) -> int {
        self.base * self.total + self.span * self.done
    }

    /// It lies between nothing and the whole.
    pub open spec fn is_part(self) -> bool {
        self.total > 0 && 0 <= self.reached() <= 100 * self.total
    }

    /// It is no further than `other`.
    pub open spec fn at_most(self, other: Progress) -> bool {
        self.reached() * other.total <= other.reached() * self.total
    }

    /// A fixed number of hundredths.
    pub fn at(hundredths: u32) -> (p: Progress)
        ensures
            p == Progress::fixed(hundredths),
    {
        Progress { base: hundredths, span: 0, done: 0, total: 1 }
    }
}

/// What the overlay says of the matchup statistics.
#[derive(Debug)]
pub struct StatsStatus {
    pub ready: bool,
    pub ingesting: bool,
    pub stale: bool,
    pub patch: Option<String>,
    pub source: String,
    pub message: String,
    pub progress: Progress,
}

impl Clone for StatsStatus {
    fn clone(&self) -> (copy: Self)
        ensures
            copy == *self,
    {
        StatsStatus {
            ready: self.ready,
            ingesting: self.ingesting,
            stale: self.stale,
            patch: self.patch.clone(),
            source: self.source.clone(),
            message: self.message.clone(),
            progress: self.progress,
        }
    }
}

impl Default for StatsStatus {
    fn default() -> (status: Self)
        ensures
            !status.ready,
            !status.ingesting,
            !status.stale,
            status.patch is None,
            status.source@ == "lolalytics"@,
            status.message@ == "Waiting to load stats"@,
            status.progress == Progress::fixed(0),
    {
        StatsStatus {
            ready: false,
            ingesting: false,
            stale: false,
            patch: None,
            source: "lolalytics".to_string(),
            message: "Waiting to load stats".to_string(),
            progress: Progress::at(0),
        }
    }
}

/// The settings that the overlay shows.
#[derive(Debug)]
pub struct PublicSettings {
    pub rank_bracket: String,
    pub owned_only: bool,
    pub comfort_weighting: bool,
    pub always_on_top: bool,
    pub role_override: String,
}

/// A newer release, and how far its download has come.
#[derive(Debug)]
pub struct AppUpdate {
    pub version: String,
    pub download_url: String,
    pub asset_name: String,
    pub status: String,
    pub progress: Progress,
    pub message: String,
}

impl Clone for AppUpdate {
    fn clone(&self) -> (copy: Self)
        ensures
            copy == *self,
    {
        AppUpdate {
            version: self.version.clone(),
            download_url: self.download_url.clone(),
            asset_name: self.asset_name.clone(),
            status: self.status.clone(),
            progress: self.progress,
            message: self.message.clone(),
        }
    }
}

/// Everything the overlay shows at one moment.
#[derive(Debug)]
pub struct AppSnapshot {
    pub lcu: LcuStatus,
    pub game_phase: Option<String>,
    pub draft: Option<DraftView>,
    pub recommendations: Vec<Recommendation>,
    pub stats: StatsStatus,
    pub settings: PublicSettings,
    pub catalog_ready: bool,
    pub legal: String,
    pub update: Option<AppUpdate>,
}

/// The notice that the overlay has to carry.
pub const LEGAL: &'static str = "Rift Counterpick is not endorsed by Riot Games and does not reflect the views or opinions of Riot Games or anyone officially involved in producing or managing Riot Games properties. Riot Games and all associated properties are trademarks or registered trademarks of Riot Games, Inc.";

/// The notice that the overlay has to carry.
pub fn legal_boilerplate() -> (notice: String)
    ensures
        notice@ == LEGAL@,
{
    LEGAL.to_string()
}

/// The statistics' name of a role: any of the usual spellings, in any case and
/// with white space around it. A name that is none of them is kept, trimmed and
/// in lower case.
pub open spec fn role_name(raw: Seq<char>) -> Seq<char> {
    let n = lower(trimmed(raw));
    if n == "top"@ || n == "top_lane"@ {
        "top"@
    } else if n == "jungle"@ || n == "jg"@ || n == "jng"@ {
        "jungle"@
    } else if n == "middle"@ || n == "mid"@ || n == "mid_lane"@ {
        "middle"@
    } else if n == "bottom"@ || n == "bot"@ || n == "adc"@ || n == "bot_lane"@ {
        "bottom"@
    } else if n == "utility"@ || n == "support"@ || n == "sup"@ || n == "supp"@ {
        "support"@
    } else {
        n
    }
}

/// The statistics' name of a role.
pub fn normalize_role(raw: &str) -> (role: String)
    ensures
        role@ == role_name(raw@),
{
    let n = to_lower(&trim(raw));
    if same(&n, "top") || same(&n, "top_lane") {
        "top".to_string()
    } else if same(&n, "jungle") || same(&n, "jg") || same(&n, "jng") {
        "jungle".to_string()
    } else if same(&n, "middle") || same(&n, "mid") || same(&n, "mid_lane") {
        "middle".to_string()
    } else if same(&n, "bottom") || same(&n, "bot") || same(&n, "adc") || same(&n, "bot_lane") {
        "bottom".to_string()
    } else if same(&n, "utility") || same(&n, "support") || same(&n, "sup") || same(&n, "supp") {
        "support".to_string()
    } else {
        n
    }
}

/// The statistics' name of a role as the client gives it.
pub fn lcu_role_to_stats(role: &str) -> (name: String)
    ensures
        name@ == role_name(role@),
{
    let n = normalize_role(role);
    proof {
        lemma_never_utility(role@);
    }
    if same(&n, "utility") {
        "support".to_string()
    } else {
        n
    }
}

proof fn lemma_never_utility(raw: Seq<char>)
    ensures
        role_name(raw) != "utility"@,
{
    reveal_strlit("utility");
    reveal_strlit("top");
    reveal_strlit("jungle");
    reveal_strlit("middle");
    reveal_strlit("bottom");
    reveal_strlit("support");
    assert("utility"@[0] == 'u');
    assert("support"@[0] == 's');
}

/// The name of a role is its own name: however often names are passed through,
/// they stay the same.
pub proof fn law_role_name_settles(raw: Seq<char>)
    ensures
        role_name(role_name(raw)) == role_name(raw),
{
    let n = lower(trimmed(raw));
    law_trimmed_ends(raw);
    law_lower_settles(trimmed(raw));
    law_trim_keeps(n);
    lemma_plain_name("top"@);
    lemma_plain_name("jungle"@);
    lemma_plain_name("middle"@);
    lemma_plain_name("bottom"@);
    lemma_plain_name("support"@);
}

/// The names that roles go by stay as they are.
pub proof fn lemma_plain_name(name: Seq<char>)
    requires
        name == "top"@ || name == "jungle"@ || name == "middle"@ || name == "bottom"@ || name
            == "support"@,
    ensures
        role_name(name) == name,
{
    reveal_strlit("top");
    reveal_strlit("top_lane");
    reveal_strlit("jungle");
    reveal_strlit("jg");
    reveal_strlit("jng");
    reveal_strlit("middle");
    reveal_strlit("mid");
    reveal_strlit("mid_lane");
    reveal_strlit("bottom");
    reveal_strlit("bot");
    reveal_strlit("adc");
    reveal_strlit("bot_lane");
    reveal_strlit("support");
    law_trim_keeps(name);
    assert(lower(name) =~= name);
    assert("top"@.len() == 3 && "top_lane"@.len() == 8);
    assert("jungle"@.len() == 6 && "jg"@.len() == 2 && "jng"@.len() == 3);
    assert("middle"@.len() == 6 && "mid"@.len() == 3 && "mid_lane"@.len() == 8);
    assert("bottom"@.len() == 6 && "bot"@.len() == 3 && "adc"@.len() == 3 && "bot_lane"@.len() == 8);
    assert("support"@.len() == 7);
    assert("jungle"@[0] == 'j' && "middle"@[0] == 'm' && "bottom"@[0] == 'b');
}

/// Each of the usual spellings, in any case and with white space around it, is one of the
/// five roles; whatever else is there stays, in lower case.
pub proof fn law_role_spellings(raw: Seq<char>)
    ensures
        ({
            let n = lower(trimmed(raw));
            &&& n == "top"@ || n == "top_lane"@ ==> role_name(raw) == "top"@
            &&& n == "jungle"@ || n == "jg"@ || n == "jng"@ ==> role_name(raw) == "jungle"@
            &&& n == "middle"@ || n == "mid"@ || n == "mid_lane"@ ==> role_name(raw) == "middle"@
            &&& n == "bottom"@ || n == "bot"@ || n == "adc"@ || n == "bot_lane"@ ==> role_name(raw)
                == "bottom"@
            &&& n == "utility"@ || n == "support"@ || n == "sup"@ || n == "supp"@ ==> role_name(raw)
                == "support"@
            &&& role_name(raw) != "top"@ && role_name(raw) != "jungle"@ && role_name(raw)
                != "middle"@ && role_name(raw) != "bottom"@ && role_name(raw) != "support"@
                ==> role_name(raw) == n
        }),
{
    reveal_strlit("top");
    reveal_strlit("top_lane");
    reveal_strlit("jungle");
    reveal_strlit("jg");
    reveal_strlit("jng");
    reveal_strlit("middle");
    reveal_strlit("mid");
    reveal_strlit("mid_lane");
    reveal_strlit("bottom");
    reveal_strlit("bot");
    reveal_strlit("adc");
    reveal_strlit("bot_lane");
    reveal_strlit("utility");
    reveal_strlit("support");
    reveal_strlit("sup");
    reveal_strlit("supp");
    assert("top"@[0] == 't' && "top_lane"@[0] == 't');
    assert("jungle"@[0] == 'j' && "jg"@[0] == 'j' && "jng"@[0] == 'j');
    assert("middle"@[0] == 'm' && "mid"@[0] == 'm' && "mid_lane"@[0] == 'm');
    assert("bottom"@[0] == 'b' && "bot"@[0] == 'b' && "bot_lane"@[0] == 'b' && "adc"@[0] == 'a');
    assert("utility"@[0] == 'u' && "support"@[0] == 's' && "sup"@[0] == 's' && "supp"@[0] == 's');
}

/// A fixed progress is that many hundredths of the whole, and the more the further.
pub proof fn law_fixed_progress(a: u32, b: u32)
    ensures
        Progress::fixed(a).reached() == a,
        Progress::fixed(a).total == 1,
        Progress::fixed(a).at_most(Progress::fixed(b)) <==> a <= b,
        Progress::fixed(a).is_part() <==> a <= 100,
{
}

/// Two drafts are the same only where every part is.
pub proof fn law_same_draft(a: DraftView, b: DraftView)
    ensures
        a.same_draft(b) <==> a.role@ == b.role@ && a.pick_turn == b.pick_turn && a.is_our_turn
            == b.is_our_turn && a.phase@ == b.phase@ && a.seconds_left == b.seconds_left
            && a.allies@ == b.allies@ && a.enemies@ == b.enemies@ && a.bans@ == b.bans@
            && a.enemies_locked == b.enemies_locked && a.allies_locked == b.allies_locked
            && a.lane_enemy_id == b.lane_enemy_id,
{
}

} // verus!
