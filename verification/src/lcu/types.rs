//! What the League client reports, as plain data.
use crate::json::Json;
use vstd::prelude::*;

verus! {

/// The state of a champion-select lobby.
#[derive(Debug, Clone, Default)]
pub struct ChampSelectSession {
    pub actions: Vec<Vec<ChampSelectAction>>,
    pub bans: ChampSelectBans,
    pub local_player_cell_id: i64,
    pub my_team: Vec<ChampSelectPlayer>,
    pub their_team: Vec<ChampSelectPlayer>,
    pub timer: ChampSelectTimer,
}

/// One pick or ban, done or still to come.
#[derive(Debug, Clone, Default)]
pub struct ChampSelectAction {
    pub actor_cell_id: i64,
    pub champion_id: i64,
    pub completed: bool,
    pub id: i64,
    pub is_in_progress: bool,
    pub pick_turn: i64,
    pub is_ally_action: bool,
    /// What the client calls `type`: `pick`, `ban` or something else.
    pub action_type: String,
}

/// The bans that the client lists beside the actions.
#[derive(Debug, Clone, Default)]
pub struct ChampSelectBans {
    pub my_team_bans: Vec<i64>,
    pub their_team_bans: Vec<i64>,
}

/// One member of a team.
#[derive(Debug, Clone, Default)]
pub struct ChampSelectPlayer {
    pub assigned_position: String,
    pub cell_id: i64,
    pub champion_id: i64,
    pub champion_pick_intent: i64,
    pub summoner_id: i64,
}

/// The clock of the lobby.
#[derive(Debug, Clone, Default)]
pub struct ChampSelectTimer {
    pub adjusted_time_left_in_phase_in_sec: i64,
    pub phase: String,
    pub time_left_in_phase_in_sec: i64,
}

/// Who is logged in.
#[derive(Debug, Clone, Default)]
pub struct CurrentSummoner {
    pub display_name: String,
    pub game_name: String,
    pub tag_line: String,
    pub summoner_id: i64,
}

/// A champion of the account's collection.
#[derive(Debug, Clone, Default)]
pub struct OwnedChampion {
    pub id: i64,
    pub champion_id: i64,
    pub active: bool,
    pub ownership: ChampionOwnership,
}

/// Whether a champion is owned outright.
#[derive(Debug, Clone, Default)]
pub struct ChampionOwnership {
    pub owned: bool,
}

/// The ranks of the account.
pub struct RankedStats {
    pub queue_map: Json,
    pub highest_ranked_entry: Option<RankedEntry>,
}

/// One rank of the account.
#[derive(Debug, Clone, Default)]
pub struct RankedEntry {
    pub tier: String,
    pub division: String,
    pub queue_type: String,
}

/// How well the account knows a champion.
#[derive(Debug, Clone, Default)]
pub struct ChampionMastery {
    pub champion_id: i64,
    pub champion_level: i64,
    pub champion_points: i64,
}

/// What the client is doing.
#[derive(Debug, Clone, Default)]
pub struct GameflowSession {
    pub phase: String,
    pub game_data: GameflowData,
}

/// The game that the client is in.
#[derive(Debug, Clone, Default)]
pub struct GameflowData {
    pub queue: GameflowQueue,
}

/// The queue that the game comes from.
#[derive(Debug, Clone, Default)]
pub struct GameflowQueue {
    pub id: i64,
}

} // verus!
