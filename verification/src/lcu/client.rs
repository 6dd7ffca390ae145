//! What is asked of the client, and what its answers come to.
use crate::json::{document, parse_json, trees, Json, Tree};
use crate::lcu::lockfile::LockfileInfo;
use crate::lcu::types::{
    ChampionMastery, CurrentSummoner, GameflowSession, OwnedChampion, RankedStats,
};
use crate::text::{
    concat, decimal, lower, occurs, push_text, same_ignoring_case, show_i64, show_natural,
    signed_decimal, texts, trim_char, unwrapped,
};
use std::collections::{HashMap, HashSet};
use vstd::prelude::*;

verus! {

broadcast use vstd::std_specs::hash::group_hash_axioms;

// ------------------------------------------------------------ asking

/// The paths under which the client answers.
pub const SUMMONER_PATH: &'static str = "/lol-summoner/v1/current-summoner";

pub const SESSION_PATH: &'static str = "/lol-champ-select/v1/session";

pub const PHASE_PATH: &'static str = "/lol-gameflow/v1/gameflow-phase";

pub const GAMEFLOW_PATH: &'static str = "/lol-gameflow/v1/session";

pub const PICKABLE_IDS_PATH: &'static str = "/lol-champ-select/v1/pickable-champion-ids";

pub const PICKABLE_PATH: &'static str = "/lol-champ-select/v1/pickable-champions";

pub const OWNED_PATH: &'static str = "/lol-champions/v1/owned-champions-minimal";

pub const RANKED_PATH: &'static str = "/lol-ranked/v1/current-ranked-stats";

pub const MASTERY_PATH: &'static str = "/lol-collections/v1/inventories/champion-mastery";

/// The address of a path on the client's port.
pub fn lcu_url(port: u16, path: &str) -> (url: String)
    ensures
        url@ == "https://127.0.0.1:"@ + decimal(port as nat) + path@,
{
    concat(&concat("https://127.0.0.1:", &show_natural(port as u64)), path)
}

/// Where the mastery of a summoner is, for clients that want to be told whose.
pub fn mastery_path(summoner_id: i64) -> (path: String)
    ensures
        path@ == "/lol-collections/v1/inventories/"@ + signed_decimal(summoner_id as int)
            + "/champion-mastery"@,
{
    concat(
        &concat("/lol-collections/v1/inventories/", &show_i64(summoner_id)),
        "/champion-mastery",
    )
}

/// The address of the client's event stream.
pub fn ws_url(info: &LockfileInfo) -> (url: String)
    ensures
        url@ == "wss://127.0.0.1:"@ + decimal(info.port as nat) + "/"@,
{
    concat(&concat("wss://127.0.0.1:", &show_natural(info.port as u64)), "/")
}

/// How base64's `STANDARD` engine writes the UTF-8 bytes of a text.
pub uninterp spec fn base64_of(text: Seq<char>) -> Seq<char>;

/// `base64::Engine::encode` of the engine `STANDARD`, a function of the text
/// alone.
#[verifier::external_body]
fn encode_base64(text: &str) -> (encoded: String)
    ensures
        encoded@ == base64_of(text@),
{
    base64::Engine::encode(&base64::engine::general_purpose::STANDARD, text)
}

/// The authorization that the client asks for: user and password as they are
/// encoded.
pub fn auth_header(encoded: &str) -> (header: String)
    ensures
        header@ == "Basic "@ + encoded@,
{
    concat("Basic ", encoded)
}

/// The authorization for the user `riot` and the client's password.
pub fn basic_auth(info: &LockfileInfo) -> (header: String)
    ensures
        header@ == "Basic "@ + base64_of("riot:"@ + info.password@),
{
    auth_header(&encode_base64(&concat("riot:", &info.password)))
}

/// The message that subscribes to a topic.
pub open spec fn subscription(topic: Seq<char>) -> Seq<char> {
    "[5,\""@ + topic + "\"]"@
}

/// The messages that subscribe to the lobby and to the phase of the game.
pub fn subscriptions() -> (messages: Vec<String>)
    ensures
        texts(messages@) == seq![
            subscription("OnJsonApiEvent_lol-champ-select_v1_session"@),
            subscription("OnJsonApiEvent_lol-gameflow_v1_session"@),
            subscription("OnJsonApiEvent_lol-gameflow_v1_gameflow-phase"@),
        ],
{
    let mut messages: Vec<String> = Vec::new();
    assert(texts(messages@) =~= Seq::empty());
    push_text(&mut messages, subscribe("OnJsonApiEvent_lol-champ-select_v1_session"));
    push_text(&mut messages, subscribe("OnJsonApiEvent_lol-gameflow_v1_session"));
    push_text(&mut messages, subscribe("OnJsonApiEvent_lol-gameflow_v1_gameflow-phase"));
    assert(texts(messages@) =~= seq![
        subscription("OnJsonApiEvent_lol-champ-select_v1_session"@),
        subscription("OnJsonApiEvent_lol-gameflow_v1_session"@),
        subscription("OnJsonApiEvent_lol-gameflow_v1_gameflow-phase"@),
    ]);
    messages
}

fn subscribe(topic: &str) -> (message: String)
    ensures
        message@ == subscription(topic@),
{
    concat(&concat("[5,\"", topic), "\"]")
}

// ------------------------------------------------------------ events

/// The address and the data of an event, which is the third of the parts of a
/// message.
pub open spec fn event_of(message: Tree) -> Option<(Seq<char>, Tree)> {
    match message.items() {
        Some(parts) => if parts.len() < 3 {
            None
        } else {
            let uri = match parts[2].field("uri"@) {
                Some(Tree::Text(uri)) => uri,
                _ => Seq::empty(),
            };
            let data = match parts[2].field("data"@) {
                Some(data) => data,
                None => Tree::Null,
            };
            Some((uri, data))
        },
        None => None,
    }
}

/// The address and the data of the event in a message.
pub fn read_event(message: &Json) -> (event: Option<(String, Json)>)
    ensures
        match event {
            Some((uri, data)) => event_of(message@) == Some((uri@, data@)),
            None => event_of(message@) is None,
        },
{
    let parts = match message.as_array() {
        Some(parts) => parts,
        None => {
            return None;
        },
    };
    if parts.len() < 3 {
        return None;
    }
    assert(trees(parts@)[2] == parts@[2]@);
    let payload = &parts[2];
    let uri = match payload.get("uri") {
        Some(Json::Text(uri)) => uri.clone(),
        _ => String::new(),
    };
    let data = match payload.get("data") {
        Some(data) => data.clone(),
        None => Json::Null,
    };
    Some((uri, data))
}

/// The address and the data of the event in a message, as it came.
pub fn parse_ws_event(text: &str) -> (event: Option<(String, Json)>)
    ensures
        match event {
            Some((uri, data)) => document(text@) matches Some(message) && event_of(message) == Some(
                (uri@, data@),
            ),
            None => document(text@) matches Some(message) ==> event_of(message) is None,
        },
{
    match parse_json(text) {
        Some(message) => read_event(&message),
        None => None,
    }
}

/// What an event is about.
#[derive(Debug)]
pub enum WsEvent {
    /// The lobby; `gone` where there is none any more.
    Lobby { gone: bool },
    /// The phase of the game.
    Phase(String),
    Other,
}

/// The phase that the data of an event names, by itself or as a member.
pub open spec fn phase_in(data: Tree) -> Option<Seq<char>> {
    match data {
        Tree::Text(phase) => Some(phase),
        _ => match data.field("phase"@) {
            Some(Tree::Text(phase)) => Some(phase),
            _ => None,
        },
    }
}

/// `event` is what the address and the data tell.
pub open spec fn is_event(event: WsEvent, uri: Seq<char>, data: Tree) -> bool {
    if occurs(uri, "champ-select"@) {
        event == WsEvent::Lobby { gone: data is Null }
    } else if occurs(uri, "gameflow"@) {
        match phase_in(data) {
            Some(phase) => event matches WsEvent::Phase(p) && p@ == phase,
            None => event is Other,
        }
    } else {
        event is Other
    }
}

/// What an event is about.
pub fn classify(uri: &str, data: &Json) -> (event: WsEvent)
    ensures
        is_event(event, uri@, data@),
{
    if crate::text::contains(uri, "champ-select") {
        return WsEvent::Lobby { gone: data.is_null() };
    }
    if crate::text::contains(uri, "gameflow") {
        if let Json::Text(phase) = data {
            return WsEvent::Phase(phase.clone());
        }
        if let Some(Json::Text(phase)) = data.get("phase") {
            return WsEvent::Phase(phase.clone());
        }
    }
    WsEvent::Other
}

/// The phase without the quotes that some clients put around it.
pub fn plain_phase(raw: &str) -> (phase: String)
    ensures
        phase@ == unwrapped(raw@, '"'),
{
    trim_char(raw, '"')
}

// ------------------------------------------------------------ champions

/// The champions among the numbers of a list.
pub fn positive_ids(list: &Vec<i64>) -> (ids: HashSet<i64>)
    ensures
        ids@ == Set::new(|id: i64| id > 0 && list@.contains(id)),
{
    let mut ids: HashSet<i64> = HashSet::new();
    for i in 0..list.len()
        invariant
            forall|id: i64|
                ids@.contains(id) <==> id > 0 && exists|j: int|
                    0 <= j < i && #[trigger] list@[j] == id,
    {
        let id = list[i];
        let ghost before = ids@;
        if id > 0 {
            ids.insert(id);
        }
        assert forall|other: i64|
            ids@.contains(other) <==> other > 0 && exists|j: int|
                0 <= j < i + 1 && #[trigger] list@[j] == other by {
            if other > 0 && other == id {
                assert(list@[i as int] == other);
            }
            if before.contains(other) {
                let j = choose|j: int| 0 <= j < i && #[trigger] list@[j] == other;
                assert(list@[j] == other);
            }
        }
    }
    assert(ids@ =~= Set::new(|id: i64| id > 0 && list@.contains(id)));
    ids
}

/// The champion that an item of a list stands for: a number, or where `entries`
/// are allowed an entry with a number.
pub open spec fn item_champion(item: Tree, entries: bool) -> Option<i64> {
    match item.whole() {
        Some(id) => if id > 0 {
            Some(id)
        } else {
            None
        },
        None => if entries {
            let number = match item.field("championId"@) {
                Some(id) => id.whole(),
                None => match item.field("id"@) {
                    Some(id) => id.whole(),
                    None => None,
                },
            };
            match number {
                Some(id) => if id > 0 {
                    Some(id)
                } else {
                    None
                },
                None => None,
            }
        } else {
            None
        },
    }
}

fn read_champion(item: &Json, entries: bool) -> (id: Option<i64>)
    ensures
        id == item_champion(item@, entries),
{
    let number = match item.as_i64() {
        Some(id) => Some(id),
        None => if entries {
            match item.get("championId") {
                Some(id) => id.as_i64(),
                None => match item.get("id") {
                    Some(id) => id.as_i64(),
                    None => None,
                },
            }
        } else {
            None
        },
    };
    match number {
        Some(id) => if id > 0 {
            Some(id)
        } else {
            None
        },
        None => None,
    }
}

/// The champions that the items stand for.
pub open spec fn item_champions(items: Seq<Tree>, entries: bool) -> Set<i64> {
    Set::new(
        |id: i64|
            exists|i: int|
                0 <= i < items.len() && item_champion(#[trigger] items[i], entries) == Some(id),
    )
}

/// The champions that an answer lists: under `championIds`, or as it stands.
pub open spec fn listed_champions(answer: Tree) -> Set<i64> {
    match answer.field("championIds"@) {
        Some(Tree::Array(items)) => item_champions(items, false),
        _ => match answer.items() {
            Some(items) => item_champions(items, true),
            None => Set::empty(),
        },
    }
}

fn collect_champions(items: &Vec<Json>, entries: bool) -> (ids: HashSet<i64>)
    ensures
        ids@ == item_champions(trees(items@), entries),
{
    let ghost all = trees(items@);
    let mut ids: HashSet<i64> = HashSet::new();
    for i in 0..items.len()
        invariant
            all == trees(items@),
            forall|id: i64|
                #![trigger ids@.contains(id)]
                ids@.contains(id) <==> exists|j: int|
                    0 <= j < i && item_champion(#[trigger] all[j], entries) == Some(id),
    {
        let ghost before = ids@;
        assert(all[i as int] == items@[i as int]@);
        if let Some(id) = read_champion(&items[i], entries) {
            ids.insert(id);
        }
        assert forall|other: i64|
            #![trigger ids@.contains(other)]
            ids@.contains(other) <==> exists|j: int|
                0 <= j < i + 1 && item_champion(#[trigger] all[j], entries) == Some(other) by {
            if before.contains(other) {
                let j = choose|j: int|
                    0 <= j < i && item_champion(#[trigger] all[j], entries) == Some(other);
                assert(item_champion(all[j], entries) == Some(other));
            }
        }
    }
    assert(ids@ =~= item_champions(all, entries));
    ids
}

/// The champions that an answer lists.
pub fn listed_ids(answer: &Json) -> (ids: HashSet<i64>)
    ensures
        ids@ == listed_champions(answer@),
{
    if let Some(list) = answer.get("championIds") {
        if let Some(items) = list.as_array() {
            return collect_champions(items, false);
        }
    }
    match answer.as_array() {
        Some(items) => collect_champions(items, true),
        None => {
            let ids: HashSet<i64> = HashSet::new();
            assert(ids@ =~= Set::empty());
            ids
        },
    }
}

/// The champion of an entry of the collection, where it can be played.
pub open spec fn owned_champion(c: OwnedChampion) -> Option<i64> {
    let id = if c.id > 0 {
        c.id
    } else {
        c.champion_id
    };
    if (c.active || c.ownership.owned) && id > 0 {
        Some(id)
    } else {
        None
    }
}

/// The champions of the collection.
pub open spec fn owned_champions(owned: Seq<OwnedChampion>) -> Set<i64> {
    Set::new(
        |id: i64|
            exists|i: int|
                0 <= i < owned.len() && owned_champion(#[trigger] owned[i]) == Some(id),
    )
}

/// The champions of the collection.
pub fn owned_champion_ids(owned: &Vec<OwnedChampion>) -> (ids: HashSet<i64>)
    ensures
        ids@ == owned_champions(owned@),
{
    let mut ids: HashSet<i64> = HashSet::new();
    for i in 0..owned.len()
        invariant
            forall|id: i64|
                #![trigger ids@.contains(id)]
                ids@.contains(id) <==> exists|j: int|
                    0 <= j < i && owned_champion(#[trigger] owned@[j]) == Some(id),
    {
        let ghost before = ids@;
        let c = &owned[i];
        let id = if c.id > 0 {
            c.id
        } else {
            c.champion_id
        };
        if (c.active || c.ownership.owned) && id > 0 {
            ids.insert(id);
        }
        assert forall|other: i64|
            #![trigger ids@.contains(other)]
            ids@.contains(other) <==> exists|j: int|
                0 <= j < i + 1 && owned_champion(#[trigger] owned@[j]) == Some(other) by {
            if before.contains(other) {
                let j = choose|j: int|
                    0 <= j < i && owned_champion(#[trigger] owned@[j]) == Some(other);
                assert(owned_champion(owned@[j]) == Some(other));
            }
        }
    }
    assert(ids@ =~= owned_champions(owned@));
    ids
}

/// Level and points by champion; the last entry of a champion counts.
pub open spec fn mastery_of(entries: Seq<ChampionMastery>) -> Map<i64, (i64, i64)>
    decreases entries.len(),
{
    if entries.len() == 0 {
        Map::empty()
    } else {
        let m = entries.last();
        mastery_of(entries.drop_last()).insert(
            m.champion_id,
            (m.champion_level, m.champion_points),
        )
    }
}

/// Level and points by champion.
pub fn mastery_map(entries: &Vec<ChampionMastery>) -> (mastery: HashMap<i64, (i64, i64)>)
    ensures
        mastery@ == mastery_of(entries@),
{
    let mut mastery: HashMap<i64, (i64, i64)> = HashMap::new();
    for i in 0..entries.len()
        invariant
            mastery@ == mastery_of(entries@.take(i as int)),
    {
        assert(entries@.take(i + 1).drop_last() =~= entries@.take(i as int));
        let m = &entries[i];
        mastery.insert(m.champion_id, (m.champion_level, m.champion_points));
    }
    assert(entries@.take(entries@.len() as int) =~= entries@);
    mastery
}

// ------------------------------------------------------------ the player

/// The name of the account: its display name, else its game name.
pub open spec fn shown_name(s: CurrentSummoner) -> Seq<char> {
    if s.display_name@.len() == 0 {
        s.game_name@
    } else {
        s.display_name@
    }
}

/// The game name of the account, with its tag where it has one.
pub open spec fn tagged_name(s: CurrentSummoner) -> Seq<char> {
    if s.tag_line@.len() == 0 {
        s.game_name@
    } else {
        s.game_name@ + "#"@ + s.tag_line@
    }
}

/// The name of the account.
pub fn summoner_name(s: &CurrentSummoner) -> (name: String)
    ensures
        name@ == shown_name(*s),
{
    if s.display_name.as_str().is_empty() {
        s.game_name.clone()
    } else {
        s.display_name.clone()
    }
}

/// The game name of the account, with its tag where it has one.
pub fn game_name(s: &CurrentSummoner) -> (name: String)
    ensures
        name@ == tagged_name(*s),
{
    if s.tag_line.as_str().is_empty() {
        s.game_name.clone()
    } else {
        concat(&concat(&s.game_name, "#"), &s.tag_line)
    }
}

/// The queue that is played, where there is one.
pub fn current_queue_id(session: &GameflowSession) -> (id: Option<i64>)
    ensures
        id == (if session.game_data.queue.id > 0 {
            Some(session.game_data.queue.id)
        } else {
            None
        }),
{
    if session.game_data.queue.id > 0 {
        Some(session.game_data.queue.id)
    } else {
        None
    }
}

/// The ranked queue for one player or two.
pub const RANKED_SOLO_QUEUE: i64 = 420;

/// The ranked queue for teams of any size.
pub const RANKED_FLEX_QUEUE: i64 = 440;

/// The tier, where it is one.
pub open spec fn held(tier: Seq<char>) -> bool {
    tier.len() > 0 && lower(tier) != lower("NONE"@)
}

fn is_held(tier: &str) -> (r: bool)
    ensures
        r == held(tier@),
{
    !tier.is_empty() && !same_ignoring_case(tier, "NONE")
}

/// The tier held in a queue.
pub open spec fn queue_tier(queues: Tree, key: Seq<char>) -> Option<Seq<char>> {
    match queues.field(key) {
        Some(entry) => match entry.field("tier"@) {
            Some(Tree::Text(tier)) => if held(tier) {
                Some(tier)
            } else {
                None
            },
            _ => None,
        },
        None => None,
    }
}

/// The tier held in a queue.
pub fn queue_map_tier(stats: &RankedStats, key: &str) -> (tier: Option<String>)
    ensures
        match tier {
            Some(t) => queue_tier(stats.queue_map@, key@) == Some(t@),
            None => queue_tier(stats.queue_map@, key@) is None,
        },
{
    match stats.queue_map.get(key) {
        Some(entry) => match entry.get("tier") {
            Some(Json::Text(tier)) => if is_held(tier) {
                Some(tier.clone())
            } else {
                None
            },
            _ => None,
        },
        None => None,
    }
}

/// The first of the two that is there.
pub open spec fn first_of(a: Option<Seq<char>>, b: Option<Seq<char>>) -> Option<Seq<char>> {
    if a is Some {
        a
    } else {
        b
    }
}

/// The tier of the queue that is played, where it is a ranked one.
pub open spec fn played_tier(queues: Tree, queue_id: Option<i64>) -> Option<Seq<char>> {
    if queue_id == Some(RANKED_SOLO_QUEUE) {
        queue_tier(queues, "RANKED_SOLO_5x5"@)
    } else if queue_id == Some(RANKED_FLEX_QUEUE) {
        queue_tier(queues, "RANKED_FLEX_SR"@)
    } else {
        None
    }
}

/// The highest tier of the account.
pub open spec fn highest_tier(stats: RankedStats) -> Option<Seq<char>> {
    match stats.highest_ranked_entry {
        Some(entry) => if held(entry.tier@) {
            Some(entry.tier@)
        } else {
            None
        },
        None => None,
    }
}

/// The tier to read statistics at: that of the queue that is played, else the
/// highest of the account, else any that it has.
pub open spec fn tier_at(stats: RankedStats, queue_id: Option<i64>) -> Option<Seq<char>> {
    first_of(
        played_tier(stats.queue_map@, queue_id),
        first_of(
            highest_tier(stats),
            first_of(
                queue_tier(stats.queue_map@, "RANKED_SOLO_5x5"@),
                queue_tier(stats.queue_map@, "RANKED_FLEX_SR"@),
            ),
        ),
    )
}

/// The tier to read statistics at. A player who is Diamond in one queue and Gold
/// in the other should not be shown Diamond numbers in the other, so the queue
/// that is played wins over the highest tier held.
pub fn tier_for_queue(stats: &RankedStats, queue_id: Option<i64>) -> (tier: Option<String>)
    ensures
        match tier {
            Some(t) => tier_at(*stats, queue_id) == Some(t@),
            None => tier_at(*stats, queue_id) is None,
        },
{
    let played = match queue_id {
        Some(id) => if id == RANKED_SOLO_QUEUE {
            queue_map_tier(stats, "RANKED_SOLO_5x5")
        } else if id == RANKED_FLEX_QUEUE {
            queue_map_tier(stats, "RANKED_FLEX_SR")
        } else {
            None
        },
        None => None,
    };
    if played.is_some() {
        return played;
    }
    if let Some(entry) = &stats.highest_ranked_entry {
        if is_held(&entry.tier) {
            return Some(entry.tier.clone());
        }
    }
    let solo = queue_map_tier(stats, "RANKED_SOLO_5x5");
    if solo.is_some() {
        return solo;
    }
    queue_map_tier(stats, "RANKED_FLEX_SR")
}

// ------------------------------------------------------------ laws

/// In a ranked queue where the player holds a tier, that tier counts, whatever
/// they hold elsewhere.
pub proof fn law_played_queue_decides(stats: RankedStats, queue_id: Option<i64>)
    requires
        played_tier(stats.queue_map@, queue_id) is Some,
    ensures
        tier_at(stats, queue_id) == played_tier(stats.queue_map@, queue_id),
{
}

/// Whoever holds a tier anywhere is given one, and it is never the word for none.
pub proof fn law_some_tier_is_found(stats: RankedStats, queue_id: Option<i64>)
    ensures
        queue_tier(stats.queue_map@, "RANKED_SOLO_5x5"@) is Some || queue_tier(
            stats.queue_map@,
            "RANKED_FLEX_SR"@,
        ) is Some || highest_tier(stats) is Some <==> tier_at(stats, queue_id) is Some,
        tier_at(stats, queue_id) matches Some(tier) ==> held(tier),
{
}

/// The tier of a queue is what the account's entry for it calls `tier`, as long as that is
/// a tier and not the word for none.
pub proof fn law_queue_tier(queues: Tree, key: Seq<char>, entry: Tree, tier: Seq<char>)
    requires
        queues.field(key) == Some(entry),
    ensures
        entry.field("tier"@) == Some(Tree::Text(tier)) && tier.len() > 0 && lower(tier) != lower(
            "NONE"@,
        ) ==> queue_tier(queues, key) == Some(tier),
        entry.field("tier"@) == Some(Tree::Text(tier)) && (tier.len() == 0 || lower(tier) == lower(
            "NONE"@,
        )) ==> queue_tier(queues, key) is None,
        entry.field("tier"@) is None ==> queue_tier(queues, key) is None,
{
}

/// In the queue for one player or two the tier of that queue counts, in the one for teams
/// the tier of that one; where there is none, and in any other queue, the highest of the
/// account; and where that is none either, that of the first queue before that of the
/// second.
pub proof fn law_tier_by_queue(stats: RankedStats, queue_id: Option<i64>)
    ensures
        ({
            let solo = queue_tier(stats.queue_map@, "RANKED_SOLO_5x5"@);
            let flex = queue_tier(stats.queue_map@, "RANKED_FLEX_SR"@);
            let tier = tier_at(stats, queue_id);
            let high = stats.highest_ranked_entry is Some && held(
                stats.highest_ranked_entry->0.tier@,
            );
            &&& queue_id == Some(420i64) && solo is Some ==> tier == solo
            &&& queue_id == Some(440i64) && flex is Some ==> tier == flex
            &&& queue_id != Some(420i64) && queue_id != Some(440i64) && high ==> tier == Some(
                stats.highest_ranked_entry->0.tier@,
            )
            &&& queue_id == Some(420i64) && solo is None && high ==> tier == Some(
                stats.highest_ranked_entry->0.tier@,
            )
            &&& queue_id == Some(440i64) && flex is None && high ==> tier == Some(
                stats.highest_ranked_entry->0.tier@,
            )
            &&& queue_id != Some(440i64) && !high && solo is Some ==> tier == solo
            &&& !high && solo is None ==> tier == flex
            &&& queue_id == Some(440i64) && !high && flex is None ==> tier == solo
        }),
{
}

/// A champion is owned where an entry of the collection that is active or owned outright
/// names it, by `id` and else by `champion_id`; and only there.
pub proof fn law_owned(owned: Seq<OwnedChampion>, id: i64)
    ensures
        owned_champions(owned).contains(id) <==> id > 0 && exists|i: int|
            0 <= i < owned.len() && ((#[trigger] owned[i]).active || owned[i].ownership.owned) && (
            owned[i].id == id || (owned[i].id <= 0 && owned[i].champion_id == id)),
{
    if owned_champions(owned).contains(id) {
        let i = choose|i: int|
            0 <= i < owned.len() && owned_champion(#[trigger] owned[i]) == Some(id);
        assert(owned[i].active || owned[i].ownership.owned);
    }
    if id > 0 && exists|i: int|
        0 <= i < owned.len() && ((#[trigger] owned[i]).active || owned[i].ownership.owned) && (
        owned[i].id == id || (owned[i].id <= 0 && owned[i].champion_id == id)) {
        let i = choose|i: int|
            0 <= i < owned.len() && ((#[trigger] owned[i]).active || owned[i].ownership.owned) && (
            owned[i].id == id || (owned[i].id <= 0 && owned[i].champion_id == id));
        assert(owned_champion(owned[i]) == Some(id));
    }
}

/// An item stands for a champion by its own number or, as an entry, by its `championId`
/// and else by its `id`; the number must be above zero.
pub proof fn law_item(item: Tree, n: i64)
    ensures
        item.whole() == Some(n) && n > 0 ==> item_champion(item, true) == Some(n) && item_champion(
            item,
            false,
        ) == Some(n),
        item.whole() is None ==> item_champion(item, false) is None,
        item.whole() is None && item.field("championId"@) is Some ==> item_champion(item, true)
            == (match item.field("championId"@)->0.whole() {
            Some(m) => if m > 0 {
                Some(m)
            } else {
                None
            },
            None => None,
        }),
        item.whole() is None && item.field("championId"@) is None && item.field("id"@) is Some && (
        item.field("id"@)->0).whole() == Some(n) && n > 0 ==> item_champion(item, true) == Some(n),
        item_champion(item, true) matches Some(m) ==> m > 0,
        item_champion(item, false) matches Some(m) ==> m > 0,
{
}

/// An answer lists the champions under `championIds` where that is a list, and else those
/// that its own items stand for.
pub proof fn law_listed_champions(answer: Tree, items: Seq<Tree>, id: i64)
    ensures
        answer.field("championIds"@) == Some(Tree::Array(items)) ==> (listed_champions(
            answer,
        ).contains(id) <==> exists|i: int|
            0 <= i < items.len() && item_champion(#[trigger] items[i], false) == Some(id)),
        answer == Tree::Array(items) ==> (listed_champions(answer).contains(id) <==> exists|i: int|
            0 <= i < items.len() && item_champion(#[trigger] items[i], true) == Some(id)),
{
}

/// One more entry sets the level and the points of its champion, and of no other.
pub proof fn law_mastery_entry(entries: Seq<ChampionMastery>, entry: ChampionMastery, id: i64)
    ensures
        mastery_of(Seq::empty()) == Map::<i64, (i64, i64)>::empty(),
        ({
            let before = mastery_of(entries);
            let after = mastery_of(entries.push(entry));
            if entry.champion_id == id {
                after.contains_key(id) && after[id] == (entry.champion_level, entry.champion_points)
            } else {
                &&& after.contains_key(id) <==> before.contains_key(id)
                &&& before.contains_key(id) ==> after[id] == before[id]
            }
        }),
{
    assert(entries.push(entry).drop_last() =~= entries);
}

/// A message of three parts or more is an event, its address and data under `uri` and
/// `data` of the third; a shorter one, or one that is no list, is none.
pub proof fn law_event(message: Tree, parts: Seq<Tree>, uri: Seq<char>, data: Tree)
    ensures
        message == Tree::Array(parts) && parts.len() < 3 ==> event_of(message) is None,
        message !is Array ==> event_of(message) is None,
        message == Tree::Array(parts) && parts.len() >= 3 && parts[2].field("uri"@) == Some(
            Tree::Text(uri),
        ) && parts[2].field("data"@) == Some(data) ==> event_of(message) == Some((uri, data)),
        message == Tree::Array(parts) && parts.len() >= 3 && parts[2].field("data"@) is None
            ==> event_of(message) is Some && (event_of(message)->0).1 is Null,
        message == Tree::Array(parts) && parts.len() >= 3 && parts[2].field("uri"@) is None
            ==> event_of(message) is Some && (event_of(message)->0).0.len() == 0,
{
}

/// An event whose address speaks of the lobby is one of the lobby, and says that it is gone
/// exactly where there is no data; one that speaks of the game gives its phase; any other
/// tells nothing.
pub proof fn law_event_kinds(event: WsEvent, uri: Seq<char>, data: Tree, phase: Seq<char>)
    requires
        is_event(event, uri, data),
    ensures
        occurs(uri, "champ-select"@) ==> event == (WsEvent::Lobby { gone: data == Tree::Null }),
        !occurs(uri, "champ-select"@) && occurs(uri, "gameflow"@) && data == Tree::Text(phase)
            ==> event is Phase && event->Phase_0@ == phase,
        !occurs(uri, "champ-select"@) && occurs(uri, "gameflow"@) && data !is Text && data.field(
            "phase"@,
        ) == Some(Tree::Text(phase)) ==> event is Phase && event->Phase_0@ == phase,
        !occurs(uri, "champ-select"@) && !occurs(uri, "gameflow"@) ==> event is Other,
{
}

/// The name that is shown is the display name, and the game name only without one; the
/// game name is told with its tag where it has one.
pub proof fn law_names(s: CurrentSummoner)
    ensures
        s.display_name@.len() > 0 ==> shown_name(s) == s.display_name@,
        s.display_name@.len() == 0 ==> shown_name(s) == s.game_name@,
        s.tag_line@.len() > 0 ==> tagged_name(s) == s.game_name@ + "#"@ + s.tag_line@,
        s.tag_line@.len() == 0 ==> tagged_name(s) == s.game_name@,
{
}

/// A subscription is a list of the number five and the topic.
pub proof fn law_subscription(topic: Seq<char>)
    ensures
        subscription(topic) == "[5,\""@ + topic + "\"]"@,
{
}

} // verus!
