//! What the client reports.
use rift_counterpick::json::parse_json;
use rift_counterpick::lcu::client::{
    basic_auth, classify, current_queue_id, game_name, lcu_url, listed_ids, mastery_map,
    mastery_path, owned_champion_ids, parse_ws_event, plain_phase, positive_ids, subscriptions,
    summoner_name, tier_for_queue, ws_url, WsEvent, RANKED_FLEX_QUEUE, RANKED_SOLO_QUEUE,
};
use rift_counterpick::lcu::draft::draft_from_session;
use rift_counterpick::lcu::lockfile::{
    discover_lockfile, info_from_parts, install_directory, lockfile_places, needs_reconnect,
    parse_command_line, parse_lockfile_contents, Link, LinkStep, LockfileInfo,
};
use rift_counterpick::lcu::types::{
    ChampSelectAction, ChampSelectBans, ChampSelectPlayer, ChampSelectSession, ChampSelectTimer,
    ChampionMastery, ChampionOwnership, CurrentSummoner, GameflowSession, OwnedChampion,
    RankedEntry, RankedStats,
};
use std::collections::HashSet;

#[test]
fn parses_lockfile_line() {
    let info =
        parse_lockfile_contents("LeagueClient:12345:54321:s3cret-token:https").expect("lockfile");
    assert_eq!(info.port, 54321);
    assert_eq!(info.password, "s3cret-token");
}

#[test]
fn parses_ux_command_line() {
    let cmd = r#""C:\Riot Games\League of Legends\LeagueClientUx.exe" --app-port=1337 --remoting-auth-token=abc_DEF-123 --install-directory=C:\Riot Games\League of Legends"#;
    let info = parse_command_line(cmd).expect("cmdline");
    assert_eq!(info.port, 1337);
    assert_eq!(info.password, "abc_DEF-123");
}

#[test]
fn lockfiles_that_cannot_be_read() {
    assert!(parse_lockfile_contents("").is_none());
    assert!(parse_lockfile_contents("LeagueClient:12345:54321:token").is_none());
    assert!(parse_lockfile_contents("LeagueClient:1:65536:token:https").is_none());
    assert!(parse_lockfile_contents("LeagueClient:1:port:token:https").is_none());
    let windows = parse_lockfile_contents("  a:b:80:pw:https \r\nsecond").expect("first line");
    assert_eq!((windows.port, windows.password.as_str()), (80, "pw"));
}

#[test]
fn command_lines_without_port_or_token() {
    assert!(parse_command_line("--app-port=1337").is_none());
    assert!(parse_command_line("--remoting-auth-token=abc").is_none());
    assert!(parse_command_line("--app-port=99999 --remoting-auth-token=abc").is_none());
    assert!(info_from_parts(&Some("80".to_string()), &Some(String::new())).is_none());
    assert_eq!(
        info_from_parts(&Some("80".to_string()), &Some("pw".to_string())),
        Some(LockfileInfo { port: 80, password: "pw".to_string() })
    );
}

#[test]
fn install_directory_loses_its_quotes() {
    assert_eq!(
        install_directory(r#"x --install-directory="C:\Riot Games\LoL" y"#).as_deref(),
        Some(r"C:\Riot Games\LoL")
    );
    assert_eq!(install_directory("--install-directory=/opt/lol z").as_deref(), Some("/opt/lol"));
    assert_eq!(install_directory("nothing"), None);
}

#[test]
fn places_to_look_for_a_lockfile() {
    let all = lockfile_places(&Some("X".to_string()), &Some("H".to_string()));
    assert_eq!(all.len(), 5);
    assert_eq!(all[0], ["X", "lockfile"]);
    assert_eq!(all[1], [r"C:\Riot Games\League of Legends\lockfile"]);
    assert_eq!(all[4], ["H", "Riot Games", "League of Legends", "lockfile"]);
    assert_eq!(lockfile_places(&None, &None).len(), 3);
}

#[test]
fn command_line_wins_over_lockfiles() {
    let cmd = Some("--app-port=1 --remoting-auth-token=a".to_string());
    let files = vec![None, Some("bad".to_string()), Some("a:b:2:c:d".to_string())];
    assert_eq!(discover_lockfile(&cmd, &files).map(|i| i.port), Some(1));
    assert_eq!(discover_lockfile(&None, &files).map(|i| i.port), Some(2));
    assert_eq!(
        discover_lockfile(&Some("no port".to_string()), &files).map(|i| i.port),
        Some(2)
    );
    assert!(discover_lockfile(&None, &Vec::new()).is_none());
}

#[test]
fn another_client_is_connected_to_anew() {
    let info = LockfileInfo { port: 1, password: "a".to_string() };
    assert!(needs_reconnect(&None, &info));
    assert!(!needs_reconnect(&Some(info.clone()), &info));
    assert!(needs_reconnect(&Some(LockfileInfo { port: 2, password: "a".to_string() }), &info));
    assert!(needs_reconnect(&Some(LockfileInfo { port: 1, password: "b".to_string() }), &info));
}

#[test]
fn each_client_is_connected_to_once() {
    let first = Some(LockfileInfo { port: 1, password: "a".to_string() });
    let second = Some(LockfileInfo { port: 2, password: "a".to_string() });
    let mut link = Link::new();
    assert_eq!(link.step(&None), LinkStep::Forget);
    assert_eq!(link.step(&first), LinkStep::Connect);
    link.connected(true);
    assert_eq!(link.step(&first), LinkStep::Ask);
    assert_eq!(link.step(&second), LinkStep::Connect);
    link.connected(false);
    assert_eq!(link.step(&second), LinkStep::Wait);
    assert_eq!(link.step(&None), LinkStep::Forget);
    assert_eq!(link.step(&second), LinkStep::Connect);
}

#[test]
fn draft_reads_completed_pick_actions_when_team_ids_are_empty() {
    let session = ChampSelectSession {
        local_player_cell_id: 1,
        my_team: vec![
            ChampSelectPlayer {
                cell_id: 1,
                assigned_position: "bottom".into(),
                ..Default::default()
            },
            ChampSelectPlayer {
                cell_id: 2,
                assigned_position: "top".into(),
                champion_pick_intent: 27,
                ..Default::default()
            },
        ],
        their_team: vec![ChampSelectPlayer {
            cell_id: 5,
            assigned_position: String::new(),
            ..Default::default()
        }],
        actions: vec![vec![ChampSelectAction {
            actor_cell_id: 5,
            champion_id: 51,
            completed: true,
            action_type: "pick".into(),
            pick_turn: 1,
            ..Default::default()
        }]],
        ..Default::default()
    };
    let draft = draft_from_session(&session, "middle");
    assert_eq!(draft.role, "bottom");
    assert_eq!(draft.enemies[0].champion_id, 51);
    assert_eq!(draft.enemies[0].display_champion_id, 51);
    assert_eq!(draft.allies[1].display_champion_id, 27);
    assert_eq!(draft.enemies_locked, 1);
}

fn action(cell: i64, champion_id: i64, kind: &str, completed: bool, turn: i64) -> ChampSelectAction {
    ChampSelectAction {
        actor_cell_id: cell,
        champion_id,
        completed,
        is_in_progress: !completed,
        pick_turn: turn,
        action_type: kind.to_string(),
        ..Default::default()
    }
}

#[test]
fn draft_collects_bans_turns_and_the_clock() {
    let session = ChampSelectSession {
        local_player_cell_id: 1,
        my_team: vec![ChampSelectPlayer { cell_id: 1, ..Default::default() }],
        their_team: vec![
            ChampSelectPlayer {
                cell_id: 6,
                assigned_position: "UTILITY".into(),
                champion_pick_intent: 99,
                ..Default::default()
            },
            ChampSelectPlayer {
                cell_id: 7,
                assigned_position: "utility".into(),
                champion_id: 40,
                ..Default::default()
            },
        ],
        bans: ChampSelectBans { my_team_bans: vec![9, 0, 3], their_team_bans: vec![3, -1] },
        actions: vec![
            vec![action(6, 7, "ban", true, 9), action(7, 8, "ban", false, 9)],
            vec![action(7, 40, "pick", true, 5), action(1, 22, "pick", false, 3)],
        ],
        timer: ChampSelectTimer {
            adjusted_time_left_in_phase_in_sec: 0,
            phase: "BAN_PICK".into(),
            time_left_in_phase_in_sec: 17,
        },
    };
    let draft = draft_from_session(&session, " Sup ");
    assert_eq!(draft.role, "support");
    assert_eq!(draft.bans, [3, 7, 9]);
    assert!(draft.is_our_turn);
    assert_eq!(draft.pick_turn, 3);
    assert_eq!(draft.seconds_left, 17);
    assert_eq!(draft.phase, "BAN_PICK");
    assert_eq!(draft.lane_enemy_id, Some(40));
    // What an enemy hovers over stays hidden; what the player does is shown.
    assert_eq!(draft.enemies[0].display_champion_id, 0);
    assert_eq!(draft.enemies[0].intent_id, 99);
    assert_eq!(draft.allies[0].display_champion_id, 22);
    assert!(draft.allies[0].is_local);
    assert_eq!((draft.allies_locked, draft.enemies_locked), (0, 1));
}

#[test]
fn draft_without_any_role_is_for_the_middle() {
    let draft = draft_from_session(&ChampSelectSession::default(), "");
    assert_eq!(draft.role, "middle");
    assert_eq!(draft.lane_enemy_id, None);
}

fn split_ranks() -> RankedStats {
    RankedStats {
        queue_map: parse_json(
            r#"{"RANKED_SOLO_5x5": {"tier": "GOLD"}, "RANKED_FLEX_SR": {"tier": "DIAMOND"}}"#,
        )
        .expect("json"),
        highest_ranked_entry: Some(RankedEntry {
            tier: "DIAMOND".into(),
            division: "II".into(),
            queue_type: "RANKED_FLEX_SR".into(),
        }),
    }
}

#[test]
fn queue_decides_which_rank_the_stats_come_from() {
    let stats = split_ranks();
    assert_eq!(
        tier_for_queue(&stats, Some(RANKED_SOLO_QUEUE)).as_deref(),
        Some("GOLD"),
        "a solo game should not be scored on a flex Diamond rank"
    );
    assert_eq!(
        tier_for_queue(&stats, Some(RANKED_FLEX_QUEUE)).as_deref(),
        Some("DIAMOND")
    );
}

#[test]
fn unranked_queues_fall_back_to_the_best_rank_held() {
    let stats = split_ranks();
    assert_eq!(
        tier_for_queue(&stats, None).as_deref(),
        Some("DIAMOND"),
        "normals have no rank of their own"
    );
}

#[test]
fn unplayed_queue_falls_through_instead_of_reporting_nothing() {
    let stats = RankedStats {
        queue_map: parse_json(
            r#"{"RANKED_SOLO_5x5": {"tier": "NONE"}, "RANKED_FLEX_SR": {"tier": "PLATINUM"}}"#,
        )
        .expect("json"),
        highest_ranked_entry: None,
    };
    assert_eq!(
        tier_for_queue(&stats, Some(RANKED_SOLO_QUEUE)).as_deref(),
        Some("PLATINUM"),
        "placements in solo should still borrow the flex rank"
    );
}

#[test]
fn no_rank_anywhere_is_no_tier() {
    let stats = RankedStats {
        queue_map: parse_json(r#"{"RANKED_SOLO_5x5": {"tier": "none"}}"#).expect("json"),
        highest_ranked_entry: Some(RankedEntry { tier: String::new(), ..Default::default() }),
    };
    assert_eq!(tier_for_queue(&stats, Some(RANKED_SOLO_QUEUE)), None);
}

#[test]
fn queue_zero_is_no_queue() {
    let mut session = GameflowSession::default();
    assert_eq!(current_queue_id(&session), None);
    session.game_data.queue.id = 420;
    assert_eq!(current_queue_id(&session), Some(RANKED_SOLO_QUEUE));
}

#[test]
fn pickable_champions_come_in_several_shapes() {
    let set = |ids: &[i64]| ids.iter().copied().collect::<HashSet<i64>>();
    assert_eq!(positive_ids(&vec![3, -1, 0, 3, 8]), set(&[3, 8]));
    let named = parse_json(r#"{"championIds": [1, 0, "x", 5]}"#).expect("json");
    assert_eq!(listed_ids(&named), set(&[1, 5]));
    let entries =
        parse_json(r#"[4, {"championId": 6}, {"id": 7}, {"championId": "z", "id": 9}, -2]"#)
            .expect("json");
    assert_eq!(listed_ids(&entries), set(&[4, 6, 7]));
    let neither = parse_json(r#"{"championIds": 3}"#).expect("json");
    assert_eq!(listed_ids(&neither), set(&[]));
}

#[test]
fn owned_champions_are_active_or_owned() {
    let owned = vec![
        OwnedChampion { id: 1, active: true, ..Default::default() },
        OwnedChampion {
            id: 0,
            champion_id: 2,
            active: false,
            ownership: ChampionOwnership { owned: true },
        },
        OwnedChampion { id: 3, ..Default::default() },
        OwnedChampion { active: true, ..Default::default() },
    ];
    let ids = owned_champion_ids(&owned);
    assert_eq!(ids, [1, 2].into_iter().collect::<HashSet<i64>>());
}

#[test]
fn last_mastery_entry_counts() {
    let entry = |points: i64| ChampionMastery {
        champion_id: 5,
        champion_level: 7,
        champion_points: points,
    };
    let map = mastery_map(&vec![entry(10), entry(20)]);
    assert_eq!(map.get(&5), Some(&(7, 20)));
    assert_eq!(map.len(), 1);
}

#[test]
fn names_of_the_player() {
    let mut s = CurrentSummoner {
        display_name: String::new(),
        game_name: "Ahri".into(),
        tag_line: "EUW".into(),
        summoner_id: -3,
    };
    assert_eq!(summoner_name(&s), "Ahri");
    assert_eq!(game_name(&s), "Ahri#EUW");
    s.display_name = "Fox".into();
    s.tag_line = String::new();
    assert_eq!(summoner_name(&s), "Fox");
    assert_eq!(game_name(&s), "Ahri");
    assert_eq!(mastery_path(s.summoner_id), "/lol-collections/v1/inventories/-3/champion-mastery");
}

#[test]
fn addresses_and_authorization() {
    let info = LockfileInfo { port: 54321, password: "s3cret-token".into() };
    assert_eq!(lcu_url(info.port, "/x"), "https://127.0.0.1:54321/x");
    assert_eq!(ws_url(&info), "wss://127.0.0.1:54321/");
    assert_eq!(basic_auth(&info), "Basic cmlvdDpzM2NyZXQtdG9rZW4=");
    assert_eq!(subscriptions()[0], r#"[5,"OnJsonApiEvent_lol-champ-select_v1_session"]"#);
    assert_eq!(subscriptions().len(), 3);
    assert_eq!(plain_phase("\"Lobby\""), "Lobby");
}

#[test]
fn events_tell_lobby_and_phase() {
    let (uri, data) =
        parse_ws_event(r#"[8,"t",{"uri":"/lol-champ-select/v1/session","data":null}]"#)
            .expect("event");
    assert_eq!(uri, "/lol-champ-select/v1/session");
    assert!(data.is_null());
    assert!(matches!(classify(&uri, &data), WsEvent::Lobby { gone: true }));

    let (uri, data) =
        parse_ws_event(r#"[8,"t",{"uri":"/lol-gameflow/v1/session","data":{"phase":"Lobby"}}]"#)
            .expect("event");
    assert!(matches!(classify(&uri, &data), WsEvent::Phase(p) if p == "Lobby"));

    let (uri, data) =
        parse_ws_event(r#"[8,"t",{"uri":"/lol-gameflow/v1/gameflow-phase","data":"InProgress"}]"#)
            .expect("event");
    assert!(matches!(classify(&uri, &data), WsEvent::Phase(p) if p == "InProgress"));

    let (uri, data) = parse_ws_event(r#"[8,"t",{}]"#).expect("event");
    assert_eq!(uri, "");
    assert!(matches!(classify(&uri, &data), WsEvent::Other));
    assert!(parse_ws_event(r#"[8,"t"]"#).is_none());
    assert!(parse_ws_event("not json").is_none());
    assert!(parse_ws_event("{}").is_none());
}
