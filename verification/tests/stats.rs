//! What the source answers, and what the cache makes of it.
use rift_counterpick::catalog::{build_catalog, Catalog, DdragonChampion};
use rift_counterpick::clock::Moment;
use rift_counterpick::json::{parse_json, Json};
use rift_counterpick::number::Real;
use rift_counterpick::stats::course::{
    finished_progress, job_progress, loaded_progress, opening_progress, role_named, role_title,
    Ingest, Job, Reply, Step,
};
use rift_counterpick::stats::ingest::{
    cache_is_fresh, counter_rows, finish_ingest, is_recent, read_meta, store_counter_json,
    store_role_table, store_rows, store_tables, store_team,
};
use rift_counterpick::stats::qwik::{
    extract_qwik_json, parse_enemy_matchups, parse_row, EnemyTables,
};
use rift_counterpick::stats::source::{
    build_url, counter_url, list_url, lolalytics_tier, team_url,
};
use rift_counterpick::stats::rows::{read_role_meta, schema_is_current, Change};
use rift_counterpick::stats::store::{MatchupStat, RoleMeta, StatsDb, StoreError};

fn bits(x: f64) -> Real {
    Real { bits: x.to_bits() }
}

fn value(x: Real) -> f64 {
    f64::from_bits(x.bits)
}

fn json(text: &str) -> Json {
    parse_json(text).expect("json")
}

#[test]
fn store_counter_json_reads_vs_wr_rows() {
    let mut db = StatsDb::open_memory();
    let payload = json(
        r#"{"counters": [
            {"cid": 222, "vsWr": 55.2, "n": 8000, "d1": 5.2},
            {"cid": 51, "vsWr": 47.0, "n": 10, "d1": -3.0}
        ]}"#,
    );
    let stored =
        store_counter_json(&mut db, 29, "bottom", "bottom", "emerald", "15.1", &payload).unwrap();
    assert_eq!(stored, 1, "rows with n < 40 should be skipped");
    let mu = db
        .matchup(29, 222, "bottom", "bottom", "emerald", "15.1")
        .expect("jinx matchup");
    assert!((value(mu.winrate) - 55.2).abs() < 0.01);
    assert_eq!(mu.games, 8000);
}

#[test]
fn counters_may_be_spelled_out_and_grouped() {
    let mut db = StatsDb::open_memory();
    let payload = json(
        r#"{"counters": {"a": [{"cid": "7", "vsWr": "51.5", "n": "40.9"}], "b": 3,
            "c": [{"cid": 0, "n": 99}, {"cid": 8, "n": 41}]}}"#,
    );
    assert_eq!(counter_rows(&payload).len(), 3);
    assert_eq!(store_counter_json(&mut db, 1, "top", "jungle", "r", "p", &payload).unwrap(), 2);
    let spelled = db.matchup(1, 7, "top", "jungle", "r", "p").expect("spelled out");
    assert_eq!(value(spelled.winrate), 51.5);
    assert_eq!(spelled.games, 40);
    assert_eq!(spelled.delta, None);
    assert_eq!(value(db.matchup(1, 8, "top", "jungle", "r", "p").expect("even").winrate), 50.0);
    assert!(db.matchup(1, 8, "top", "middle", "r", "p").is_none(), "a team row is for one role");
    assert_eq!(counter_rows(&json("{}")).len(), 0);
    assert_eq!(counter_rows(&json(r#"{"counters": 1}"#)).len(), 0);
}

#[test]
fn lolalytics_tier_maps_settings_brackets() {
    assert_eq!(lolalytics_tier("emerald"), "emerald_plus");
    assert_eq!(lolalytics_tier("diamond"), "diamond_plus");
    assert_eq!(lolalytics_tier("platinum_plus"), "platinum_plus");
}

#[test]
fn addresses_are_encoded() {
    assert_eq!(
        list_url(Some("15.1"), "top", "gold_plus"),
        "https://a1.lolalytics.com/mega/?ep=list&v=1&patch=15.1&lane=top&tier=gold_plus&queue=ranked&region=all"
    );
    assert_eq!(
        list_url(None, "a b", "é"),
        "https://a1.lolalytics.com/mega/?ep=list&v=1&lane=a%20b&tier=%C3%A9&queue=ranked&region=all"
    );
    assert_eq!(
        team_url(None, "x&y", "top", "t"),
        "https://a1.lolalytics.com/mega/?ep=build-team&v=1&c=x%26y&lane=top&tier=t&queue=ranked&region=all"
    );
    assert_eq!(
        counter_url(Some("p"), "s", "r", "v", "t"),
        "https://a1.lolalytics.com/mega/?ep=counter&v=1&c=s&lane=r&vslane=v&tier=t&queue=ranked&region=all&patch=p"
    );
    assert_eq!(build_url("s/", "r", "t"), "https://lolalytics.com/lol/s%2F/build/?lane=r&tier=t");
}

#[test]
fn parses_minimal_qwik_enemy_graph() {
    let html = r#"<script type="qwik/json">{"refs":{},"objs":[{"enemy":"2"},0,{"top":[],"jungle":[],"middle":"3","bottom":[],"support":[]},[[7,54.2,4.2,1.0,5.0,2000]]],"subs":{}}</script>"#;
    let tables = parse_enemy_matchups(html).expect("tables");
    assert_eq!(tables.middle.len(), 1);
    assert_eq!(tables.middle[0].champion_id, 7);
    assert!((value(tables.middle[0].winrate) - 54.2).abs() < 0.01);
}

#[test]
fn state_of_a_page() {
    let tag = "<script type=\"qwik/json\">";
    assert_eq!(
        extract_qwik_json(&format!("x{tag}\u{feff} {{}} </script>y</script>")).as_deref(),
        Some("{}")
    );
    assert_eq!(extract_qwik_json(&format!("{tag}{{}}")), None);
    assert_eq!(extract_qwik_json("<script>{}</script>"), None);
    assert!(parse_enemy_matchups(&format!("{tag}not json</script>")).is_none());
    assert!(parse_enemy_matchups(&format!("{tag}{{\"objs\":[{{\"enemy\":\"zz\"}}]}}</script>")).is_none());
    assert!(parse_enemy_matchups(&format!("{tag}{{\"objs\":[{{\"enemy\":\"0\"}}]}}</script>")).is_none());
}

#[test]
fn rows_point_into_the_list_in_base_36() {
    let mut objs: Vec<String> = vec!["{\"enemy\":\"1\"}".into(), "{\"top\":[\"A\",\"!\"]}".into()];
    while objs.len() < 10 {
        objs.push("0".into());
    }
    objs.push("[3, 20, null, 0, 0, 12.9]".into());
    let html = format!("<script type=\"qwik/json\">{{\"objs\":[{}]}}</script>", objs.join(","));
    let tables = parse_enemy_matchups(&html).expect("tables");
    assert_eq!(tables.top.len(), 1);
    assert_eq!(tables.top[0].games, 12);
    assert_eq!(tables.top[0].delta, None);
    assert_eq!(tables.for_role("top").len(), 1);
    assert_eq!(tables.for_role("elsewhere").len(), 0);
    assert_eq!(tables.all_rows()[0].0, "top");
    assert!(!tables.is_empty());
    assert!(EnemyTables::default().is_empty());
}

#[test]
fn rows_out_of_range_are_dropped() {
    assert!(parse_row(&json("[1, 80, 0, 0, 0, 5]")).is_some());
    assert!(parse_row(&json("[1, 80.1, 0, 0, 0, 5]")).is_none());
    assert!(parse_row(&json("[1, 19.9, 0, 0, 0, 5]")).is_none());
    assert!(parse_row(&json("[0, 50, 0, 0, 0, 5]")).is_none());
    assert!(parse_row(&json("[1, 50, 0, 0, 5]")).is_none());
    assert!(parse_row(&json("[1, \"50\", 0, 0, 0, 5]")).is_none());
    assert_eq!(parse_row(&json("[1.9, 50, 0, 0, 0, 5]")).map(|r| r.champion_id), Some(1));
}

#[test]
fn role_tables_are_stored_and_ranked() {
    let mut db = StatsDb::open_memory();
    let list = json(
        r#"{"cid": {
            "1": {"wr": 51, "pr": 2, "br": 1, "games": 500, "pctLane": 90, "defaultLane": "Mid"},
            "2": {"wr": "52.5", "games": "900", "pct_lane": "20"},
            "3": {"games": 100, "pctLane": 99},
            "4": {"games": 79, "pctLane": 99},
            "x": {"games": 999, "pctLane": 99},
            "-5": {"games": 999, "pctLane": 99}
        }}"#,
    );
    let ids = store_role_table(&mut db, &list, "middle", "r", "p").unwrap();
    assert_eq!(ids, [2, 1], "most games first, the pool only");
    let one = db.role_meta(1, "middle", "r", "p").expect("stored");
    assert_eq!(one.default_lane, "middle");
    assert_eq!(value(one.banrate), 1.0);
    let two = db.role_meta(2, "middle", "r", "p").expect("stored");
    assert_eq!((value(two.winrate), two.games, value(two.pct_lane)), (52.5, 900, 20.0));
    assert_eq!(two.default_lane, "middle");
    let three = db.role_meta(3, "middle", "r", "p").expect("thin but stored");
    assert_eq!(value(three.winrate), 50.0);
    assert!(db.role_meta(4, "middle", "r", "p").is_none());
    assert_eq!(store_role_table(&mut db, &json("{}"), "top", "r", "p").unwrap().len(), 0);
    assert_eq!(read_meta(&json("{\"defaultLane\": 5}"), "top").default_lane, "5");
}

#[test]
fn at_most_forty_champions_of_a_role() {
    let members: Vec<String> = (1..=50)
        .map(|i| format!("\"{i}\": {{\"games\": {}, \"pctLane\": 50}}", 1000 + i % 7))
        .collect();
    let list = json(&format!("{{\"cid\": {{{}}}}}", members.join(",")));
    let ids = store_role_table(&mut StatsDb::open_memory(), &list, "top", "r", "p").unwrap();
    assert_eq!(ids.len(), 40);
    assert!(ids[..7].iter().all(|id| id % 7 == 6));
}

#[test]
fn synergies_come_by_lane() {
    let mut db = StatsDb::open_memory();
    let payload = json(
        r#"{"team": {"top": [[9, 53.5, 1.5, 0, 0, 700], [0, 50, 0, 0, 0, 1], [8]], "x": 1,
            "jungle": [[7, null, null, 0, 0, 2.5]]}}"#,
    );
    store_team(&mut db, 5, "middle", "r", "p", &payload).unwrap();
    let nine = db.synergy(5, 9, "r", "p").expect("synergy");
    assert_eq!((value(nine.winrate), nine.games, nine.delta.map(value)), (53.5, 700, Some(1.5)));
    let seven = db.synergy(5, 7, "r", "p").expect("synergy");
    assert_eq!((value(seven.winrate), seven.games, seven.delta), (50.0, 0, None));
    assert!(db.synergy(5, 8, "r", "p").is_none());

    store_rows(&mut db, 5, "middle", "lane", "r", "p", &json("[[3, 60, 0, 0, 0, 9]]"), false).unwrap();
    assert_eq!(db.matchup(5, 3, "middle", "top", "r", "p").map(|m| m.games), Some(9));
}

#[test]
fn tables_of_a_page_are_stored_by_role() {
    let mut db = StatsDb::open_memory();
    let html = r#"<script type="qwik/json">{"objs":[{"enemy":"1"},{"top":[[7,54,4,1,5,2000]],"support":[[8,45,4,1,5,100]]}]}</script>"#;
    let tables = parse_enemy_matchups(html).expect("tables");
    store_tables(&mut db, 1, "top", "r", "p", &tables).unwrap();
    assert_eq!(db.matchup(1, 7, "top", "top", "r", "p").map(|m| m.games), Some(2000));
    assert_eq!(db.matchup(1, 8, "top", "support", "r", "p").map(|m| m.games), Some(100));
    // The lane row also answers for other roles; the team row does not.
    assert!(db.matchup(1, 7, "top", "jungle", "r", "p").is_some());
    assert!(db.matchup(1, 8, "top", "jungle", "r", "p").is_none());
    assert_eq!(db.flexibility(1, "top", "r", "p"), [bits(54.0)]);
}

fn meta(games: i64, pct_lane: f64, default_lane: &str) -> RoleMeta {
    RoleMeta {
        winrate: bits(51.0),
        pickrate: bits(4.0),
        banrate: bits(1.0),
        games,
        pct_lane: bits(pct_lane),
        default_lane: default_lane.to_string(),
    }
}

fn stat(winrate: f64, games: i64) -> MatchupStat {
    MatchupStat { winrate: bits(winrate), games, delta: None }
}

#[test]
fn what_is_written_is_read_back() {
    let mut db = StatsDb::open_memory();
    db.upsert_role_stat(1, "top", "r", "p", &meta(100, 50.0, "top")).unwrap();
    db.upsert_role_stat(1, "top", "r", "p", &meta(200, 50.0, "top")).unwrap();
    db.upsert_role_stat(1, "top", "r", "q", &meta(300, 50.0, "top")).unwrap();
    assert_eq!(db.role_meta(1, "top", "r", "p").map(|m| m.games), Some(200));
    assert_eq!(db.role_meta(1, "top", "r", "q").map(|m| m.games), Some(300));
    assert!(db.role_meta(1, "mid", "r", "p").is_none());
    assert!(db.role_meta(2, "top", "r", "p").is_none());

    db.upsert_synergy(1, 2, "r", "p", &stat(55.0, 10)).unwrap();
    db.upsert_synergy(1, 2, "r", "p", &stat(56.0, 11)).unwrap();
    assert_eq!(db.synergy(1, 2, "r", "p").map(|s| s.games), Some(11));
    assert!(db.synergy(2, 1, "r", "p").is_none());

    db.set_meta("k", "a");
    db.set_meta("k", "b");
    db.set_meta("l", "c");
    assert_eq!(db.get_meta("k").as_deref(), Some("b"));
    assert_eq!(db.get_meta("l").as_deref(), Some("c"));
    assert_eq!(db.get_meta("m"), None);
}

#[test]
fn the_closest_matchup_answers() {
    let mut db = StatsDb::open_memory();
    db.upsert_matchup(1, 9, "top", "other", "", "r", "p", &stat(41.0, 1)).unwrap();
    assert_eq!(db.matchup(1, 9, "top", "jungle", "r", "p").map(|m| m.games), Some(1));
    db.upsert_matchup(1, 9, "top", "lane", "top", "r", "p", &stat(42.0, 2)).unwrap();
    assert_eq!(db.matchup(1, 9, "top", "jungle", "r", "p").map(|m| m.games), Some(2));
    db.upsert_matchup(1, 9, "top", "team", "jungle", "r", "p", &stat(43.0, 3)).unwrap();
    assert_eq!(db.matchup(1, 9, "top", "jungle", "r", "p").map(|m| m.games), Some(3));
    assert_eq!(db.matchup(1, 9, "top", "top", "r", "p").map(|m| m.games), Some(2));
    assert!(db.matchup(1, 9, "middle", "top", "r", "p").is_none());
    assert!(db.matchup(1, 9, "top", "top", "r", "q").is_none());
}

#[test]
fn an_ingest_keeps_roles_and_drops_matchups() {
    let mut db = StatsDb::open_memory();
    db.upsert_role_stat(1, "top", "r", "p", &meta(500, 50.0, "top")).unwrap();
    db.upsert_matchup(1, 2, "top", "lane", "top", "r", "p", &stat(50.0, 1)).unwrap();
    db.upsert_matchup(1, 2, "top", "lane", "top", "r", "q", &stat(50.0, 2)).unwrap();
    db.upsert_synergy(1, 2, "r", "p", &stat(50.0, 3)).unwrap();
    db.begin_ingest("r", "p");
    assert!(db.role_meta(1, "top", "r", "p").is_some());
    assert_eq!(db.champions_in_role("top", "r", "p").len(), 1);
    assert!(db.matchup(1, 2, "top", "top", "r", "p").is_none());
    assert!(db.synergy(1, 2, "r", "p").is_none());
    assert!(db.matchup(1, 2, "top", "top", "r", "q").is_some());
    assert!(!db.has_matchup_data("r", "p") && db.has_matchup_data("r", "q"));
}

#[test]
fn a_copy_that_follows_the_changes_holds_the_same() {
    let mut db = StatsDb::open_memory();
    let mut copy = StatsDb::open_memory();
    db.upsert_role_stat(1, "top", "r", "p", &meta(500, 50.0, "top")).unwrap();
    db.upsert_matchup(1, 2, "top", "lane", "top", "r", "p", &stat(50.0, 1)).unwrap();
    copy.apply_all(&db.take_unsaved()).unwrap();
    db.begin_ingest("r", "p");
    db.upsert_matchup(1, 3, "top", "lane", "top", "r", "p", &stat(50.0, 7)).unwrap();
    db.set_meta("k", "v");
    let changes = db.take_unsaved();
    assert_eq!(changes.len(), 3);
    assert!(matches!(&changes[0], Change::Clear { rank, patch } if rank == "r" && patch == "p"));
    copy.apply_all(&changes).unwrap();
    assert_eq!(db.take_unsaved().len(), 0);
    assert!(copy.matchup(1, 2, "top", "top", "r", "p").is_none());
    assert_eq!(copy.matchup(1, 3, "top", "top", "r", "p").map(|m| m.games), Some(7));
    assert_eq!(copy.role_meta(1, "top", "r", "p").map(|m| m.games), Some(500));
    assert_eq!(copy.get_meta("k").as_deref(), Some("v"));
}

#[test]
fn role_pools_are_strict_before_they_are_lenient() {
    assert!(meta(150, 15.0, "").in_role_pool("top"));
    assert!(!meta(149, 99.0, "top").in_role_pool("top"));
    assert!(!meta(199, 14.9, "top").in_role_pool("top"));
    assert!(meta(200, 14.9, "top").in_role_pool("top"));
    assert!(!meta(900, 14.9, "jungle").in_role_pool("top"));
    let mut db = StatsDb::open_memory();
    db.upsert_role_stat(1, "top", "r", "p", &meta(80, 5.0, "")).unwrap();
    db.upsert_role_stat(2, "top", "r", "p", &meta(79, 99.0, "")).unwrap();
    let ids = |db: &StatsDb| -> Vec<i64> {
        db.champions_in_role("top", "r", "p").iter().map(|(id, _)| *id).collect()
    };
    assert_eq!(ids(&db), [1]);
    db.upsert_role_stat(3, "top", "r", "p", &meta(150, 15.0, "")).unwrap();
    assert_eq!(ids(&db), [3]);
}

#[test]
fn primary_role_is_the_busiest() {
    let mut db = StatsDb::open_memory();
    db.upsert_role_stat(1, "top", "r", "p", &meta(10, 5.0, "")).unwrap();
    db.upsert_role_stat(1, "jungle", "r", "p", &meta(20, 5.0, "")).unwrap();
    db.upsert_role_stat(1, "support", "r", "p", &meta(20, 5.0, "")).unwrap();
    db.upsert_role_stat(1, "bottom", "r", "q", &meta(99, 5.0, "")).unwrap();
    assert_eq!(db.primary_role(1, "r", "p").as_deref(), Some("jungle"));
    db.upsert_role_stat(1, "middle", "r", "p", &meta(30, 5.0, "ADC")).unwrap();
    assert_eq!(db.primary_role(1, "r", "p").as_deref(), Some("bottom"));
    assert_eq!(db.primary_role(2, "r", "p"), None);
}

#[test]
fn statistics_stand_in_for_missing_ones() {
    let mut db = StatsDb::open_memory();
    let key = |db: &StatsDb, rank: &str, patch: &str| db.stats_key(rank, patch);
    assert_eq!(key(&db, "a", "b"), ("a".to_string(), "b".to_string()));
    assert!(!db.has_any_role_data());
    db.upsert_role_stat(1, "top", "r", "p", &meta(10, 5.0, "")).unwrap();
    db.upsert_role_stat(1, "top", "s", "q", &meta(10, 5.0, "")).unwrap();
    db.upsert_role_stat(2, "top", "s", "q", &meta(10, 5.0, "")).unwrap();
    assert!(db.has_any_role_data());
    assert_eq!(key(&db, "r", "p"), ("r".to_string(), "p".to_string()));
    assert_eq!(key(&db, "a", "b"), ("s".to_string(), "q".to_string()));
}

fn filled() -> StatsDb {
    let mut db = StatsDb::open_memory();
    for id in 1..=21 {
        db.upsert_role_stat(id, "top", "r", "p", &meta(500, 50.0, "top")).unwrap();
    }
    db.upsert_matchup(1, 2, "top", "lane", "top", "r", "p", &stat(50.0, 1)).unwrap();
    db
}

fn at(secs: i64) -> Moment {
    Moment { secs, nanos: 0 }
}

#[test]
fn the_cache_is_fresh_for_twenty_hours() {
    let mut db = filled();
    assert!(db.has_patch_data("r", "p"));
    assert!(!cache_is_fresh(&db, "r", "p", at(1_700_000_000)));
    finish_ingest(&mut db, "r", "p", 1_700_000_000);
    assert_eq!(db.get_meta("ingested_at").as_deref(), Some("2023-11-14T22:13:20Z"));
    assert!(cache_is_fresh(&db, "r", "p", at(1_700_000_000)));
    assert!(cache_is_fresh(&db, "r", "p", at(1_700_000_000 + 71_999)));
    assert!(!cache_is_fresh(&db, "r", "p", at(1_700_000_000 + 72_000)));
    assert!(!cache_is_fresh(&db, "r", "q", at(1_700_000_000)));
    assert!(!cache_is_fresh(&db, "s", "p", at(1_700_000_000)));
    db.set_meta("ingested_at", "some time ago");
    assert!(cache_is_fresh(&db, "r", "p", at(9_999_999_999)), "an unknown age counts as good");
    db.set_meta("ingested_at", "2023-11-14T23:13:20+01:00");
    assert!(cache_is_fresh(&db, "r", "p", at(1_700_071_999)));
    assert!(!cache_is_fresh(&db, "r", "p", at(1_700_072_000)));
    db.begin_ingest("r", "p");
    assert!(!cache_is_fresh(&db, "r", "p", at(1_700_000_000)), "without matchups nothing is fresh");
}

#[test]
fn twenty_rows_are_too_few() {
    let mut db = StatsDb::open_memory();
    for id in 1..=20 {
        db.upsert_role_stat(id, "top", "r", "p", &meta(500, 50.0, "top")).unwrap();
    }
    assert!(!db.has_patch_data("r", "p"));
}

#[test]
fn ages_count_nanoseconds_and_leap_seconds() {
    let now = Moment { secs: 72_000, nanos: 0 };
    assert!(!is_recent(now, Some(Moment { secs: 0, nanos: 0 })));
    assert!(is_recent(now, Some(Moment { secs: 0, nanos: 1 })));
    assert!(is_recent(now, None));
    assert!(is_recent(Moment { secs: -5, nanos: 0 }, Some(now)));
    let leap = Moment { secs: 59, nanos: 1_500_000_000 };
    assert!(is_recent(Moment { secs: 72_059, nanos: 499_999_999 }, Some(leap)));
    assert!(!is_recent(Moment { secs: 72_059, nanos: 500_000_000 }, Some(leap)));
}

#[test]
fn columns_of_an_old_copy() {
    assert!(schema_is_current(&Some("2".into())));
    assert!(!schema_is_current(&Some("1".into())));
    assert!(!schema_is_current(&None));
    let blank = read_role_meta(None, None, None, None, None, None);
    assert_eq!((value(blank.winrate), value(blank.pickrate), blank.games), (50.0, 0.0, 0));
    assert_eq!(blank.default_lane, "");
    let full = read_role_meta(
        Some(bits(51.0)),
        Some(bits(2.0)),
        Some(bits(3.0)),
        Some(4),
        Some(bits(5.0)),
        Some("top".into()),
    );
    assert_eq!((value(full.banrate), value(full.pct_lane), full.games), (3.0, 5.0, 4));
    assert_eq!(full.default_lane, "top");
}

fn two_champions() -> Catalog {
    let listed = |id: &str, key: &str| DdragonChampion {
        id: id.to_string(),
        key: key.to_string(),
        name: id.to_string(),
    };
    build_catalog("15.1.1", &vec![listed("Thresh", "412"), listed("Nami", "267")])
}

const LIST: &str = r#"{"cid": {"412": {"games": 300, "pctLane": 90}, "999": {"games": 400, "pctLane": 90}}}"#;

#[test]
fn the_course_of_an_ingest() {
    let catalog = two_champions();
    let mut db = StatsDb::open_memory();
    db.upsert_matchup(412, 1, "support", "lane", "support", "gold", "15.1", &stat(50.0, 1)).unwrap();
    let mut work = Ingest::start(&mut db, "gold", "15.1");
    assert!(!db.has_matchup_data("gold", "15.1"));
    assert_eq!(
        work.request().map(|r| r.url).as_deref(),
        Some("https://a1.lolalytics.com/mega/?ep=list&v=1&patch=15.1&lane=top&tier=gold_plus&queue=ranked&region=all")
    );
    work.answer(&mut db, &catalog, Reply::Nothing);
    assert_eq!(
        work.request().map(|r| r.url).as_deref(),
        Some("https://a1.lolalytics.com/mega/?ep=list&v=1&lane=top&tier=gold_plus&queue=ranked&region=all")
    );
    work.answer(&mut db, &catalog, Reply::Data(json("{}")));
    for role in 1..4 {
        assert_eq!(work.step, Step::List { role, narrow: true });
        work.answer(&mut db, &catalog, Reply::Data(json(r#"{"cid": {}}"#)));
    }
    work.answer(&mut db, &catalog, Reply::Data(json(LIST)));
    assert_eq!(work.pools[4], [999, 412]);
    assert_eq!(work.jobs.len(), 1, "a champion without a slug is passed over");
    assert_eq!(work.jobs[0].slug, "thresh");
    assert_eq!(work.step, Step::Team { job: 0, narrow: true });
    work.answer(&mut db, &catalog, Reply::Data(json(r#"{"team": {"top": [[5, 51, 1, 0, 0, 9]]}}"#)));
    assert!(db.synergy(412, 5, "gold", "15.1").is_some());
    for vs in 0..5 {
        assert_eq!(work.step, Step::Counter { job: 0, vs, narrow: true });
        work.answer(&mut db, &catalog, Reply::Data(json(r#"{"counters": []}"#)));
        assert_eq!(work.step, Step::Counter { job: 0, vs, narrow: false });
        work.answer(&mut db, &catalog, Reply::Nothing);
    }
    assert_eq!(work.step, Step::Page { job: 0 });
    assert!(work.request().expect("page").page);
    let html = r#"<script type="qwik/json">{"objs":[{"enemy":"1"},{"support":[[7,54,4,1,5,2000]]}]}</script>"#;
    work.answer(&mut db, &catalog, Reply::Page(html.to_string()));
    assert_eq!(work.step, Step::Done);
    assert!(work.request().is_none());
    assert_eq!(db.matchup(412, 7, "support", "support", "gold", "15.1").map(|m| m.games), Some(2000));
}

#[test]
fn stored_matchups_make_the_page_needless() {
    let catalog = two_champions();
    let mut db = StatsDb::open_memory();
    let mut work = Ingest::start(&mut db, "gold", "15.1");
    for _ in 0..5 {
        work.answer(&mut db, &catalog, Reply::Data(json(r#"{"cid": {"412": {"games": 300, "pctLane": 90}}}"#)));
    }
    assert_eq!(work.jobs.len(), 5);
    work.answer(&mut db, &catalog, Reply::Nothing);
    work.answer(&mut db, &catalog, Reply::Nothing);
    for vs in 0..5 {
        assert_eq!(work.step, Step::Counter { job: 0, vs, narrow: true });
        work.answer(&mut db, &catalog, Reply::Data(json(r#"{"counters": [{"cid": 3, "n": 50}]}"#)));
    }
    assert_eq!(work.step, Step::Team { job: 1, narrow: true });
    assert_eq!(work.jobs[1].role, "jungle");
}

#[test]
fn without_a_role_table_the_ingest_fails() {
    let catalog = two_champions();
    let mut db = StatsDb::open_memory();
    let mut work = Ingest::start(&mut db, "gold", "15.1");
    work.answer(&mut db, &catalog, Reply::Nothing);
    work.answer(&mut db, &catalog, Reply::Nothing);
    assert_eq!(work.step, Step::Failed);
    assert!(work.request().is_none());
}

#[test]
fn an_ingest_without_jobs_is_done() {
    let mut db = StatsDb::open_memory();
    let mut work = Ingest::start(&mut db, "gold", "15.1");
    for _ in 0..5 {
        work.answer(&mut db, &two_champions(), Reply::Data(json(r#"{"cid": {}}"#)));
    }
    assert_eq!(work.step, Step::Done);
}

#[test]
fn progress_is_told_by_champion_and_role() {
    assert_eq!(opening_progress("15.1").message, "Fetching 15.1 role tables");
    assert_eq!(loaded_progress(3, 12).message, "Loaded 12 bottom champions");
    let job = Job {
        role: "support".into(),
        champion_id: 412,
        slug: "thresh".into(),
        name: "Thresh".into(),
    };
    let told = job_progress(&job, 3, 10);
    assert_eq!(told.message, "Calculating matchups… Thresh Support");
    assert_eq!((told.progress.base, told.progress.span), (12, 86));
    assert_eq!((told.progress.done, told.progress.total), (3, 10));
    assert_eq!(finished_progress("15.1").message, "Stats ready for patch 15.1");
    let titles: Vec<String> = (0..5).map(|i| role_title(role_named(i))).collect();
    assert_eq!(titles, ["Top", "Jungle", "Mid", "ADC", "Support"]);
}

#[test]
fn a_rate_that_is_no_number_is_not_kept() {
    let mut db = StatsDb::open_memory();
    let nan = bits(f64::NAN);
    let bad = MatchupStat { winrate: nan, games: 50, delta: None };
    assert_eq!(
        db.upsert_matchup(1, 2, "top", "lane", "top", "r", "p", &bad),
        Err(StoreError::NotANumber)
    );
    assert!(db.upsert_synergy(1, 2, "r", "p", &bad).is_err());
    let odd = MatchupStat { winrate: bits(51.0), games: 50, delta: Some(nan) };
    assert!(db.upsert_synergy(1, 2, "r", "p", &odd).is_err());
    let mut meta = read_meta(&json(r#"{"wr": "NaN", "games": 500}"#), "top");
    assert!(db.upsert_role_stat(1, "top", "r", "p", &meta).is_err());
    assert_eq!(db.take_unsaved().len(), 0);
    meta.winrate = bits(f64::INFINITY);
    meta.pct_lane = nan;
    db.upsert_role_stat(1, "top", "r", "p", &meta).unwrap();
    let kept = db.role_meta(1, "top", "r", "p").expect("kept");
    assert_eq!((value(kept.winrate), value(kept.pct_lane)), (f64::INFINITY, 0.0));
}

#[test]
fn what_stands_before_a_spoilt_row_is_kept() {
    let mut db = StatsDb::open_memory();
    let payload = json(
        r#"{"counters": [{"cid": 3, "n": 50}, {"cid": 4, "n": 50, "vsWr": "NaN"}, {"cid": 5, "n": 50}]}"#,
    );
    assert!(store_counter_json(&mut db, 1, "top", "top", "r", "p", &payload).is_err());
    assert!(db.matchup(1, 3, "top", "top", "r", "p").is_some());
    assert!(db.matchup(1, 4, "top", "top", "r", "p").is_none());
    assert!(db.matchup(1, 5, "top", "top", "r", "p").is_none());
    let list = json(r#"{"cid": {"1": {"games": 500, "pctLane": 90, "br": "nan"}}}"#);
    assert!(store_role_table(&mut db, &list, "top", "r", "p").is_err());
}

#[test]
fn a_spoilt_row_ends_the_ingest() {
    let catalog = two_champions();
    let mut db = StatsDb::open_memory();
    let mut work = Ingest::start(&mut db, "gold", "15.1");
    let list = json(r#"{"cid": {"412": {"games": 300, "pctLane": 90, "wr": "NaN"}}}"#);
    work.answer(&mut db, &catalog, Reply::Data(list));
    assert_eq!(work.step, Step::Failed);

    let mut work = Ingest::start(&mut db, "gold", "15.1");
    for _ in 0..5 {
        let list = json(r#"{"cid": {"412": {"games": 300, "pctLane": 90}}}"#);
        work.answer(&mut db, &catalog, Reply::Data(list));
    }
    work.answer(&mut db, &catalog, Reply::Data(json(r#"{"team": {}}"#)));
    let counters = json(r#"{"counters": [{"cid": 3, "n": 50, "d1": "NaN"}]}"#);
    work.answer(&mut db, &catalog, Reply::Data(counters));
    assert_eq!(work.step, Step::Failed);
    assert!(work.request().is_none());
}

#[test]
fn each_key_has_one_row() {
    let mut db = StatsDb::open_memory();
    for games in [300, 400] {
        let meta = read_meta(&json(&format!("{{\"games\": {games}, \"pctLane\": 50}}")), "top");
        db.upsert_role_stat(1, "top", "r", "p", &meta).unwrap();
        db.upsert_matchup(1, 2, "top", "lane", "top", "r", "p", &stat(50.0, games)).unwrap();
    }
    let pool = db.champions_in_role("top", "r", "p");
    assert_eq!(pool.len(), 1);
    assert_eq!(pool[0].1.games, 400);
    assert_eq!(db.flexibility(1, "top", "r", "p").len(), 1);
}

#[test]
fn a_matchup_leaves_the_others() {
    let mut db = StatsDb::open_memory();
    db.upsert_matchup(1, 2, "top", "lane", "top", "r", "p", &stat(51.0, 100)).unwrap();
    db.upsert_synergy(1, 2, "r", "p", &stat(52.0, 100)).unwrap();
    db.upsert_matchup(1, 3, "top", "lane", "top", "r", "p", &stat(40.0, 7)).unwrap();
    db.upsert_matchup(9, 2, "top", "lane", "top", "r", "p", &stat(40.0, 7)).unwrap();
    db.upsert_matchup(1, 2, "top", "lane", "top", "s", "p", &stat(40.0, 7)).unwrap();
    db.upsert_matchup(1, 2, "top", "lane", "top", "r", "q", &stat(40.0, 7)).unwrap();
    let first = db.matchup(1, 2, "top", "top", "r", "p").expect("still there");
    assert_eq!((value(first.winrate), first.games), (51.0, 100));
    assert_eq!(db.synergy(1, 2, "r", "p").map(|s| s.games), Some(100));
}

#[test]
fn progress_never_falls() {
    let catalog = two_champions();
    let mut db = StatsDb::open_memory();
    let mut work = Ingest::start(&mut db, "gold", "15.1");
    let mut told = vec![opening_progress("15.1")];
    let mut pauses = Vec::new();
    while work.request().is_some() {
        let asked = work.step;
        told.extend(work.announcement());
        let reply = match asked {
            Step::List { .. } => {
                Reply::Data(json(r#"{"cid": {"412": {"games": 300, "pctLane": 90}}}"#))
            }
            _ => Reply::Nothing,
        };
        work.answer(&mut db, &catalog, reply);
        let report = work.report(asked);
        told.extend(report.progress);
        if report.pause_ms > 0 {
            pauses.push(report.pause_ms);
        }
    }
    told.push(finished_progress("15.1"));
    assert_eq!(work.step, Step::Done);
    assert_eq!(told.len(), 1 + 5 + 5 + 1);
    assert_eq!(told[1].message, "Loaded 1 top champions");
    assert_eq!(told[6].message, "Calculating matchups… Thresh Top");
    assert_eq!(pauses, [120, 120, 120, 120, 120, 160, 160, 160, 160, 160]);
    let parts: Vec<f64> = told
        .iter()
        .map(|p| {
            let done = p.progress.done as f64 / p.progress.total as f64;
            f64::from(p.progress.base) + f64::from(p.progress.span) * done
        })
        .collect();
    assert!(parts.windows(2).all(|w| w[0] <= w[1]), "{parts:?}");
    assert!(parts.iter().all(|p| (0.0..=100.0).contains(p)));
}

#[test]
fn times_that_cannot_be_read_back_count_as_good() {
    let mut db = filled();
    finish_ingest(&mut db, "r", "p", -62_167_219_200);
    assert_eq!(db.get_meta("ingested_at").as_deref(), Some("0000-01-01T00:00:00Z"));
    assert!(cache_is_fresh(&db, "r", "p", at(-62_167_219_200 + 71_999)));
    assert!(!cache_is_fresh(&db, "r", "p", at(0)));
    for secs in [-62_167_219_201, 253_402_300_800, -8_334_601_228_800, 8_210_266_876_799] {
        finish_ingest(&mut db, "r", "p", secs);
        assert!(cache_is_fresh(&db, "r", "p", at(9_999_999_999_999)));
    }
    assert_eq!(db.get_meta("ingested_at").as_deref(), Some("+262142-12-31T23:59:59Z"));
}
