//! What the overlay knows, event by event.
use rift_counterpick::catalog::{build_catalog, DdragonChampion};
use rift_counterpick::clock::Moment;
use rift_counterpick::engine::{Appraisal, Candidate, Plan};
use rift_counterpick::lcu::types::{ChampSelectPlayer, ChampSelectSession, CurrentSummoner};
use rift_counterpick::models::Progress;
use rift_counterpick::number::Real;
use rift_counterpick::settings::{Settings, SettingsPatch};
use rift_counterpick::state::{
    any_free, is_champ_select, poll_delay, DownloadStart, IngestStart, InnerState, Refresh,
    WindowAction,
};
use rift_counterpick::stats::ingest::{finish_ingest, IngestProgress};
use rift_counterpick::stats::store::{MatchupStat, RoleMeta, StatsDb};
use rift_counterpick::update::{GithubAsset, GithubRelease};
use std::collections::{HashMap, HashSet};

fn bits(x: f64) -> Real {
    Real { bits: x.to_bits() }
}

/// Scores a candidate by its win rate alone.
fn by_winrate(_plan: &Plan, c: &Candidate) -> Appraisal {
    Appraisal {
        score: c.meta.winrate,
        lane_delta: bits(0.0),
        team_delta: bits(0.0),
        synergy_delta: bits(0.0),
        ally_deltas: Vec::new(),
        skew: bits(0.0),
        lane_text: "+0.0".into(),
        team_text: "+0.0".into(),
        meta_text: "50.0".into(),
    }
}

fn meta(winrate: f64) -> RoleMeta {
    RoleMeta {
        winrate: bits(winrate),
        pickrate: bits(5.0),
        banrate: bits(1.0),
        games: 1000,
        pct_lane: bits(90.0),
        default_lane: "top".into(),
    }
}

fn store() -> StatsDb {
    let mut db = StatsDb::open_memory();
    for id in 1..=30 {
        db.upsert_role_stat(id, "top", "emerald_plus", "15.1", &meta(50.0 + id as f64 / 10.0)).unwrap();
    }
    db
}

fn state() -> InnerState {
    let mut settings = Settings::default();
    settings.role_override = "top".into();
    let mut inner = InnerState::new(settings, "1.0.0".into());
    let champions: Vec<DdragonChampion> = (1..=30)
        .map(|i| DdragonChampion {
            id: format!("C{i}"),
            key: i.to_string(),
            name: format!("C{i}"),
        })
        .collect();
    inner.catalog_ready(build_catalog("15.1.1", &champions));
    inner
}

fn lobby(enemy: i64) -> ChampSelectSession {
    ChampSelectSession {
        their_team: vec![ChampSelectPlayer {
            cell_id: 7,
            champion_id: enemy,
            ..Default::default()
        }],
        ..Default::default()
    }
}

fn quiet() -> Refresh {
    Refresh {
        summoner: Some(CurrentSummoner { game_name: "Me".into(), ..Default::default() }),
        phase: None,
        tier: None,
        owned: HashSet::new(),
        mastery: HashMap::new(),
        session: None,
        pickable: HashSet::new(),
    }
}

#[test]
fn a_lobby_shows_the_window_and_ranks() {
    let db = store();
    let mut inner = state();
    let action = inner.refresh(
        &db,
        Refresh {
            phase: Some("ChampSelect".into()),
            session: Some(lobby(30)),
            pickable: [29, 28].into_iter().collect(),
            ..quiet()
        },
        by_winrate,
    );
    assert_eq!(action, WindowAction::Show);
    let snap = inner.snapshot();
    assert!(snap.lcu.connected && snap.catalog_ready);
    assert_eq!(snap.lcu.summoner_name.as_deref(), Some("Me"));
    let ids: Vec<i64> = snap.recommendations.iter().map(|r| r.champion_id).collect();
    assert_eq!(ids, [29, 28], "the taken best and what cannot be picked stay out");
    assert_eq!(snap.recommendations[0].reason, "50.0% role win rate this patch");

    // The lobby goes on: nothing to do with the window.
    let action = inner.refresh(
        &db,
        Refresh { phase: Some("champselect".into()), session: Some(lobby(29)), ..quiet() },
        by_winrate,
    );
    assert_eq!(action, WindowAction::Stay);
    assert_eq!(inner.recommendations[0].champion_id, 28, "what could be picked is remembered");

    // The client does not answer for a moment: all stays.
    assert_eq!(inner.refresh(&db, quiet(), by_winrate), WindowAction::Stay);
    assert!(inner.draft.is_some() && !inner.recommendations.is_empty());

    let action =
        inner.refresh(&db, Refresh { phase: Some("InProgress".into()), ..quiet() }, by_winrate);
    assert_eq!(action, WindowAction::Hide);
    assert!(inner.draft.is_none() && inner.recommendations.is_empty());
    assert!(inner.pickable.is_empty());
}

#[test]
fn a_pickable_list_of_taken_champions_is_not_believed() {
    let db = store();
    let mut inner = state();
    inner.refresh(
        &db,
        Refresh {
            phase: Some("ChampSelect".into()),
            session: Some(lobby(30)),
            pickable: [30].into_iter().collect(),
            ..quiet()
        },
        by_winrate,
    );
    assert!(inner.pickable.is_empty());
    assert_eq!(inner.recommendations.len(), 5);
    let draft = inner.draft.as_ref().expect("draft");
    assert!(!any_free(&[30].into_iter().collect(), draft));
    assert!(any_free(&[30, 1].into_iter().collect(), draft));
}

#[test]
fn an_unknown_summoner_is_no_connection() {
    let mut inner = state();
    inner.refresh(&store(), quiet(), by_winrate);
    assert!(inner.lcu.connected);
    inner.refresh(&store(), Refresh { summoner: None, ..quiet() }, by_winrate);
    assert!(!inner.lcu.connected);
    assert_eq!(inner.lcu.game_name.as_deref(), Some("Me"), "the name is remembered");
}

#[test]
fn losing_the_client_clears_the_lobby_once() {
    let mut inner = state();
    assert_eq!(inner.client_lost(), (false, WindowAction::Stay));
    inner.refresh(
        &store(),
        Refresh { phase: Some("ChampSelect".into()), session: Some(lobby(1)), ..quiet() },
        by_winrate,
    );
    assert_eq!(inner.client_lost(), (true, WindowAction::Hide));
    assert!(inner.draft.is_none() && inner.game_phase.is_none());
    assert!(inner.recommendations.is_empty() && !inner.lcu.connected);
    assert_eq!(inner.client_lost(), (false, WindowAction::Stay));
}

#[test]
fn events_follow_the_lobby() {
    let db = store();
    let mut inner = state();
    assert_eq!(inner.session_event(&db, &lobby(3), by_winrate), WindowAction::Show);
    assert!(is_champ_select(&inner.game_phase));
    assert_eq!(inner.session_event(&db, &lobby(4), by_winrate), WindowAction::Stay);
    assert_eq!(inner.recommendations.len(), 5);
    assert_eq!(inner.phase_event("CHAMPSELECT".into()), WindowAction::Stay);
    assert!(inner.draft.is_some());
    assert_eq!(inner.lobby_gone_event(), WindowAction::Hide);
    assert_eq!(inner.game_phase.as_deref(), Some("None"));
    assert_eq!(inner.lobby_gone_event(), WindowAction::Stay);
    assert_eq!(inner.phase_event("ChampSelect".into()), WindowAction::Show);
    assert_eq!(inner.phase_event("GameStart".into()), WindowAction::Hide);
    assert_eq!(inner.phase_event("InProgress".into()), WindowAction::Stay);
}

#[test]
fn settings_rank_anew() {
    let db = store();
    let mut inner = state();
    inner.session_event(&db, &lobby(0), by_winrate);
    inner.owned = [1, 2].into_iter().collect();
    let patch = |owned_only: bool| SettingsPatch {
        rank_bracket: None,
        owned_only: Some(owned_only),
        comfort_weighting: None,
        always_on_top: None,
        role_override: None,
    };
    inner.update_settings(&db, patch(true), by_winrate);
    let ids: Vec<i64> = inner.recommendations.iter().map(|r| r.champion_id).collect();
    assert_eq!(ids, [2, 1]);
    inner.update_settings(&db, patch(false), by_winrate);
    assert_eq!(inner.recommendations.len(), 5);
    inner.catalog = None;
    inner.rescore(&db, by_winrate);
    assert!(inner.recommendations.is_empty());
}

#[test]
fn fresh_tables_are_not_fetched() {
    let mut db = store();
    let mut inner = InnerState::new(Settings::default(), "1".into());
    let now = Moment { secs: 1_000_000, nanos: 0 };
    assert!(matches!(inner.start_ingest(&db, now, false), IngestStart::Wait));
    let mut inner = state();
    assert!(
        matches!(inner.start_ingest(&db, now, false), IngestStart::Fetch { rank, patch } if rank == "emerald_plus" && patch == "15.1")
    );
    assert!(inner.stats.ingesting);
    assert_eq!(inner.stats.message, "Downloading champion matchup data…");
    inner.ingest_progress(
        IngestProgress { message: "half way".into(), progress: Progress::at(50) },
        "15.1",
    );
    assert_eq!(inner.stats.message, "half way");
    assert_eq!(inner.stats.patch.as_deref(), Some("15.1"));

    inner.ingest_done(&db, "emerald_plus", "15.1", by_winrate);
    assert_eq!(
        inner.stats.message,
        "Role stats ready; matchup tables incomplete — try Refresh stats"
    );
    let stat = MatchupStat { winrate: bits(50.0), games: 9, delta: None };
    db.upsert_matchup(1, 2, "top", "lane", "top", "emerald_plus", "15.1", &stat).unwrap();
    finish_ingest(&mut db, "emerald_plus", "15.1", 1_000_000);
    inner.ingest_done(&db, "emerald_plus", "15.1", by_winrate);
    assert_eq!(inner.stats.message, "Live stats ready");
    assert!(inner.stats.ready && !inner.stats.ingesting);

    assert!(matches!(inner.start_ingest(&db, now, false), IngestStart::Current));
    assert_eq!(inner.stats.message, "Stats cache is current");
    assert!(matches!(inner.start_ingest(&db, now, true), IngestStart::Fetch { .. }));
}

#[test]
fn a_failed_fetch_leaves_what_there_is() {
    let mut inner = state();
    inner.ingest_failed(&StatsDb::open_memory(), "r", "p", "no net", by_winrate);
    assert_eq!(inner.stats.message, "Could not refresh stats: no net");
    assert!(!inner.stats.ready && inner.stats.patch.is_none());
    let mut db = store();
    inner.ingest_failed(&db, "emerald_plus", "15.1", "no net", by_winrate);
    assert_eq!(
        inner.stats.message,
        "Using cached role stats; matchup tables missing — refresh failed"
    );
    assert!(inner.stats.ready && inner.stats.stale);
    let stat = MatchupStat { winrate: bits(50.0), games: 9, delta: None };
    db.upsert_matchup(1, 2, "top", "lane", "top", "emerald_plus", "15.1", &stat).unwrap();
    inner.ingest_failed(&db, "emerald_plus", "15.1", "no net", by_winrate);
    assert_eq!(inner.stats.message, "Using cached stats; refresh failed");
}

#[test]
fn the_catalog_is_announced() {
    let mut inner = InnerState::new(Settings::default(), "1".into());
    assert_eq!(inner.stats.message, "Waiting to load stats");
    inner.catalog_loading();
    assert_eq!(inner.stats.message, "Loading champion catalog");
    inner.catalog_failed("offline");
    assert_eq!(inner.stats.message, "Could not load champion catalog: offline");
    assert!(!inner.snapshot().catalog_ready);
}

fn release(tag: &str) -> GithubRelease {
    GithubRelease {
        tag_name: tag.into(),
        assets: vec![GithubAsset {
            name: "x-setup.exe".into(),
            browser_download_url: "https://example.com/x".into(),
        }],
    }
}

#[test]
fn updates_are_offered_downloaded_and_dismissed() {
    let mut inner = state();
    assert!(matches!(inner.start_download(), DownloadStart::NoUpdate));
    assert!(!inner.release_found(&release("1.0.0"), "1.0.0", &None));
    assert!(inner.release_found(&release("v1.1.0"), "1.0.0", &None));
    assert!(
        matches!(inner.start_download(), DownloadStart::Fetch { url, name } if url == "https://example.com/x" && name == "x-setup.exe")
    );
    assert!(inner.is_downloading());
    assert_eq!(inner.update.as_ref().map(|u| u.message.as_str()), Some("Downloading 1.1.0…"));
    assert!(matches!(inner.start_download(), DownloadStart::Busy));
    assert!(!inner.release_found(&release("2.0"), "1.0.0", &None), "not while downloading");
    inner.download_failed();
    assert_eq!(
        inner.update.as_ref().map(|u| (u.status.as_str(), u.message.as_str())),
        Some(("error", "Download failed — click to retry"))
    );
    inner.start_download();
    inner.download_done();
    assert_eq!(inner.update.as_ref().map(|u| u.progress), Some(Progress::at(100)));
    inner.open_failed(&Some("x-setup.exe".into()));
    assert_eq!(
        inner.update.as_ref().map(|u| u.message.as_str()),
        Some("Saved to Downloads as x-setup.exe. Open it to install.")
    );
    assert!(inner.dismiss_update());
    assert_eq!(inner.settings.dismissed_update.as_deref(), Some("1.1.0"));
    assert!(!inner.dismiss_update());
    let dismissed = inner.settings.dismissed_update.clone();
    assert!(!inner.release_found(&release("v1.1.0"), "1.0.0", &dismissed), "put aside for good");
    assert!(inner.release_found(&release("1.2.0"), "1.0.0", &dismissed));
    assert!(inner.release_found(&release("1.0.0"), "1.0.0", &dismissed), "withdrawn again");
    assert!(inner.update.is_none());
    inner.open_failed(&None);
    assert!(inner.update.is_none());
}

#[test]
fn polling_is_quicker_in_a_lobby() {
    assert_eq!(poll_delay(false, &Some("ChampSelect".into())), 1500);
    assert_eq!(poll_delay(true, &Some("champselect".into())), 400);
    assert_eq!(poll_delay(true, &None), 1600);
}
