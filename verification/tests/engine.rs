//! The ranking, with the arithmetic that the overlay uses.
use rift_counterpick::catalog::Catalog;
use rift_counterpick::engine::{
    self, vs_role_weight, weights, Appraisal, Candidate, Plan, ScoreContext,
};
use rift_counterpick::models::{ChampionInfo, DraftView, PlayerSlot, Recommendation};
use rift_counterpick::number::Real;
use rift_counterpick::stats::store::{MatchupStat, RoleMeta, StatsDb};
use std::collections::{HashMap, HashSet};

fn bits(x: f64) -> Real {
    Real { bits: x.to_bits() }
}

fn value(x: Real) -> f64 {
    f64::from_bits(x.bits)
}

fn shrink_toward(wr: f64, games: i64, prior_wr: f64, prior_n: f64) -> f64 {
    let g = games.max(0) as f64;
    (g * wr + prior_n * prior_wr) / (g + prior_n)
}

fn edge(stat: &MatchupStat) -> f64 {
    shrink_toward(value(stat.winrate), stat.games, 50.0, 1000.0) - 50.0
}

fn baseline(pool: &[(i64, RoleMeta)]) -> f64 {
    let total: i64 = pool.iter().map(|(_, m)| m.games.max(0)).sum();
    if total <= 0 {
        return 50.0;
    }
    let weighted: f64 = pool
        .iter()
        .map(|(_, m)| value(m.winrate) * m.games.max(0) as f64)
        .sum();
    weighted / total as f64
}

fn ramp(x: f64, zero_at: f64, one_at: f64) -> f64 {
    ((zero_at - x) / (zero_at - one_at)).clamp(0.0, 1.0)
}

fn specialist_skew(meta: &RoleMeta, role: &str) -> f64 {
    let native = !meta.default_lane.is_empty() && meta.default_lane == role;
    let mut skew: f64 = 0.0;
    if value(meta.pct_lane) > 0.0 && !native {
        skew = skew.max(ramp(value(meta.pct_lane), 60.0, 20.0));
    }
    if value(meta.pickrate) > 0.0 {
        skew = skew.max(ramp(value(meta.pickrate), 3.0, 0.5));
    }
    skew
}

fn mean(pairs: &[(u32, f64)]) -> f64 {
    let sum: f64 = pairs.iter().map(|(w, d)| f64::from(*w) / 100.0 * d).sum();
    let weight: f64 = pairs.iter().map(|(w, _)| f64::from(*w) / 100.0).sum();
    if weight > 0.0 {
        sum / weight
    } else {
        0.0
    }
}

fn appraise(plan: &Plan, c: &Candidate) -> Appraisal {
    let base = baseline(&plan.pool);
    let lane = c.lane.as_ref().map(edge).unwrap_or(0.0);
    let team_edges: Vec<(u32, f64)> = c.team.iter().map(|p| (p.weight, edge(&p.stat))).collect();
    let ally_edges: Vec<(u32, f64)> =
        c.synergies.iter().map(|p| (p.weight, edge(&p.stat))).collect();
    let team = mean(&team_edges);
    let synergy = mean(&ally_edges);
    let flex = if c.lane_winrates.is_empty() {
        0.0
    } else {
        let sum: f64 = c.lane_winrates.iter().map(|w| value(*w)).sum();
        shrink_toward(sum / c.lane_winrates.len() as f64, 5_000, base, 1000.0) - base
    };
    let (familiarity, comfort) = match c.mastery {
        Some((level, points)) => (
            ((level as f64 - 3.0) / 4.0)
                .clamp(0.0, 1.0)
                .max((points as f64 / 50_000.0).clamp(0.0, 1.0)),
            0.5 * (level as f64 / 7.0).clamp(0.0, 1.0)
                + 0.5 * (points as f64 / 100_000.0).clamp(0.0, 1.0),
        ),
        None => (0.0, 0.0),
    };
    let skew = specialist_skew(&c.meta, &plan.role) * (1.0 - familiarity);
    let shrunk = shrink_toward(value(c.meta.winrate), c.meta.games, base, 20_000.0) - base;
    let meta = if shrunk > 0.0 { shrunk * (1.0 - 0.5 * skew) } else { shrunk };
    let part = |w: u32| f64::from(w) / 100.0;
    let score = part(plan.weights.lane) * lane
        + part(plan.weights.team) * team
        + part(plan.weights.syn) * synergy
        + part(plan.weights.meta) * meta
        + part(plan.weights.flex) * flex
        + part(plan.weights.comfort) * comfort;
    Appraisal {
        score: bits(score),
        lane_delta: bits(lane),
        team_delta: bits(team),
        synergy_delta: bits(synergy),
        ally_deltas: ally_edges.iter().map(|(_, d)| bits(*d)).collect(),
        skew: bits(skew),
        lane_text: format!("{lane:+.1}"),
        team_text: format!("{team:+.1}"),
        meta_text: format!("{:.1}", value(c.meta.winrate)),
    }
}

fn recommend(
    db: &StatsDb,
    catalog: &Catalog,
    draft: &DraftView,
    ctx: &ScoreContext,
) -> Vec<Recommendation> {
    engine::recommend(db, catalog, draft, ctx, appraise)
}

const RANK: &str = "emerald";
const PATCH: &str = "15.1";
const JINX: i64 = 222;
const CAITLYN: i64 = 51;
const SINGED: i64 = 27;
const MISS_FORTUNE: i64 = 21;
const TWITCH: i64 = 29;
const BRAUM: i64 = 201;
const SEJUANI: i64 = 113;
const JANNA: i64 = 40;
const NAMI: i64 = 267;
const LULU: i64 = 117;
const THRESH: i64 = 412;
const ZYRA: i64 = 143;
const WUKONG: i64 = 62;
const TARIC: i64 = 44;
const LEONA: i64 = 89;

fn champ(id: i64, name: &str) -> ChampionInfo {
    ChampionInfo {
        id,
        key: id.to_string(),
        name: name.to_string(),
        slug: name.to_ascii_lowercase().replace(' ', ""),
        icon_url: String::new(),
    }
}

fn test_catalog() -> Catalog {
    let champs = [
        champ(JINX, "Jinx"),
        champ(CAITLYN, "Caitlyn"),
        champ(SINGED, "Singed"),
        champ(MISS_FORTUNE, "Miss Fortune"),
        champ(TWITCH, "Twitch"),
        champ(BRAUM, "Braum"),
        champ(SEJUANI, "Sejuani"),
        champ(JANNA, "Janna"),
        champ(NAMI, "Nami"),
        champ(LULU, "Lulu"),
        champ(THRESH, "Thresh"),
        champ(ZYRA, "Zyra"),
        champ(WUKONG, "Wukong"),
        champ(TARIC, "Taric"),
        champ(LEONA, "Leona"),
    ];
    let mut catalog = Catalog {
        patch: PATCH.to_string(),
        ..Default::default()
    };
    for info in champs {
        catalog.slug_by_id.insert(info.id, info.slug.clone());
        catalog.by_id.insert(info.id, info);
    }
    catalog
}

fn bot_meta(winrate: f64, games: i64, pct_lane: f64) -> RoleMeta {
    RoleMeta {
        winrate: bits(winrate),
        pickrate: bits(10.0),
        banrate: bits(1.0),
        games,
        pct_lane: bits(pct_lane),
        default_lane: "bottom".to_string(),
    }
}

fn off_role_meta() -> RoleMeta {
    RoleMeta {
        winrate: bits(54.0),
        pickrate: bits(5.0),
        banrate: bits(2.0),
        games: 8_000,
        pct_lane: bits(1.0),
        default_lane: "top".to_string(),
    }
}

fn seed_adc_pool(db: &mut StatsDb) {
    db.upsert_role_stat(JINX, "bottom", RANK, PATCH, &bot_meta(51.0, 12_000, 96.0)).unwrap();
    db.upsert_role_stat(
        CAITLYN,
        "bottom",
        RANK,
        PATCH,
        &bot_meta(50.5, 11_000, 98.0),
    ).unwrap();
    db.upsert_role_stat(
        MISS_FORTUNE,
        "bottom",
        RANK,
        PATCH,
        &bot_meta(50.2, 10_000, 90.0),
    ).unwrap();
    db.upsert_role_stat(TWITCH, "bottom", RANK, PATCH, &bot_meta(51.4, 11_500, 94.0)).unwrap();
    db.upsert_role_stat(SINGED, "bottom", RANK, PATCH, &off_role_meta()).unwrap();
    db.upsert_role_stat(SINGED, "top", RANK, PATCH, &off_role_meta()).unwrap();
}

fn jungle_meta(
    winrate: f64,
    games: i64,
    pickrate: f64,
    pct_lane: f64,
    default_lane: &str,
) -> RoleMeta {
    RoleMeta {
        winrate: bits(winrate),
        pickrate: bits(pickrate),
        banrate: bits(1.0),
        games,
        pct_lane: bits(pct_lane),
        default_lane: default_lane.to_string(),
    }
}

/// Shaped after real Lolalytics jungle rows: Zyra posts a jungle win rate
/// off a third of her games and a 1.4% pick rate, while Sejuani and Wukong
/// are natives who are picked by everyone.
fn seed_jungle_pool(db: &mut StatsDb) {
    db.upsert_role_stat(
        ZYRA,
        "jungle",
        RANK,
        PATCH,
        &jungle_meta(53.0, 28_762, 1.39, 34.05, "support"),
    ).unwrap();
    db.upsert_role_stat(
        SEJUANI,
        "jungle",
        RANK,
        PATCH,
        &jungle_meta(53.0, 41_919, 2.02, 83.81, "jungle"),
    ).unwrap();
    db.upsert_role_stat(
        WUKONG,
        "jungle",
        RANK,
        PATCH,
        &jungle_meta(52.5, 128_290, 6.18, 84.20, "jungle"),
    ).unwrap();
}

fn jungle_draft() -> DraftView {
    DraftView {
        role: "jungle".to_string(),
        ..Default::default()
    }
}

fn score_of(recs: &[Recommendation], id: i64) -> f64 {
    recs.iter()
        .find(|r| r.champion_id == id)
        .map(|r| value(r.score))
        .expect("champion should be ranked")
}

fn support_meta(winrate: f64, games: i64) -> RoleMeta {
    RoleMeta {
        winrate: bits(winrate),
        pickrate: bits(10.0),
        banrate: bits(1.0),
        games,
        pct_lane: bits(92.0),
        default_lane: "support".to_string(),
    }
}

fn support_meta_pick(winrate: f64, games: i64, pickrate: f64) -> RoleMeta {
    RoleMeta {
        winrate: bits(winrate),
        pickrate: bits(pickrate),
        banrate: bits(1.0),
        games,
        pct_lane: bits(95.0),
        default_lane: "support".to_string(),
    }
}

/// Shaped after the live support rows behind the Taric report: a native
/// support posting a standout win rate that almost nobody picks, against
/// two natives everybody picks.
fn seed_taric_support_pool(db: &mut StatsDb) {
    db.upsert_role_stat(
        TARIC,
        "support",
        RANK,
        PATCH,
        &support_meta_pick(53.2, 107_000, 1.3),
    ).unwrap();
    db.upsert_role_stat(
        LEONA,
        "support",
        RANK,
        PATCH,
        &support_meta_pick(51.8, 710_000, 8.5),
    ).unwrap();
    db.upsert_role_stat(
        BRAUM,
        "support",
        RANK,
        PATCH,
        &support_meta_pick(51.7, 292_000, 3.5),
    ).unwrap();
}

fn support_draft() -> DraftView {
    DraftView {
        role: "support".to_string(),
        ..Default::default()
    }
}

fn seed_support_pool(db: &mut StatsDb) {
    db.upsert_role_stat(JANNA, "support", RANK, PATCH, &support_meta(51.0, 12_000)).unwrap();
    db.upsert_role_stat(NAMI, "support", RANK, PATCH, &support_meta(50.8, 11_000)).unwrap();
    db.upsert_role_stat(LULU, "support", RANK, PATCH, &support_meta(51.2, 10_500)).unwrap();
    db.upsert_role_stat(THRESH, "support", RANK, PATCH, &support_meta(50.4, 11_200)).unwrap();
    db.upsert_role_stat(BRAUM, "support", RANK, PATCH, &support_meta(51.6, 10_800)).unwrap();
}

fn support_lane_mu(db: &mut StatsDb, champ: i64, enemy: i64, wr: f64) {
    db.upsert_matchup(
        champ,
        enemy,
        "support",
        "lane",
        "support",
        RANK,
        PATCH,
        &MatchupStat {
            winrate: bits(wr),
            games: 8_000,
            delta: Some(bits(wr - 50.0)),
        },
    ).unwrap();
}

fn local_locked_support(local_id: i64, enemy_id: i64) -> DraftView {
    DraftView {
        role: "support".to_string(),
        allies: vec![
            PlayerSlot {
                is_local: true,
                champion_id: local_id,
                display_champion_id: local_id,
                assigned_position: "support".to_string(),
                ..Default::default()
            },
            PlayerSlot {
                is_local: false,
                champion_id: TWITCH,
                display_champion_id: TWITCH,
                assigned_position: "bottom".to_string(),
                ..Default::default()
            },
        ],
        enemies: vec![PlayerSlot {
            champion_id: enemy_id,
            assigned_position: "support".to_string(),
            display_champion_id: enemy_id,
            ..Default::default()
        }],
        enemies_locked: 1,
        lane_enemy_id: Some(enemy_id),
        ..Default::default()
    }
}

fn ctx_with_pickable(ids: &[i64]) -> ScoreContext {
    ScoreContext {
        rank: RANK.to_string(),
        patch: PATCH.to_string(),
        owned_only: false,
        comfort_weighting: true,
        pickable: ids.iter().copied().collect(),
        owned: HashSet::new(),
        mastery: HashMap::new(),
    }
}

fn empty_draft() -> DraftView {
    DraftView {
        role: "bottom".to_string(),
        ..Default::default()
    }
}

fn enemy_adc(id: i64) -> DraftView {
    DraftView {
        role: "bottom".to_string(),
        enemies: vec![PlayerSlot {
            champion_id: id,
            assigned_position: "bottom".to_string(),
            display_champion_id: id,
            ..Default::default()
        }],
        enemies_locked: 1,
        lane_enemy_id: Some(id),
        ..Default::default()
    }
}

#[test]
fn early_draft_weights_meta_and_flex() {
    let w = weights(false, 0);
    assert!(w.meta > w.lane);
    assert!(w.flex > w.lane);
    let mid = weights(false, 2);
    assert!(mid.team > mid.meta);
    let late = weights(true, 1);
    assert!(late.lane > late.meta);
    assert_eq!(f64::from(late.comfort) / 100.0, 0.0);
}

#[test]
fn adc_pickable_set_drops_off_role_champs() {
    let mut db = StatsDb::open_memory();
    seed_adc_pool(&mut db);
    let catalog = test_catalog();
    let ctx = ctx_with_pickable(&[SINGED, JINX, CAITLYN, MISS_FORTUNE]);
    let recs = recommend(&db, &catalog, &empty_draft(), &ctx);
    assert!(!recs.is_empty(), "expected bot-lane recommendations");
    assert!(
        recs.iter().all(|r| r.champion_id != SINGED),
        "Singed must not appear in ADC recs: {:?}",
        recs.iter().map(|r| &r.name).collect::<Vec<_>>()
    );
    let ids: HashSet<i64> = recs.iter().map(|r| r.champion_id).collect();
    assert!(ids.contains(&JINX) || ids.contains(&CAITLYN) || ids.contains(&MISS_FORTUNE));
}

#[test]
fn lane_counter_outranks_high_mastery_weaker_matchup() {
    let mut db = StatsDb::open_memory();
    seed_adc_pool(&mut db);
    db.upsert_matchup(
        JINX,
        CAITLYN,
        "bottom",
        "lane",
        "bottom",
        RANK,
        PATCH,
        &MatchupStat {
            winrate: bits(58.0),
            games: 8_000,
            delta: Some(bits(8.0)),
        },
    ).unwrap();
    db.upsert_matchup(
        MISS_FORTUNE,
        CAITLYN,
        "bottom",
        "lane",
        "bottom",
        RANK,
        PATCH,
        &MatchupStat {
            winrate: bits(44.0),
            games: 8_000,
            delta: Some(bits(-6.0)),
        },
    ).unwrap();

    let catalog = test_catalog();
    let mut ctx = ctx_with_pickable(&[SINGED, JINX, MISS_FORTUNE]);
    ctx.mastery.insert(MISS_FORTUNE, (7, 1_000_000));
    ctx.mastery.insert(JINX, (1, 1_200));

    let recs = recommend(&db, &catalog, &enemy_adc(CAITLYN), &ctx);
    assert!(
        recs.iter().all(|r| r.champion_id != SINGED),
        "off-role Singed should still be excluded"
    );
    let jinx_idx = recs.iter().position(|r| r.champion_id == JINX);
    let mf_idx = recs.iter().position(|r| r.champion_id == MISS_FORTUNE);
    assert!(jinx_idx.is_some(), "Jinx should be recommended: {recs:?}");
    if let (Some(j), Some(m)) = (jinx_idx, mf_idx) {
        assert!(
            j < m,
            "lane counter Jinx should outrank high-mastery Miss Fortune"
        );
    }
}

#[test]
fn equal_scores_keep_stable_order() {
    let mut db = StatsDb::open_memory();
    let same = bot_meta(50.0, 5_000, 80.0);
    db.upsert_role_stat(CAITLYN, "bottom", RANK, PATCH, &same).unwrap();
    db.upsert_role_stat(JINX, "bottom", RANK, PATCH, &same).unwrap();
    let catalog = test_catalog();
    let ctx = ctx_with_pickable(&[CAITLYN, JINX]);
    let draft = empty_draft();
    let first = recommend(&db, &catalog, &draft, &ctx);
    let second = recommend(&db, &catalog, &draft, &ctx);
    assert_eq!(first.len(), 2);
    assert_eq!(
        first.iter().map(|r| r.champion_id).collect::<Vec<_>>(),
        second.iter().map(|r| r.champion_id).collect::<Vec<_>>()
    );
    assert_eq!(first[0].champion_id, CAITLYN);
    assert_eq!(first[1].champion_id, JINX);
}

#[test]
fn duo_lane_outweighs_offlane_matchup() {
    assert_eq!(f64::from(vs_role_weight("bottom", "bottom")) / 100.0, 1.0);
    assert_eq!(f64::from(vs_role_weight("bottom", "support")) / 100.0, 0.45);
    assert_eq!(f64::from(vs_role_weight("support", "bottom")) / 100.0, 0.45);
    assert_eq!(f64::from(vs_role_weight("bottom", "top")) / 100.0, 0.20);
    assert_eq!(f64::from(vs_role_weight("bottom", "")) / 100.0, 0.20);
}

#[test]
fn disjoint_pickable_set_still_recommends_role_champs() {
    let mut db = StatsDb::open_memory();
    seed_adc_pool(&mut db);
    let catalog = test_catalog();
    let ctx = ctx_with_pickable(&[SINGED]);
    let recs = recommend(&db, &catalog, &empty_draft(), &ctx);
    assert!(
        !recs.is_empty(),
        "role pool should survive a pickable set with no in-role champs"
    );
    assert!(recs.iter().all(|r| r.champion_id != SINGED));
}

#[test]
fn second_pick_scores_locked_enemy_without_assigned_role() {
    let mut db = StatsDb::open_memory();
    seed_adc_pool(&mut db);
    db.upsert_matchup(
        JINX,
        CAITLYN,
        "bottom",
        "lane",
        "bottom",
        RANK,
        PATCH,
        &MatchupStat {
            winrate: bits(58.0),
            games: 8_000,
            delta: Some(bits(8.0)),
        },
    ).unwrap();
    db.upsert_matchup(
        MISS_FORTUNE,
        CAITLYN,
        "bottom",
        "lane",
        "bottom",
        RANK,
        PATCH,
        &MatchupStat {
            winrate: bits(44.0),
            games: 8_000,
            delta: Some(bits(-6.0)),
        },
    ).unwrap();

    let catalog = test_catalog();
    let ctx = ctx_with_pickable(&[JINX, CAITLYN, MISS_FORTUNE, SINGED]);
    let draft = DraftView {
        role: "bottom".to_string(),
        allies: vec![
            PlayerSlot {
                cell_id: 1,
                is_local: true,
                ..Default::default()
            },
            PlayerSlot {
                cell_id: 2,
                intent_id: SINGED,
                display_champion_id: SINGED,
                assigned_position: "top".to_string(),
                ..Default::default()
            },
        ],
        enemies: vec![PlayerSlot {
            champion_id: CAITLYN,
            display_champion_id: CAITLYN,
            assigned_position: String::new(),
            ..Default::default()
        }],
        enemies_locked: 1,
        allies_locked: 0,
        lane_enemy_id: None,
        ..Default::default()
    };

    let recs = recommend(&db, &catalog, &draft, &ctx);
    assert!(
        !recs.is_empty(),
        "second pick should still get recommendations"
    );
    assert!(
        recs.iter()
            .all(|r| r.champion_id != SINGED && r.champion_id != CAITLYN),
        "taken/off-role champs must stay out: {recs:?}"
    );
    let jinx_idx = recs.iter().position(|r| r.champion_id == JINX);
    let mf_idx = recs.iter().position(|r| r.champion_id == MISS_FORTUNE);
    assert!(
        jinx_idx.is_some(),
        "Jinx should counter inferred Caitlyn: {recs:?}"
    );
    if let (Some(j), Some(m)) = (jinx_idx, mf_idx) {
        assert!(
            j < m,
            "inferred lane counter should outrank the losing matchup"
        );
    }
    assert!(
        recs[0].reason.contains("Caitlyn") || recs[0].lane_delta.is_some(),
        "reason should reflect the already-selected enemy: {}",
        recs[0].reason
    );
}

#[test]
fn ally_hovers_are_not_recommended() {
    let mut db = StatsDb::open_memory();
    seed_adc_pool(&mut db);
    let catalog = test_catalog();
    let ctx = ctx_with_pickable(&[JINX, CAITLYN, MISS_FORTUNE]);
    let draft = DraftView {
        role: "bottom".to_string(),
        allies: vec![PlayerSlot {
            is_local: false,
            intent_id: JINX,
            display_champion_id: JINX,
            assigned_position: "bottom".to_string(),
            ..Default::default()
        }],
        ..Default::default()
    };
    let recs = recommend(&db, &catalog, &draft, &ctx);
    assert!(!recs.is_empty());
    assert!(
        recs.iter().all(|r| r.champion_id != JINX),
        "hovered ally Jinx should be treated as taken: {recs:?}"
    );
}

fn lane_mu(db: &mut StatsDb, champ: i64, enemy: i64, wr: f64) {
    db.upsert_matchup(
        champ,
        enemy,
        "bottom",
        "lane",
        "bottom",
        RANK,
        PATCH,
        &MatchupStat {
            winrate: bits(wr),
            games: 8_000,
            delta: Some(bits(wr - 50.0)),
        },
    ).unwrap();
}

#[test]
fn jinx_lock_surfaces_twitch_immediately() {
    let mut db = StatsDb::open_memory();
    seed_adc_pool(&mut db);
    lane_mu(&mut db, TWITCH, JINX, 55.0);
    lane_mu(&mut db, MISS_FORTUNE, JINX, 47.0);
    lane_mu(&mut db, CAITLYN, JINX, 48.0);
    let catalog = test_catalog();
    let ctx = ctx_with_pickable(&[TWITCH, MISS_FORTUNE, CAITLYN, SINGED]);
    let recs = recommend(&db, &catalog, &enemy_adc(JINX), &ctx);
    assert!(!recs.is_empty());
    assert_eq!(
        recs[0].champion_id, TWITCH,
        "Twitch should lead vs Jinx: {recs:?}"
    );
    assert!(
        recs[0].reason.contains("Jinx"),
        "reason should name Jinx: {}",
        recs[0].reason
    );
}

#[test]
fn later_enemy_that_beats_twitch_drops_him() {
    let mut db = StatsDb::open_memory();
    seed_adc_pool(&mut db);
    lane_mu(&mut db, TWITCH, JINX, 55.0);
    lane_mu(&mut db, MISS_FORTUNE, JINX, 51.0);
    db.upsert_matchup(
        TWITCH,
        SEJUANI,
        "bottom",
        "team",
        "jungle",
        RANK,
        PATCH,
        &MatchupStat {
            winrate: bits(40.0),
            games: 6_000,
            delta: Some(bits(-10.0)),
        },
    ).unwrap();
    db.upsert_matchup(
        MISS_FORTUNE,
        SEJUANI,
        "bottom",
        "team",
        "jungle",
        RANK,
        PATCH,
        &MatchupStat {
            winrate: bits(52.0),
            games: 6_000,
            delta: Some(bits(2.0)),
        },
    ).unwrap();
    let catalog = test_catalog();
    let ctx = ctx_with_pickable(&[TWITCH, MISS_FORTUNE]);
    let jinx_only = recommend(&db, &catalog, &enemy_adc(JINX), &ctx);
    let both = recommend(
        &db,
        &catalog,
        &DraftView {
            role: "bottom".to_string(),
            enemies: vec![
                PlayerSlot {
                    champion_id: JINX,
                    assigned_position: "bottom".to_string(),
                    display_champion_id: JINX,
                    ..Default::default()
                },
                PlayerSlot {
                    champion_id: SEJUANI,
                    assigned_position: "jungle".to_string(),
                    display_champion_id: SEJUANI,
                    ..Default::default()
                },
            ],
            enemies_locked: 2,
            lane_enemy_id: Some(JINX),
            ..Default::default()
        },
        &ctx,
    );
    let twitch_jinx = jinx_only.iter().position(|r| r.champion_id == TWITCH);
    let twitch_both = both.iter().position(|r| r.champion_id == TWITCH);
    let mf_both = both.iter().position(|r| r.champion_id == MISS_FORTUNE);
    assert!(twitch_jinx.is_some() && twitch_both.is_some() && mf_both.is_some());
    assert!(
        twitch_jinx.unwrap() <= twitch_both.unwrap(),
        "Twitch should not rise after a bad team matchup"
    );
    assert!(
        mf_both.unwrap() < twitch_both.unwrap(),
        "MF should outrank Twitch once Sejuani is in: {both:?}"
    );
}

#[test]
fn braum_synergy_raises_twitch() {
    let mut db = StatsDb::open_memory();
    seed_adc_pool(&mut db);
    lane_mu(&mut db, TWITCH, JINX, 52.0);
    lane_mu(&mut db, MISS_FORTUNE, JINX, 51.5);
    db.upsert_synergy(
        TWITCH,
        BRAUM,
        RANK,
        PATCH,
        &MatchupStat {
            winrate: bits(54.0),
            games: 9_000,
            delta: Some(bits(4.0)),
        },
    ).unwrap();
    db.upsert_synergy(
        MISS_FORTUNE,
        BRAUM,
        RANK,
        PATCH,
        &MatchupStat {
            winrate: bits(50.0),
            games: 9_000,
            delta: Some(bits(0.0)),
        },
    ).unwrap();
    let catalog = test_catalog();
    let ctx = ctx_with_pickable(&[TWITCH, MISS_FORTUNE]);
    let with_braum = DraftView {
        role: "bottom".to_string(),
        allies: vec![PlayerSlot {
            is_local: false,
            display_champion_id: BRAUM,
            assigned_position: "support".to_string(),
            ..Default::default()
        }],
        enemies: vec![PlayerSlot {
            champion_id: JINX,
            assigned_position: "bottom".to_string(),
            display_champion_id: JINX,
            ..Default::default()
        }],
        enemies_locked: 1,
        lane_enemy_id: Some(JINX),
        ..Default::default()
    };
    let recs = recommend(&db, &catalog, &with_braum, &ctx);
    assert_eq!(
        recs[0].champion_id, TWITCH,
        "Braum synergy should put Twitch first: {recs:?}"
    );
    assert!(
        recs[0].reason.contains("Braum") || recs[0].synergy_delta.is_some(),
        "reason should mention Braum: {}",
        recs[0].reason
    );
}

#[test]
fn role_stats_without_matchups_still_recommend() {
    let mut db = StatsDb::open_memory();
    seed_adc_pool(&mut db);
    let catalog = test_catalog();
    let ctx = ctx_with_pickable(&[TWITCH, MISS_FORTUNE, CAITLYN]);
    let recs = recommend(&db, &catalog, &enemy_adc(JINX), &ctx);
    assert!(
        !recs.is_empty(),
        "meta-only cache must still produce ADC recs"
    );
}

#[test]
fn mismatched_rank_patch_falls_back_to_cached_stats() {
    let mut db = StatsDb::open_memory();
    seed_adc_pool(&mut db);
    let catalog = test_catalog();
    let ctx = ScoreContext {
        rank: "gold_plus".to_string(),
        patch: "16.17".to_string(),
        owned_only: false,
        comfort_weighting: false,
        pickable: HashSet::new(),
        owned: HashSet::new(),
        mastery: HashMap::new(),
    };
    let recs = recommend(&db, &catalog, &empty_draft(), &ctx);
    assert!(!recs.is_empty(), "should use fallback stats key: {recs:?}");
}

#[test]
fn nami_lock_surfaces_thresh_for_support() {
    let mut db = StatsDb::open_memory();
    seed_support_pool(&mut db);
    support_lane_mu(&mut db, THRESH, NAMI, 55.0);
    support_lane_mu(&mut db, LULU, NAMI, 47.0);
    support_lane_mu(&mut db, JANNA, NAMI, 48.0);
    let catalog = test_catalog();
    let ctx = ctx_with_pickable(&[THRESH, LULU, JANNA, BRAUM]);
    let recs = recommend(
        &db,
        &catalog,
        &DraftView {
            role: "support".to_string(),
            enemies: vec![PlayerSlot {
                champion_id: NAMI,
                assigned_position: "support".to_string(),
                display_champion_id: NAMI,
                ..Default::default()
            }],
            enemies_locked: 1,
            lane_enemy_id: Some(NAMI),
            ..Default::default()
        },
        &ctx,
    );
    assert!(!recs.is_empty());
    assert_eq!(
        recs[0].champion_id, THRESH,
        "Thresh should lead vs Nami: {recs:?}"
    );
    assert!(
        recs[0].reason.contains("Nami"),
        "reason should name Nami: {}",
        recs[0].reason
    );
}

#[test]
fn local_support_lock_does_not_empty_recs() {
    let mut db = StatsDb::open_memory();
    seed_support_pool(&mut db);
    support_lane_mu(&mut db, THRESH, NAMI, 54.0);
    support_lane_mu(&mut db, LULU, NAMI, 52.0);
    let catalog = test_catalog();
    let ctx = ctx_with_pickable(&[JANNA]);
    let recs = recommend(&db, &catalog, &local_locked_support(JANNA, NAMI), &ctx);
    assert!(
        !recs.is_empty(),
        "after locking Janna, other supports must still rank: {recs:?}"
    );
    assert!(
        recs.iter().all(|r| r.champion_id != JANNA),
        "locked local Janna should not be recommended: {recs:?}"
    );
}

#[test]
fn utility_role_alias_still_recommends_supports() {
    let mut db = StatsDb::open_memory();
    seed_support_pool(&mut db);
    let catalog = test_catalog();
    let ctx = ctx_with_pickable(&[THRESH, LULU, JANNA]);
    let recs = recommend(
        &db,
        &catalog,
        &DraftView {
            role: "utility".to_string(),
            enemies: vec![PlayerSlot {
                champion_id: NAMI,
                assigned_position: "utility".to_string(),
                display_champion_id: NAMI,
                ..Default::default()
            }],
            enemies_locked: 1,
            ..Default::default()
        },
        &ctx,
    );
    assert!(
        !recs.is_empty(),
        "LCU utility must map to support stats: {recs:?}"
    );
    assert!(recs.iter().all(|r| {
        r.champion_id == THRESH
            || r.champion_id == LULU
            || r.champion_id == JANNA
            || r.champion_id == BRAUM
    }));
}

#[test]
fn a_big_win_rate_on_a_thin_sample_loses_to_a_proven_one() {
    let mut db = StatsDb::open_memory();
    // Raw deltas would put Twitch (+6.0) miles ahead of Jinx (+3.0).
    db.upsert_role_stat(TWITCH, "bottom", RANK, PATCH, &bot_meta(56.0, 200, 80.0)).unwrap();
    db.upsert_role_stat(JINX, "bottom", RANK, PATCH, &bot_meta(53.0, 80_000, 96.0)).unwrap();
    db.upsert_role_stat(
        CAITLYN,
        "bottom",
        RANK,
        PATCH,
        &bot_meta(52.0, 100_000, 98.0),
    ).unwrap();
    db.upsert_role_stat(
        MISS_FORTUNE,
        "bottom",
        RANK,
        PATCH,
        &bot_meta(51.5, 90_000, 90.0),
    ).unwrap();

    let catalog = test_catalog();
    let ctx = ctx_with_pickable(&[TWITCH, JINX, CAITLYN, MISS_FORTUNE]);
    let recs = recommend(&db, &catalog, &empty_draft(), &ctx);
    let twitch = recs
        .iter()
        .position(|r| r.champion_id == TWITCH)
        .expect("twitch ranked");
    let jinx = recs
        .iter()
        .position(|r| r.champion_id == JINX)
        .expect("jinx ranked");
    assert!(
        jinx < twitch,
        "200 games at 56% must not outrank 80k games at 53%: {recs:?}"
    );
}

#[test]
fn niche_off_role_pick_loses_to_a_native_at_equal_win_rate() {
    let mut db = StatsDb::open_memory();
    seed_jungle_pool(&mut db);
    let catalog = test_catalog();
    let ctx = ctx_with_pickable(&[ZYRA, SEJUANI, WUKONG]);
    let recs = recommend(&db, &catalog, &jungle_draft(), &ctx);
    let zyra = recs
        .iter()
        .position(|r| r.champion_id == ZYRA)
        .expect("zyra ranked");
    let sejuani = recs
        .iter()
        .position(|r| r.champion_id == SEJUANI)
        .expect("sejuani ranked");
    assert!(
        sejuani < zyra,
        "at the same win rate the jungle native should lead the visiting one-trick pick: {recs:?}"
    );
    let zyra_reason = &recs[zyra].reason;
    assert!(
        zyra_reason.contains("niche jungle pick"),
        "the discount should be explained on the card: {zyra_reason}"
    );
}

#[test]
fn a_one_trick_keeps_their_niche_pick() {
    let mut db = StatsDb::open_memory();
    seed_jungle_pool(&mut db);
    let catalog = test_catalog();

    let ctx = ctx_with_pickable(&[ZYRA, SEJUANI, WUKONG]);
    let stranger = recommend(&db, &catalog, &jungle_draft(), &ctx);

    let mut ctx = ctx_with_pickable(&[ZYRA, SEJUANI, WUKONG]);
    ctx.mastery.insert(ZYRA, (7, 1_000_000));
    let one_trick = recommend(&db, &catalog, &jungle_draft(), &ctx);

    // Comfort alone tops out at the empty-draft comfort weight, so anything
    // above that is the specialist discount being cancelled.
    let gained = score_of(&one_trick, ZYRA) - score_of(&stranger, ZYRA);
    assert!(
        gained > 0.05,
        "mastery should lift Zyra by more than the comfort term alone, gained {gained}"
    );
    assert_eq!(
        one_trick[0].champion_id, ZYRA,
        "a Zyra one-trick should get Zyra back: {one_trick:?}"
    );
}


#[test]
fn the_rare_native_pick_explains_itself_on_the_card() {
    let mut db = StatsDb::open_memory();
    seed_taric_support_pool(&mut db);
    let catalog = test_catalog();
    let ctx = ctx_with_pickable(&[TARIC, LEONA, BRAUM]);
    let recs = recommend(&db, &catalog, &support_draft(), &ctx);
    let taric = recs
        .iter()
        .find(|r| r.champion_id == TARIC)
        .expect("taric ranked");
    assert!(
        taric.reason.contains("niche support pick"),
        "a 1.3% pick rate should be called out: {}",
        taric.reason
    );
    let leona = recs
        .iter()
        .find(|r| r.champion_id == LEONA)
        .expect("leona ranked");
    assert!(
        !leona.reason.contains("niche"),
        "an 8.5% pick rate is not a one-trick pick: {}",
        leona.reason
    );
}


#[test]
fn mastery_moves_a_score_by_a_visible_amount() {
    let mut db = StatsDb::open_memory();
    seed_support_pool(&mut db);
    let catalog = test_catalog();
    let pool = [BRAUM, JANNA, LULU, NAMI, THRESH];

    let before = score_of(
        &recommend(&db, &catalog, &support_draft(), &ctx_with_pickable(&pool)),
        BRAUM,
    );

    let mut ctx = ctx_with_pickable(&pool);
    ctx.mastery.insert(BRAUM, (7, 500_000));
    let after = score_of(&recommend(&db, &catalog, &support_draft(), &ctx), BRAUM);

    let gained = after - before;
    assert!(
        gained > 0.04,
        "a maxed champion should gain close to the full comfort weight, gained {gained}"
    );
}

#[test]
fn recommendations_carry_the_sample_behind_the_win_rate() {
    let mut db = StatsDb::open_memory();
    seed_jungle_pool(&mut db);
    let catalog = test_catalog();
    let ctx = ctx_with_pickable(&[ZYRA, SEJUANI, WUKONG]);
    let recs = recommend(&db, &catalog, &jungle_draft(), &ctx);
    let zyra = recs
        .iter()
        .find(|r| r.champion_id == ZYRA)
        .expect("zyra ranked");
    assert_eq!(zyra.meta_games, Some(28_762));
    assert_eq!(zyra.meta_pickrate, Some(bits(1.39)));
}

fn ids_and_scores(recs: &[Recommendation]) -> Vec<(i64, Real, String)> {
    recs.iter().map(|r| (r.champion_id, r.score, r.reason.clone())).collect()
}

#[test]
fn mastery_counts_only_where_it_is_wanted() {
    let mut db = StatsDb::open_memory();
    seed_support_pool(&mut db);
    let catalog = test_catalog();
    let pool = [BRAUM, JANNA, LULU, NAMI, THRESH];
    let mut ctx = ctx_with_pickable(&pool);
    ctx.comfort_weighting = false;
    let before = recommend(&db, &catalog, &support_draft(), &ctx);
    ctx.mastery.insert(BRAUM, (7, 500_000));
    ctx.mastery.insert(LULU, (1, 10));
    let after = recommend(&db, &catalog, &support_draft(), &ctx);
    assert_eq!(before.len(), 5);
    assert_eq!(ids_and_scores(&before), ids_and_scores(&after));
}

#[test]
fn mastery_moves_no_other_champion() {
    let mut db = StatsDb::open_memory();
    seed_support_pool(&mut db);
    let catalog = test_catalog();
    let pool = [BRAUM, JANNA, LULU, NAMI, THRESH];
    let mut ctx = ctx_with_pickable(&pool);
    let before = recommend(&db, &catalog, &support_draft(), &ctx);
    ctx.mastery.insert(BRAUM, (7, 500_000));
    let after = recommend(&db, &catalog, &support_draft(), &ctx);
    for id in [JANNA, LULU, NAMI, THRESH] {
        assert_eq!(score_of(&before, id), score_of(&after, id));
    }
    assert!(score_of(&before, BRAUM) < score_of(&after, BRAUM));
}

/// Scores Jinx at nothing that is a number, and the others by their win rate.
fn oddly(plan: &Plan, c: &Candidate) -> Appraisal {
    let mut appraisal = appraise(plan, c);
    appraisal.score = if c.champion_id == JINX { bits(f64::NAN) } else { c.meta.winrate };
    appraisal
}

#[test]
fn a_score_that_is_no_number_leaves_it_to_the_games() {
    let catalog = test_catalog();
    let order = |jinx_games: i64| -> Vec<i64> {
        let mut db = StatsDb::open_memory();
        db.upsert_role_stat(JINX, "bottom", RANK, PATCH, &bot_meta(51.0, jinx_games, 96.0)).unwrap();
        db.upsert_role_stat(CAITLYN, "bottom", RANK, PATCH, &bot_meta(60.0, 11_000, 98.0)).unwrap();
        let ctx = ctx_with_pickable(&[JINX, CAITLYN]);
        engine::recommend(&db, &catalog, &empty_draft(), &ctx, oddly)
            .iter()
            .map(|r| r.champion_id)
            .collect()
    };
    assert_eq!(order(12_000), [JINX, CAITLYN]);
    assert_eq!(order(10_000), [CAITLYN, JINX]);
}

#[test]
fn owned_champions_are_shown_where_none_can_be_picked() {
    let mut db = StatsDb::open_memory();
    seed_adc_pool(&mut db);
    let catalog = test_catalog();
    let mut ctx = ctx_with_pickable(&[SINGED]);
    ctx.owned_only = true;
    ctx.owned.insert(TWITCH);
    let recs = recommend(&db, &catalog, &empty_draft(), &ctx);
    assert_eq!(recs.iter().map(|r| r.champion_id).collect::<Vec<_>>(), [TWITCH]);
}
