//! Filling the cache from what Lolalytics answers.
use crate::clock::{
    has_plain_year, moment_of, parse_moment, stamp_of, write_moment, Moment, EARLIEST, LATEST,
};
use crate::json::{named_trees, num_field, str_field, trees, Json, Tree};
use crate::models::{normalize_role, role_name, Progress};
use crate::number::{Real, FIFTY, ZERO};
use crate::stats::qwik::{EnemyTables, MatchupRow as TableRow};
use crate::stats::cache::{
    after_all, law_note_read_back, matchup_change, role_change, synergy_change,
    Cache,
};
use crate::stats::rows::{
    all_storable, change_views, written, Change, ChangeView, MatchupRow, MatchupStat, RoleMeta,
    RoleMetaView, RoleRow, StoreError, SynergyRow, STATS_SCHEMA,
};
use crate::stats::store::StatsDb;
use crate::text::{integer, is_same, parse_i64, same};
use vstd::prelude::*;

verus! {

/// How many champions of a role the matchups are fetched for.
pub const POOL_SIZE: usize = 40;

/// How far the work has come.
#[derive(Debug)]
pub struct IngestProgress {
    pub message: String,
    pub progress: Progress,
}

// --------------------------------------------------------- the role tables

/// The first value that is there, else `otherwise`.
pub open spec fn value_or(value: Option<Real>, otherwise: u64) -> Real {
    match value {
        Some(x) => x,
        None => Real { bits: otherwise },
    }
}

fn real_or(value: Option<Real>, otherwise: u64) -> (x: Real)
    ensures
        x == value_or(value, otherwise),
{
    match value {
        Some(x) => x,
        None => Real { bits: otherwise },
    }
}

/// The whole number under `key`; 0 where there is none.
pub open spec fn count_under(stats: Tree, key: Seq<char>) -> i64 {
    value_or(stats.field_value(key), ZERO).whole() as i64
}

fn count_field(stats: &Json, key: &str) -> (n: i64)
    ensures
        n == count_under(stats@, key@),
{
    real_or(num_field(stats, key), ZERO).to_i64()
}

/// How a champion does in `role`, by its entry in the role's table.
pub open spec fn meta_of(stats: Tree, role: Seq<char>) -> RoleMetaView {
    RoleMetaView {
        winrate: value_or(stats.field_value("wr"@), FIFTY),
        pickrate: value_or(stats.field_value("pr"@), ZERO),
        banrate: value_or(stats.field_value("br"@), ZERO),
        games: count_under(stats, "games"@),
        pct_lane: match stats.field_value("pctLane"@) {
            Some(x) => x,
            None => value_or(stats.field_value("pct_lane"@), ZERO),
        },
        default_lane: match stats.field_text("defaultLane"@) {
            Some(lane) => lane_or(lane, role),
            None => match stats.field_text("default_lane"@) {
                Some(lane) => lane_or(lane, role),
                None => role,
            },
        },
    }
}

/// The role that a lane is for; `role` where it says nothing.
pub open spec fn lane_or(lane: Seq<char>, role: Seq<char>) -> Seq<char> {
    if lane.len() == 0 {
        role
    } else {
        role_name(lane)
    }
}

fn read_lane(lane: &String, role: &str) -> (r: String)
    ensures
        r@ == lane_or(lane@, role@),
{
    if lane.as_str().is_empty() {
        role.to_string()
    } else {
        normalize_role(lane)
    }
}

/// How a champion does in `role`, by its entry in the role's table.
pub fn read_meta(stats: &Json, role: &str) -> (meta: RoleMeta)
    ensures
        meta@ == meta_of(stats@, role@),
{
    let default_lane = match str_field(stats, "defaultLane") {
        Some(lane) => read_lane(&lane, role),
        None => match str_field(stats, "default_lane") {
            Some(lane) => read_lane(&lane, role),
            None => role.to_string(),
        },
    };
    let pct_lane = match num_field(stats, "pctLane") {
        Some(x) => x,
        None => real_or(num_field(stats, "pct_lane"), ZERO),
    };
    RoleMeta {
        winrate: real_or(num_field(stats, "wr"), FIFTY),
        pickrate: real_or(num_field(stats, "pr"), ZERO),
        banrate: real_or(num_field(stats, "br"), ZERO),
        games: count_field(stats, "games"),
        pct_lane,
        default_lane,
    }
}

/// The entry of a table: a champion's number, and at least 80 games.
pub open spec fn entry_of(member: (Seq<char>, Tree), role: Seq<char>) -> Option<
    (i64, RoleMetaView),
> {
    match integer(member.0) {
        Some(id) => if 0 < id <= i64::MAX && meta_of(member.1, role).games >= 80 {
            Some((id as i64, meta_of(member.1, role)))
        } else {
            None
        },
        None => None,
    }
}

/// The entries of a table that count, in order.
pub open spec fn entries_in(members: Seq<(Seq<char>, Tree)>, role: Seq<char>) -> Seq<
    (i64, RoleMetaView),
>
    decreases members.len(),
{
    if members.len() == 0 {
        Seq::empty()
    } else {
        let before = entries_in(members.drop_last(), role);
        match entry_of(members.last(), role) {
            Some(entry) => before.push(entry),
            None => before,
        }
    }
}

/// The entries of a role's table.
pub open spec fn entries_of(list: Tree, role: Seq<char>) -> Seq<(i64, RoleMetaView)> {
    match list.field("cid"@) {
        Some(table) => match table.members() {
            Some(members) => entries_in(members, role),
            None => Seq::empty(),
        },
        None => Seq::empty(),
    }
}

/// Writing the entries of a role's table.
pub open spec fn entry_changes(
    entries: Seq<(i64, RoleMetaView)>,
    role: Seq<char>,
    rank: Seq<char>,
    patch: Seq<char>,
) -> Seq<ChangeView> {
    Seq::new(
        entries.len(),
        |i: int| role_change(entries[i].0, role, rank, patch, entries[i].1),
    )
}

/// The list with one more champion, behind all with as many games or more.
pub open spec fn insert_by_games(list: Seq<(i64, i64)>, item: (i64, i64)) -> Seq<(i64, i64)>
    decreases list.len(),
{
    if list.len() == 0 || list.last().1 >= item.1 {
        list.push(item)
    } else {
        insert_by_games(list.drop_last(), item).push(list.last())
    }
}

/// The champions of the entries that are played in the role, with their games,
/// most games first.
pub open spec fn by_games(entries: Seq<(i64, RoleMetaView)>, role: Seq<char>) -> Seq<(i64, i64)>
    decreases entries.len(),
{
    if entries.len() == 0 {
        Seq::empty()
    } else {
        let before = by_games(entries.drop_last(), role);
        let (id, meta) = entries.last();
        if meta.in_pool(role) {
            insert_by_games(before, (id, meta.games))
        } else {
            before
        }
    }
}

/// The champions that the matchups are fetched for: those with the most games.
pub open spec fn pool_of(entries: Seq<(i64, RoleMetaView)>, role: Seq<char>) -> Seq<i64> {
    let ranked = by_games(entries, role);
    Seq::new(
        if ranked.len() < POOL_SIZE {
            ranked.len()
        } else {
            POOL_SIZE as nat
        },
        |i: int| ranked[i].0,
    )
}

fn insert_ranked(list: &mut Vec<(i64, i64)>, item: (i64, i64))
    ensures
        final(list)@ == insert_by_games(old(list)@, item),
{
    let mut at = list.len();
    let ghost all = list@;
    let ghost tail = Seq::<(i64, i64)>::empty();
    assert(all.take(at as int) =~= all);
    assert(insert_by_games(all.take(at as int), item) + tail =~= insert_by_games(all, item));
    while at > 0 && list[at - 1].1 < item.1
        invariant
            list@ == all,
            at <= all.len(),
            tail == all.subrange(at as int, all.len() as int),
            insert_by_games(all.take(at as int), item) + tail == insert_by_games(all, item),
        decreases at,
    {
        proof {
            let part = all.take(at as int);
            assert(part.drop_last() =~= all.take(at - 1));
            let longer = all.subrange(at - 1, all.len() as int);
            assert(insert_by_games(part, item) + tail =~= insert_by_games(
                all.take(at - 1),
                item,
            ) + longer);
            tail = longer;
        }
        at -= 1;
    }
    list.insert(at, item);
    assert(list@ =~= all.take(at as int).push(item) + tail);
}

/// The entries of a role's table, written to the cache; the champions that the
/// matchups are fetched for are handed back. A rate that is not a number ends it.
pub fn store_role_table(db: &mut StatsDb, list: &Json, role: &str, rank: &str, patch: &str) -> (ids:
    Result<Vec<i64>, StoreError>)
    ensures
        ({
            let changes = entry_changes(entries_of(list@, role@), role@, rank@, patch@);
            &&& final(db)@ == after_all(old(db)@, written(changes))
            &&& final(db).pending() == old(db).pending() + written(changes)
            &&& ids is Ok <==> all_storable(changes)
            &&& ids matches Ok(ids) ==> ids@ == pool_of(entries_of(list@, role@), role@)
        }),
        old(db)@.tidy() ==> final(db)@.tidy(),
{
    let mut changes: Vec<Change> = Vec::new();
    let mut ranked: Vec<(i64, i64)> = Vec::new();
    let ghost entries = Seq::<(i64, RoleMetaView)>::empty();
    assert(change_views(changes@) =~= entry_changes(entries, role@, rank@, patch@));
    if let Some(table) = list.get("cid") {
        if let Some(members) = table.as_object() {
            let ghost all = named_trees(members@);
            for i in 0..members.len()
                invariant
                    all == named_trees(members@),
                    entries == entries_in(all.take(i as int), role@),
                    change_views(changes@) == entry_changes(entries, role@, rank@, patch@),
                    ranked@ == by_games(entries, role@),
            {
                let member = &members[i];
                assert(all.take(i + 1).drop_last() =~= all.take(i as int));
                assert(all.take(i + 1).last() == (member.0@, member.1@));
                let id = match parse_i64(&member.0) {
                    Some(n) => n,
                    None => 0,
                };
                let meta = read_meta(&member.1, role);
                if id > 0 && meta.games >= 80 {
                    let ghost before = entries;
                    proof {
                        entries = entries.push((id, meta@));
                        assert(entries.drop_last() =~= before);
                    }
                    if meta.in_role_pool(role) {
                        insert_ranked(&mut ranked, (id, meta.games));
                    }
                    let ghost so_far = change_views(changes@);
                    changes.push(
                        Change::Role {
                            champion_id: id,
                            role: RoleRow {
                                role: role.to_string(),
                                rank: rank.to_string(),
                                patch: patch.to_string(),
                                meta,
                            },
                        },
                    );
                    assert(change_views(changes@) =~= so_far.push(
                        role_change(id, role@, rank@, patch@, meta@),
                    ));
                    assert(change_views(changes@) =~= entry_changes(
                        entries,
                        role@,
                        rank@,
                        patch@,
                    ));
                }
            }
            assert(all.take(all.len() as int) =~= all);
        }
    }
    assert(entries == entries_of(list@, role@));
    if let Err(error) = db.apply_all(&changes) {
        return Err(error);
    }
    let mut ids: Vec<i64> = Vec::new();
    let count = if ranked.len() < POOL_SIZE {
        ranked.len()
    } else {
        POOL_SIZE
    };
    for i in 0..count
        invariant
            count <= ranked@.len(),
            ids@.len() == i,
            forall|k: int| 0 <= k < i ==> ids@[k] == (#[trigger] ranked@[k]).0,
    {
        ids.push(ranked[i].0);
    }
    assert(ids@ =~= pool_of(entries, role@));
    Ok(ids)
}

// --------------------------------------------------------- the matchups

/// The rows of the lists, in order; anything but a list is passed over.
pub open spec fn listed_rows(members: Seq<(Seq<char>, Tree)>) -> Seq<Tree>
    decreases members.len(),
{
    if members.len() == 0 {
        Seq::empty()
    } else {
        let before = listed_rows(members.drop_last());
        match members.last().1.items() {
            Some(rows) => before + rows,
            None => before,
        }
    }
}

/// The rows of a table of matchups, which comes as one list or as several under
/// names.
pub open spec fn counters_of(payload: Tree) -> Seq<Tree> {
    match payload.field("counters"@) {
        Some(counters) => match counters.items() {
            Some(rows) => rows,
            None => match counters.members() {
                Some(members) => listed_rows(members),
                None => Seq::empty(),
            },
        },
        None => Seq::empty(),
    }
}

/// The trees of borrowed documents.
pub open spec fn borrowed_trees(rows: Seq<&Json>) -> Seq<Tree> {
    Seq::new(rows.len(), |i: int| rows[i]@)
}

fn add_rows<'a>(rows: &mut Vec<&'a Json>, items: &'a Vec<Json>)
    ensures
        borrowed_trees(final(rows)@) == borrowed_trees(old(rows)@) + trees(items@),
{
    for i in 0..items.len()
        invariant
            borrowed_trees(rows@) == borrowed_trees(old(rows)@) + trees(items@.take(i as int)),
    {
        let ghost before = borrowed_trees(rows@);
        rows.push(&items[i]);
        assert(borrowed_trees(rows@) =~= before.push(items@[i as int]@));
        assert(borrowed_trees(rows@) =~= borrowed_trees(old(rows)@) + trees(items@.take(i + 1)));
    }
    assert(items@.take(items@.len() as int) =~= items@);
}

/// The rows of a table of matchups.
pub fn counter_rows(payload: &Json) -> (rows: Vec<&Json>)
    ensures
        borrowed_trees(rows@) == counters_of(payload@),
{
    let mut rows: Vec<&Json> = Vec::new();
    assert(borrowed_trees(rows@) =~= Seq::empty());
    let counters = match payload.get("counters") {
        Some(counters) => counters,
        None => {
            return rows;
        },
    };
    if let Some(items) = counters.as_array() {
        add_rows(&mut rows, items);
        assert(borrowed_trees(rows@) =~= trees(items@));
        return rows;
    }
    if let Some(members) = counters.as_object() {
        let ghost all = named_trees(members@);
        for i in 0..members.len()
            invariant
                all == named_trees(members@),
                borrowed_trees(rows@) == listed_rows(all.take(i as int)),
        {
            assert(all.take(i + 1).drop_last() =~= all.take(i as int));
            assert(all.take(i + 1).last().1 == members@[i as int].1@);
            if let Some(items) = members[i].1.as_array() {
                add_rows(&mut rows, items);
            }
        }
        assert(all.take(all.len() as int) =~= all);
    }
    rows
}

/// The matchup of a row: an enemy's number, and at least 40 games.
pub open spec fn counter_of(row: Tree) -> Option<(i64, MatchupStat)> {
    let enemy_id = count_under(row, "cid"@);
    let games = count_under(row, "n"@);
    if enemy_id > 0 && games >= 40 {
        Some(
            (
                enemy_id,
                MatchupStat {
                    winrate: value_or(row.field_value("vsWr"@), FIFTY),
                    games,
                    delta: row.field_value("d1"@),
                },
            ),
        )
    } else {
        None
    }
}

/// The kind of a matchup: in the lane against the own role, else of the team.
pub open spec fn kind_of(role: Seq<char>, vs_role: Seq<char>) -> Seq<char> {
    if vs_role == role {
        "lane"@
    } else {
        "team"@
    }
}

fn matchup_kind(role: &str, vs_role: &str) -> (kind: String)
    ensures
        kind@ == kind_of(role@, vs_role@),
{
    if same(vs_role, role) {
        "lane".to_string()
    } else {
        "team".to_string()
    }
}

/// Writing the matchups of the rows.
pub open spec fn counter_changes(
    rows: Seq<Tree>,
    champ_id: i64,
    role: Seq<char>,
    vs_role: Seq<char>,
    rank: Seq<char>,
    patch: Seq<char>,
) -> Seq<ChangeView>
    decreases rows.len(),
{
    if rows.len() == 0 {
        Seq::empty()
    } else {
        let before = counter_changes(rows.drop_last(), champ_id, role, vs_role, rank, patch);
        match counter_of(rows.last()) {
            Some((enemy_id, stat)) => before.push(
                matchup_change(
                    champ_id,
                    enemy_id,
                    role,
                    kind_of(role, vs_role),
                    vs_role,
                    rank,
                    patch,
                    stat,
                ),
            ),
            None => before,
        }
    }
}

fn push_matchup(
    changes: &mut Vec<Change>,
    champion_id: i64,
    enemy_id: i64,
    role: &str,
    kind: &str,
    vs_role: &str,
    rank: &str,
    patch: &str,
    stat: MatchupStat,
)
    ensures
        change_views(final(changes)@) == change_views(old(changes)@).push(
            matchup_change(champion_id, enemy_id, role@, kind@, vs_role@, rank@, patch@, stat),
        ),
{
    changes.push(
        Change::Matchup {
            champion_id,
            matchup: MatchupRow {
                enemy_id,
                role: role.to_string(),
                kind: kind.to_string(),
                vs_role: vs_role.to_string(),
                rank: rank.to_string(),
                patch: patch.to_string(),
                stat,
            },
        },
    );
    assert(change_views(changes@) =~= change_views(old(changes)@).push(
        matchup_change(champion_id, enemy_id, role@, kind@, vs_role@, rank@, patch@, stat),
    ));
}

fn push_synergy(
    changes: &mut Vec<Change>,
    champion_id: i64,
    ally_id: i64,
    rank: &str,
    patch: &str,
    stat: MatchupStat,
)
    ensures
        change_views(final(changes)@) == change_views(old(changes)@).push(
            synergy_change(champion_id, ally_id, rank@, patch@, stat),
        ),
{
    changes.push(
        Change::Synergy {
            champion_id,
            synergy: SynergyRow {
                ally_id,
                rank: rank.to_string(),
                patch: patch.to_string(),
                stat,
            },
        },
    );
    assert(change_views(changes@) =~= change_views(old(changes)@).push(
        synergy_change(champion_id, ally_id, rank@, patch@, stat),
    ));
}

/// The matchups of a table, written to the cache; says how many there were. A rate
/// that is not a number ends it.
pub fn store_counter_json(
    db: &mut StatsDb,
    champ_id: i64,
    role: &str,
    vs_role: &str,
    rank: &str,
    patch: &str,
    payload: &Json,
) -> (stored: Result<usize, StoreError>)
    ensures
        ({
            let changes = counter_changes(
                counters_of(payload@),
                champ_id,
                role@,
                vs_role@,
                rank@,
                patch@,
            );
            &&& final(db)@ == after_all(old(db)@, written(changes))
            &&& final(db).pending() == old(db).pending() + written(changes)
            &&& stored is Ok <==> all_storable(changes)
            &&& stored matches Ok(n) ==> n == changes.len()
        }),
        old(db)@.tidy() ==> final(db)@.tidy(),
{
    let rows = counter_rows(payload);
    let kind = matchup_kind(role, vs_role);
    let ghost all = borrowed_trees(rows@);
    let mut changes: Vec<Change> = Vec::new();
    assert(change_views(changes@) =~= Seq::empty());
    for i in 0..rows.len()
        invariant
            all == borrowed_trees(rows@),
            kind@ == kind_of(role@, vs_role@),
            change_views(changes@) == counter_changes(
                all.take(i as int),
                champ_id,
                role@,
                vs_role@,
                rank@,
                patch@,
            ),
    {
        let row = rows[i];
        assert(all.take(i + 1).drop_last() =~= all.take(i as int));
        assert(all.take(i + 1).last() == row@);
        let enemy_id = count_field(row, "cid");
        let games = count_field(row, "n");
        if enemy_id > 0 && games >= 40 {
            let stat = MatchupStat {
                winrate: real_or(num_field(row, "vsWr"), FIFTY),
                games,
                delta: num_field(row, "d1"),
            };
            push_matchup(
                &mut changes,
                champ_id,
                enemy_id,
                role,
                &kind,
                vs_role,
                rank,
                patch,
                stat,
            );
        }
    }
    assert(all.take(all.len() as int) =~= all);
    assert(change_views(changes@).len() == changes@.len());
    match db.apply_all(&changes) {
        Ok(_) => Ok(changes.len()),
        Err(error) => Err(error),
    }
}

// --------------------------------------------------------- the synergies

/// The pairing of a row: at least six cells, and the number of the other
/// champion.
pub open spec fn pair_of(row: Tree) -> Option<(i64, MatchupStat)> {
    match row.items() {
        Some(cells) => if cells.len() < 6 {
            None
        } else {
            match cells[0].whole() {
                Some(id) => if id > 0 {
                    Some(
                        (
                            id,
                            MatchupStat {
                                winrate: value_or(cells[1].value(), FIFTY),
                                games: match cells[5].whole() {
                                    Some(n) => n,
                                    None => 0,
                                },
                                delta: cells[2].value(),
                            },
                        ),
                    )
                } else {
                    None
                },
                None => None,
            }
        },
        None => None,
    }
}

fn read_pair(row: &Json) -> (pair: Option<(i64, MatchupStat)>)
    ensures
        pair == pair_of(row@),
{
    let cells = match row.as_array() {
        Some(cells) => cells,
        None => {
            return None;
        },
    };
    if cells.len() < 6 {
        return None;
    }
    assert(trees(cells@)[0] == cells@[0]@);
    assert(trees(cells@)[1] == cells@[1]@);
    assert(trees(cells@)[2] == cells@[2]@);
    assert(trees(cells@)[5] == cells@[5]@);
    match cells[0].as_i64() {
        Some(id) => {
            if id > 0 {
                let games = match cells[5].as_i64() {
                    Some(n) => n,
                    None => 0,
                };
                let winrate = real_or(cells[1].as_value(), FIFTY);
                Some((id, MatchupStat { winrate, games, delta: cells[2].as_value() }))
            } else {
                None
            }
        },
        None => None,
    }
}

/// Writing the pairings of the rows: as synergies, or as matchups of a kind
/// against no role in particular.
pub open spec fn pair_changes(
    rows: Seq<Tree>,
    champ_id: i64,
    role: Seq<char>,
    mode: Seq<char>,
    rank: Seq<char>,
    patch: Seq<char>,
    synergy: bool,
) -> Seq<ChangeView>
    decreases rows.len(),
{
    if rows.len() == 0 {
        Seq::empty()
    } else {
        let before = pair_changes(rows.drop_last(), champ_id, role, mode, rank, patch, synergy);
        match pair_of(rows.last()) {
            Some((other_id, stat)) => before.push(
                if synergy {
                    synergy_change(champ_id, other_id, rank, patch, stat)
                } else {
                    matchup_change(
                        champ_id,
                        other_id,
                        role,
                        mode,
                        Seq::empty(),
                        rank,
                        patch,
                        stat,
                    )
                },
            ),
            None => before,
        }
    }
}

/// Writing the pairings of a list; nothing where it is no list.
pub open spec fn list_changes(
    rows: Tree,
    champ_id: i64,
    role: Seq<char>,
    mode: Seq<char>,
    rank: Seq<char>,
    patch: Seq<char>,
    synergy: bool,
) -> Seq<ChangeView> {
    match rows.items() {
        Some(items) => pair_changes(items, champ_id, role, mode, rank, patch, synergy),
        None => Seq::empty(),
    }
}

fn collect_rows(
    changes: &mut Vec<Change>,
    champ_id: i64,
    role: &str,
    mode: &str,
    rank: &str,
    patch: &str,
    rows: &Json,
    synergy: bool,
)
    ensures
        change_views(final(changes)@) == change_views(old(changes)@) + list_changes(
            rows@,
            champ_id,
            role@,
            mode@,
            rank@,
            patch@,
            synergy,
        ),
{
    let ghost before = change_views(changes@);
    assert(before + Seq::<ChangeView>::empty() =~= before);
    if let Some(items) = rows.as_array() {
        let ghost all = trees(items@);
        for i in 0..items.len()
            invariant
                all == trees(items@),
                change_views(changes@) == before + pair_changes(
                    all.take(i as int),
                    champ_id,
                    role@,
                    mode@,
                    rank@,
                    patch@,
                    synergy,
                ),
        {
            let row = &items[i];
            let ghost so_far = change_views(changes@);
            assert(all.take(i + 1).drop_last() =~= all.take(i as int));
            assert(all.take(i + 1).last() == row@);
            if let Some((other_id, stat)) = read_pair(row) {
                if synergy {
                    push_synergy(changes, champ_id, other_id, rank, patch, stat);
                } else {
                    let no_role = String::new();
                    push_matchup(
                        changes,
                        champ_id,
                        other_id,
                        role,
                        mode,
                        &no_role,
                        rank,
                        patch,
                        stat,
                    );
                }
            }
            assert(change_views(changes@) =~= before + pair_changes(
                all.take(i + 1),
                champ_id,
                role@,
                mode@,
                rank@,
                patch@,
                synergy,
            ));
        }
        assert(all.take(all.len() as int) =~= all);
    }
}

/// The pairings of a list, written to the cache: as synergies, or as matchups of
/// a kind against no role in particular. A rate that is not a number ends it.
pub fn store_rows(
    db: &mut StatsDb,
    champ_id: i64,
    role: &str,
    mode: &str,
    rank: &str,
    patch: &str,
    rows: &Json,
    synergy: bool,
) -> (result: Result<(), StoreError>)
    ensures
        ({
            let changes = list_changes(rows@, champ_id, role@, mode@, rank@, patch@, synergy);
            &&& final(db)@ == after_all(old(db)@, written(changes))
            &&& final(db).pending() == old(db).pending() + written(changes)
            &&& result is Ok <==> all_storable(changes)
        }),
        old(db)@.tidy() ==> final(db)@.tidy(),
{
    let mut changes: Vec<Change> = Vec::new();
    collect_rows(&mut changes, champ_id, role, mode, rank, patch, rows, synergy);
    assert(change_views(changes@) =~= list_changes(
        rows@,
        champ_id,
        role@,
        mode@,
        rank@,
        patch@,
        synergy,
    ));
    db.apply_all(&changes)
}

/// Writing the synergies of each lane.
pub open spec fn team_changes(
    lanes: Seq<(Seq<char>, Tree)>,
    champ_id: i64,
    role: Seq<char>,
    rank: Seq<char>,
    patch: Seq<char>,
) -> Seq<ChangeView>
    decreases lanes.len(),
{
    if lanes.len() == 0 {
        Seq::empty()
    } else {
        team_changes(lanes.drop_last(), champ_id, role, rank, patch) + list_changes(
            lanes.last().1,
            champ_id,
            role,
            "synergy"@,
            rank,
            patch,
            true,
        )
    }
}

/// The lanes of a table of allies.
pub open spec fn lanes_of(payload: Tree) -> Seq<(Seq<char>, Tree)> {
    match payload.field("team"@) {
        Some(team) => match team.members() {
            Some(lanes) => lanes,
            None => Seq::empty(),
        },
        None => Seq::empty(),
    }
}

/// The synergies of a table of allies, written to the cache. A rate that is not a
/// number ends it.
pub fn store_team(
    db: &mut StatsDb,
    champ_id: i64,
    role: &str,
    rank: &str,
    patch: &str,
    payload: &Json,
) -> (result: Result<(), StoreError>)
    ensures
        ({
            let changes = team_changes(lanes_of(payload@), champ_id, role@, rank@, patch@);
            &&& final(db)@ == after_all(old(db)@, written(changes))
            &&& final(db).pending() == old(db).pending() + written(changes)
            &&& result is Ok <==> all_storable(changes)
        }),
        old(db)@.tidy() ==> final(db)@.tidy(),
{
    let mut changes: Vec<Change> = Vec::new();
    assert(change_views(changes@) =~= Seq::empty());
    if let Some(team) = payload.get("team") {
        if let Some(lanes) = team.as_object() {
            let ghost all = named_trees(lanes@);
            for i in 0..lanes.len()
                invariant
                    all == named_trees(lanes@),
                    change_views(changes@) == team_changes(
                        all.take(i as int),
                        champ_id,
                        role@,
                        rank@,
                        patch@,
                    ),
            {
                assert(all.take(i + 1).drop_last() =~= all.take(i as int));
                assert(all.take(i + 1).last().1 == lanes@[i as int].1@);
                collect_rows(
                    &mut changes,
                    champ_id,
                    role,
                    "synergy",
                    rank,
                    patch,
                    &lanes[i].1,
                    true,
                );
            }
            assert(all.take(all.len() as int) =~= all);
        }
    }
    db.apply_all(&changes)
}

// --------------------------------------------------------- the build page

/// Writing the rows of a build page's tables.
pub open spec fn table_changes(
    rows: Seq<(&'static str, TableRow)>,
    champ_id: i64,
    role: Seq<char>,
    rank: Seq<char>,
    patch: Seq<char>,
) -> Seq<ChangeView> {
    Seq::new(
        rows.len(),
        |i: int|
            matchup_change(
                champ_id,
                rows[i].1.champion_id,
                role,
                kind_of(role, rows[i].0@),
                rows[i].0@,
                rank,
                patch,
                MatchupStat {
                    winrate: rows[i].1.winrate,
                    games: rows[i].1.games,
                    delta: rows[i].1.delta,
                },
            ),
    )
}

/// The rows of a build page's tables, written to the cache. A rate that is not a
/// number ends it.
pub fn store_tables(
    db: &mut StatsDb,
    champ_id: i64,
    role: &str,
    rank: &str,
    patch: &str,
    tables: &EnemyTables,
) -> (result: Result<(), StoreError>)
    ensures
        ({
            let changes = table_changes(
                tables.labelled_rows(),
                champ_id,
                role@,
                rank@,
                patch@,
            );
            &&& final(db)@ == after_all(old(db)@, written(changes))
            &&& final(db).pending() == old(db).pending() + written(changes)
            &&& result is Ok <==> all_storable(changes)
        }),
        old(db)@.tidy() ==> final(db)@.tidy(),
{
    let rows = tables.all_rows();
    let mut changes: Vec<Change> = Vec::new();
    assert(change_views(changes@) =~= table_changes(
        rows@.take(0),
        champ_id,
        role@,
        rank@,
        patch@,
    ));
    for i in 0..rows.len()
        invariant
            change_views(changes@) == table_changes(
                rows@.take(i as int),
                champ_id,
                role@,
                rank@,
                patch@,
            ),
    {
        let lane = rows[i].0;
        let row = rows[i].1;
        let kind = matchup_kind(role, lane);
        let stat = MatchupStat { winrate: row.winrate, games: row.games, delta: row.delta };
        push_matchup(
            &mut changes,
            champ_id,
            row.champion_id,
            role,
            &kind,
            lane,
            rank,
            patch,
            stat,
        );
        assert(change_views(changes@) =~= table_changes(
            rows@.take(i + 1),
            champ_id,
            role@,
            rank@,
            patch@,
        ));
    }
    assert(rows@.take(rows@.len() as int) =~= rows@);
    db.apply_all(&changes)
}

// --------------------------------------------------------- how old it is

/// For how many hours the tables are good.
pub const FRESH_HOURS: u32 = 20;

/// The notes that are made once everything has been fetched.
pub open spec fn closing_notes(rank: Seq<char>, patch: Seq<char>, secs: i64) -> Seq<ChangeView> {
    seq![
        ChangeView::Note { key: "patch"@, value: patch },
        ChangeView::Note { key: "rank"@, value: rank },
        ChangeView::Note { key: "stats_schema"@, value: STATS_SCHEMA@ },
        ChangeView::Note { key: "ingested_at"@, value: stamp_of(secs) },
    ]
}

/// The tables are of the rank and patch and less than 20 hours old. Where it is
/// not known when they were fetched, they count as good.
pub open spec fn fresh(cache: Cache, rank: Seq<char>, patch: Seq<char>, now: Moment) -> bool {
    &&& cache.note("stats_schema"@) == Some(STATS_SCHEMA@)
    &&& cache.role_rows(rank, patch) > 20
    &&& cache.has_matchup(rank, patch)
    &&& cache.note("patch"@) == Some(patch)
    &&& cache.note("rank"@) == Some(rank)
    &&& match cache.note("ingested_at"@) {
        Some(stamp) => recent(now, moment_of(stamp)),
        None => true,
    }
}

/// Less than 20 hours have passed since `then`, or it is not known when that was.
pub open spec fn recent(now: Moment, then: Option<Moment>) -> bool {
    match then {
        Some(then) => now.within_hours(then, FRESH_HOURS),
        None => true,
    }
}

/// Whether less than 20 hours have passed since `then`, or it is not known when
/// that was.
pub fn is_recent(now: Moment, then: Option<Moment>) -> (r: bool)
    ensures
        r == recent(now, then),
{
    match then {
        Some(then) => now.is_within(then, FRESH_HOURS),
        None => true,
    }
}

/// Whether the tables need not be fetched.
pub fn cache_is_fresh(db: &StatsDb, rank: &str, patch: &str, now: Moment) -> (r: bool)
    ensures
        r == fresh(db@, rank@, patch@, now),
{
    if !is_same(&db.get_meta("stats_schema"), STATS_SCHEMA) {
        return false;
    }
    if !db.has_patch_data(rank, patch) {
        return false;
    }
    if !db.has_matchup_data(rank, patch) {
        return false;
    }
    if !is_same(&db.get_meta("patch"), patch) {
        return false;
    }
    if !is_same(&db.get_meta("rank"), rank) {
        return false;
    }
    match db.get_meta("ingested_at") {
        Some(stamp) => is_recent(now, parse_moment(&stamp)),
        None => true,
    }
}

/// Notes that everything has been fetched, and when. From then on the tables are
/// good for 20 hours, given that there are enough of them. A time in a year before 0
/// or after 9999 cannot be read back: the tables then stay good.
pub fn finish_ingest(db: &mut StatsDb, rank: &str, patch: &str, secs: i64)
    requires
        EARLIEST <= secs <= LATEST,
    ensures
        final(db)@ == after_all(old(db)@, closing_notes(rank@, patch@, secs)),
        final(db).pending() == old(db).pending() + closing_notes(rank@, patch@, secs),
        old(db)@.tidy() ==> final(db)@.tidy(),
        old(db)@.role_rows(rank@, patch@) > 20 && old(db)@.has_matchup(rank@, patch@) ==> forall|
            now: Moment,
        |
            #[trigger] fresh(final(db)@, rank@, patch@, now) <==> (has_plain_year(secs)
                ==> now.within_hours(Moment { secs, nanos: 0 }, FRESH_HOURS)),
{
    let stamp = write_moment(secs);
    let ghost start = db@;
    db.set_meta("patch", patch);
    let ghost one = db@;
    db.set_meta("rank", rank);
    let ghost two = db@;
    db.set_meta("stats_schema", STATS_SCHEMA);
    let ghost three = db@;
    db.set_meta("ingested_at", &stamp);
    proof {
        let notes = closing_notes(rank@, patch@, secs);
        assert(notes.take(4) =~= notes);
        assert(notes.take(4).drop_last() =~= notes.take(3));
        assert(notes.take(3).drop_last() =~= notes.take(2));
        assert(notes.take(2).drop_last() =~= notes.take(1));
        assert(notes.take(1).drop_last() =~= notes.take(0));
        assert(after_all(start, notes.take(0)) == start);
        assert(after_all(start, notes.take(1)) == one);
        assert(after_all(start, notes.take(2)) == two);
        assert(after_all(start, notes.take(3)) == three);
        assert(db.pending() =~= old(db).pending() + notes);
        lemma_keys_differ();
        law_note_read_back(start, "patch"@, patch@, "patch"@);
        law_note_read_back(one, "rank"@, rank@, "patch"@);
        law_note_read_back(one, "rank"@, rank@, "rank"@);
        law_note_read_back(two, "stats_schema"@, STATS_SCHEMA@, "patch"@);
        law_note_read_back(two, "stats_schema"@, STATS_SCHEMA@, "rank"@);
        law_note_read_back(two, "stats_schema"@, STATS_SCHEMA@, "stats_schema"@);
        law_note_read_back(three, "ingested_at"@, stamp@, "patch"@);
        law_note_read_back(three, "ingested_at"@, stamp@, "rank"@);
        law_note_read_back(three, "ingested_at"@, stamp@, "stats_schema"@);
        law_note_read_back(three, "ingested_at"@, stamp@, "ingested_at"@);
        let end = db@;
        assert(end.shelves == start.shelves);
        assert(end.note("patch"@) == Some(patch@));
        assert(end.note("rank"@) == Some(rank@));
        assert(end.note("stats_schema"@) == Some(STATS_SCHEMA@));
        assert(end.note("ingested_at"@) == Some(stamp@));
        assert(end.has_matchup(rank@, patch@) == start.has_matchup(rank@, patch@)) by {
            lemma_same_shelves(start, end, rank@, patch@);
        }
    }
}

proof fn lemma_same_shelves(a: Cache, b: Cache, rank: Seq<char>, patch: Seq<char>)
    requires
        a.shelves == b.shelves,
    ensures
        a.has_matchup(rank, patch) == b.has_matchup(rank, patch),
{
    if a.has_matchup(rank, patch) {
        let (i, j) = choose|i: int, j: int|
            0 <= i < a.shelves.len() && 0 <= j < a.shelves[i].matchups.len() && {
                let row = #[trigger] a.shelves[i].matchups[j];
                row.rank == rank && row.patch == patch
            };
        assert(b.shelves[i].matchups[j] == a.shelves[i].matchups[j]);
    }
}

proof fn lemma_keys_differ()
    ensures
        "patch"@ != "rank"@,
        "patch"@ != "stats_schema"@,
        "patch"@ != "ingested_at"@,
        "rank"@ != "stats_schema"@,
        "rank"@ != "ingested_at"@,
        "stats_schema"@ != "ingested_at"@,
{
    reveal_strlit("patch");
    reveal_strlit("rank");
    reveal_strlit("stats_schema");
    reveal_strlit("ingested_at");
    assert("patch"@.len() == 5 && "rank"@.len() == 4 && "stats_schema"@.len() == 12
        && "ingested_at"@.len() == 11);
}

// --------------------------------------------------------- laws

/// Once the patch or the rank bracket is another, the tables are no longer good.
pub proof fn law_fresh_for_one_key(
    cache: Cache,
    rank: Seq<char>,
    patch: Seq<char>,
    now: Moment,
    other_rank: Seq<char>,
    other_patch: Seq<char>,
    later: Moment,
)
    requires
        fresh(cache, rank, patch, now),
        fresh(cache, other_rank, other_patch, later),
    ensures
        other_rank == rank,
        other_patch == patch,
{
}

/// The champions of the entries that are played in the role, with their games, in
/// the order of the table.
pub open spec fn pool_entries(entries: Seq<(i64, RoleMetaView)>, role: Seq<char>) -> Seq<(i64, i64)>
    decreases entries.len(),
{
    if entries.len() == 0 {
        Seq::empty()
    } else {
        let before = pool_entries(entries.drop_last(), role);
        let (id, meta) = entries.last();
        if meta.in_pool(role) {
            before.push((id, meta.games))
        } else {
            before
        }
    }
}

/// The champions to fetch matchups for are those of the table that are played in the
/// role, most games first. There are at most 40 of them, and nobody left out has more
/// games than one who is taken.
pub proof fn law_pool_in_order(entries: Seq<(i64, RoleMetaView)>, role: Seq<char>)
    ensures
        by_games(entries, role).to_multiset() == pool_entries(entries, role).to_multiset(),
        forall|i: int, j: int|
            0 <= i < j < by_games(entries, role).len() ==> (#[trigger] by_games(entries, role)[i]).1
                >= (#[trigger] by_games(entries, role)[j]).1,
        pool_of(entries, role).len() <= 40,
        forall|e: int, i: int|
            0 <= e < entries.len() && entries[e].1.in_pool(role) && !pool_of(
                entries,
                role,
            ).contains(entries[e].0) && 0 <= i < pool_of(entries, role).len() ==> (
            #[trigger] entries[e]).1.games <= (#[trigger] by_games(entries, role)[i]).1,
{
    lemma_by_games(entries, role);
    let ranked = by_games(entries, role);
    let pool = pool_of(entries, role);
    assert forall|e: int, i: int|
        0 <= e < entries.len() && entries[e].1.in_pool(role) && !pool.contains(entries[e].0) && 0
            <= i < pool.len() implies (#[trigger] entries[e]).1.games <= (
    #[trigger] ranked[i]).1 by {
        let item = (entries[e].0, entries[e].1.games);
        lemma_in_pool_entries(entries, role, e);
        broadcast use vstd::seq_lib::group_to_multiset_ensures;

        assert(pool_entries(entries, role).to_multiset().count(item) > 0);
        assert(ranked.contains(item));
        let k = choose|k: int| 0 <= k < ranked.len() && ranked[k] == item;
        if k < pool.len() {
            assert(pool[k] == item.0);
        }
    }
}

proof fn lemma_in_pool_entries(entries: Seq<(i64, RoleMetaView)>, role: Seq<char>, e: int)
    requires
        0 <= e < entries.len(),
        entries[e].1.in_pool(role),
    ensures
        pool_entries(entries, role).contains((entries[e].0, entries[e].1.games)),
    decreases entries.len(),
{
    let all = pool_entries(entries, role);
    let before = pool_entries(entries.drop_last(), role);
    let item = (entries[e].0, entries[e].1.games);
    if e == entries.len() - 1 {
        assert(all[all.len() - 1] == item);
    } else {
        lemma_in_pool_entries(entries.drop_last(), role, e);
        let k = choose|k: int| 0 <= k < before.len() && before[k] == item;
        assert(all[k] == item);
    }
}

proof fn lemma_by_games(entries: Seq<(i64, RoleMetaView)>, role: Seq<char>)
    ensures
        by_games(entries, role).to_multiset() == pool_entries(entries, role).to_multiset(),
        forall|i: int, j: int|
            0 <= i < j < by_games(entries, role).len() ==> (#[trigger] by_games(entries, role)[i]).1
                >= (#[trigger] by_games(entries, role)[j]).1,
    decreases entries.len(),
{
    if entries.len() > 0 {
        let rest = entries.drop_last();
        lemma_by_games(rest, role);
        let (id, meta) = entries.last();
        if meta.in_pool(role) {
            let item = (id, meta.games);
            lemma_insert_in_order(by_games(rest, role), item);
            lemma_insert_adds(by_games(rest, role), item);
            broadcast use vstd::seq_lib::group_to_multiset_ensures;

            assert(pool_entries(entries, role).to_multiset() =~= pool_entries(
                rest,
                role,
            ).to_multiset().insert(item));
        }
    }
}

proof fn lemma_insert_adds(list: Seq<(i64, i64)>, item: (i64, i64))
    ensures
        insert_by_games(list, item).to_multiset() =~= list.to_multiset().insert(item),
    decreases list.len(),
{
    broadcast use vstd::seq_lib::group_to_multiset_ensures;

    if !(list.len() == 0 || list.last().1 >= item.1) {
        let rest = list.drop_last();
        lemma_insert_adds(rest, item);
        assert(rest.push(list.last()) =~= list);
        assert(list.to_multiset() =~= rest.to_multiset().insert(list.last()));
        assert(insert_by_games(list, item).to_multiset() =~= insert_by_games(
            rest,
            item,
        ).to_multiset().insert(list.last()));
    }
}

proof fn lemma_insert_in_order(list: Seq<(i64, i64)>, item: (i64, i64))
    requires
        forall|i: int, j: int|
            0 <= i < j < list.len() ==> (#[trigger] list[i]).1 >= (#[trigger] list[j]).1,
    ensures
        ({
            let longer = insert_by_games(list, item);
            &&& longer.len() == list.len() + 1
            &&& forall|i: int, j: int|
                0 <= i < j < longer.len() ==> (#[trigger] longer[i]).1 >= (#[trigger] longer[j]).1
            &&& forall|i: int|
                0 <= i < longer.len() ==> #[trigger] longer[i] == item || list.contains(longer[i])
        }),
    decreases list.len(),
{
    let longer = insert_by_games(list, item);
    if list.len() == 0 || list.last().1 >= item.1 {
        assert forall|i: int| 0 <= i < longer.len() implies #[trigger] longer[i] == item
            || list.contains(longer[i]) by {
            if i < list.len() {
                assert(longer[i] == list[i]);
            }
        }
    } else {
        let rest = list.drop_last();
        lemma_insert_in_order(rest, item);
        let shorter = insert_by_games(rest, item);
        assert forall|i: int| 0 <= i < longer.len() implies #[trigger] longer[i] == item
            || list.contains(longer[i]) by {
            if i < shorter.len() {
                assert(longer[i] == shorter[i]);
                if longer[i] != item {
                    let k = choose|k: int| 0 <= k < rest.len() && rest[k] == longer[i];
                    assert(list[k] == longer[i]);
                }
            } else {
                assert(list[list.len() - 1] == longer[i]);
            }
        }
        assert forall|i: int, j: int| 0 <= i < j < longer.len() implies (#[trigger] longer[i]).1
            >= (#[trigger] longer[j]).1 by {
            assert(longer[i] == shorter[i]);
            if j == shorter.len() {
                if longer[i] != item {
                    assert(rest.contains(shorter[i]));
                    let k = choose|k: int| 0 <= k < rest.len() && rest[k] == longer[i];
                    assert(list[k] == longer[i]);
                    assert(list[k].1 >= list[list.len() - 1].1);
                }
            } else {
                assert(longer[j] == shorter[j]);
            }
        }
    }
}

} // verus!
