//! What filling the cache is for, told of the source's answers and the rows that are
//! kept of them alone.
use crate::catalog::Catalog;
use crate::clock::{moment_of, stamp_of, Moment};
use crate::json::Tree;
use crate::number::Real;
use crate::stats::cache::Cache;
use crate::stats::course::{
    job_views, jobs_in, jobs_of, pause_after, role_at, title_of, told_after, Ingest, Job, Reply,
    Step,
};
use crate::stats::ingest::{
    by_games, closing_notes, counter_changes, counter_of, counters_of, entries_in, entries_of,
    fresh, insert_by_games, kind_of, lanes_of, law_pool_in_order, listed_rows, meta_of, pair_changes,
    pair_of, pool_entries, pool_of, team_changes,
};
use crate::stats::qwik::rows_on_page;
use crate::stats::rows::{storable, written, ChangeView, RoleMetaView};
use crate::stats::source::{in_url, percent_encoded, tier_of};
use crate::text::integer;
use vstd::prelude::*;

verus! {

// ------------------------------------------------------------ what an entry says

/// The value that is there, else a number of its bits.
pub open spec fn or_bits(value: Option<Real>, bits: u64) -> Real {
    if value is Some {
        value->0
    } else {
        Real { bits }
    }
}

/// Each figure of an entry is read from the field of its own name: the win rate from
/// `wr`, the pick rate from `pr`, the ban rate from `br`, the games from `games`, the share
/// of the role from `pctLane` and else `pct_lane`, the usual role from `defaultLane` and
/// else `default_lane`. What is missing counts as a win rate of 50, as no pick, ban, game
/// or share, and as the role of the table.
pub proof fn law_entry_fields(stats: Tree, role: Seq<char>, p: Real)
    ensures
        ({
            let meta = meta_of(stats, role);
            let wide = stats.field_value("pctLane"@);
            let narrow = stats.field_value("pct_lane"@);
            &&& stats.field_value("wr"@) == Some(p) ==> meta.winrate == p
            &&& stats.field_value("pr"@) == Some(p) ==> meta.pickrate == p
            &&& stats.field_value("br"@) == Some(p) ==> meta.banrate == p
            &&& stats.field_value("games"@) == Some(p) ==> meta.games == p.whole()
            &&& wide == Some(p) ==> meta.pct_lane == p
            &&& wide is None && narrow == Some(p) ==> meta.pct_lane == p
            &&& stats.field_value("wr"@) is None ==> meta.winrate.bits == 0x4049_0000_0000_0000
            &&& stats.field_value("pr"@) is None ==> meta.pickrate.bits == 0
            &&& stats.field_value("br"@) is None ==> meta.banrate.bits == 0
            &&& stats.field_value("games"@) is None ==> meta.games == 0
            &&& wide is None && narrow is None ==> meta.pct_lane.bits == 0
        }),
{
    lemma_whole_fits(p);
    lemma_zero_is_whole();
}

proof fn lemma_whole_fits(x: Real)
    ensures
        i64::MIN <= x.whole() <= i64::MAX,
{
}

proof fn lemma_zero_is_whole()
    ensures
        (Real { bits: 0 }).whole() == 0,
{
    vstd::arithmetic::power2::lemma_pow2_pos(1074);
    vstd::arithmetic::div_mod::lemma_div_of0(vstd::arithmetic::power2::pow2(1074) as int);
}

/// The usual role of an entry is the one that it names, by the statistics' name of it;
/// a table's own role where it names none.
pub proof fn law_entry_lane(stats: Tree, role: Seq<char>, lane: Seq<char>)
    requires
        lane.len() > 0,
    ensures
        stats.field_text("defaultLane"@) == Some(lane) ==> meta_of(stats, role).default_lane
            == crate::models::role_name(lane),
        stats.field_text("defaultLane"@) is None && stats.field_text("default_lane"@) == Some(lane)
            ==> meta_of(stats, role).default_lane == crate::models::role_name(lane),
        stats.field_text("defaultLane"@) is None && stats.field_text("default_lane"@) is None
            ==> meta_of(stats, role).default_lane == role,
{
}

/// A field of an entry moves nothing but its own figure: two entries that differ in one
/// field alone have all other figures in common.
pub proof fn law_entry_fields_apart(a: Tree, b: Tree, changed: Seq<char>, role: Seq<char>)
    requires
        forall|key: Seq<char>| key != changed ==> #[trigger] a.field(key) == b.field(key),
    ensures
        ({
            let (m, n) = (meta_of(a, role), meta_of(b, role));
            &&& changed != "wr"@ ==> m.winrate == n.winrate
            &&& changed != "pr"@ ==> m.pickrate == n.pickrate
            &&& changed != "br"@ ==> m.banrate == n.banrate
            &&& changed != "games"@ ==> m.games == n.games
            &&& changed != "pctLane"@ && changed != "pct_lane"@ ==> m.pct_lane == n.pct_lane
            &&& changed != "defaultLane"@ && changed != "default_lane"@ ==> m.default_lane
                == n.default_lane
        }),
{
    assert(changed != "wr"@ ==> a.field("wr"@) == b.field("wr"@));
    assert(changed != "pr"@ ==> a.field("pr"@) == b.field("pr"@));
    assert(changed != "br"@ ==> a.field("br"@) == b.field("br"@));
    assert(changed != "games"@ ==> a.field("games"@) == b.field("games"@));
    assert(changed != "pctLane"@ ==> a.field("pctLane"@) == b.field("pctLane"@));
    assert(changed != "pct_lane"@ ==> a.field("pct_lane"@) == b.field("pct_lane"@));
    assert(changed != "defaultLane"@ ==> a.field("defaultLane"@) == b.field("defaultLane"@));
    assert(changed != "default_lane"@ ==> a.field("default_lane"@) == b.field("default_lane"@));
}

/// Where only the ban rate of an entry is another, the pick rate, the win rate, the games,
/// the share and the usual role stay.
pub proof fn law_ban_rate_moves_nothing_else(a: Tree, b: Tree, role: Seq<char>)
    requires
        forall|key: Seq<char>| key != "br"@ ==> #[trigger] a.field(key) == b.field(key),
    ensures
        meta_of(b, role) == (RoleMetaView {
            banrate: meta_of(b, role).banrate,
            ..meta_of(a, role)
        }),
{
    reveal_strlit("br");
    reveal_strlit("wr");
    reveal_strlit("pr");
    reveal_strlit("games");
    reveal_strlit("pctLane");
    reveal_strlit("pct_lane");
    reveal_strlit("defaultLane");
    reveal_strlit("default_lane");
    assert("br"@.len() == 2 && "games"@.len() == 5 && "pctLane"@.len() == 7 && "pct_lane"@.len()
        == 8 && "defaultLane"@.len() == 11 && "default_lane"@.len() == 12);
    assert("br"@[0] == 'b' && "wr"@[0] == 'w' && "pr"@[0] == 'p');
    law_entry_fields_apart(a, b, "br"@, role);
}

/// An entry counts where its name is the number of a champion and it has 80 games or
/// more; and every such entry is kept under that number with all its figures.
pub proof fn law_entries(
    members: Seq<(Seq<char>, Tree)>,
    member: (Seq<char>, Tree),
    role: Seq<char>,
)
    ensures
        entries_in(Seq::empty(), role).len() == 0,
        ({
            let meta = meta_of(member.1, role);
            let id = integer(member.0);
            let before = entries_in(members, role);
            let after = entries_in(members.push(member), role);
            if id is Some && 0 < id->0 <= i64::MAX && meta.games >= 80 {
                after == before.push((id->0 as i64, meta))
            } else {
                after == before
            }
        }),
{
    assert(members.push(member).drop_last() =~= members);
}

/// The entries of a table are the members of what is called `cid`.
pub proof fn law_table_entries(list: Tree, role: Seq<char>)
    ensures
        match list.field("cid"@) {
            Some(Tree::Object(members)) => entries_of(list, role) == entries_in(members, role),
            _ => entries_of(list, role).len() == 0,
        },
{
}

/// A champion is played in a role with 150 games or more there, and either 15 hundredths
/// or more of its games, or 200 games and the role as its usual one. More games or a
/// larger share never take it out.
pub proof fn law_played_in_role(meta: RoleMetaView, role: Seq<char>)
    ensures
        meta.games < 150 ==> !meta.in_pool(role),
        meta.games >= 150 && !meta.pct_lane.is_nan() && meta.pct_lane.scaled() >= (Real {
            bits: 0x402e_0000_0000_0000,
        }).scaled() ==> meta.in_pool(role),
        meta.games >= 200 && meta.default_lane == role ==> meta.in_pool(role),
        meta.in_pool(role) && meta.default_lane != role ==> !meta.pct_lane.is_nan()
            && meta.pct_lane.scaled() >= (Real { bits: 0x402e_0000_0000_0000 }).scaled(),
        meta.in_pool(role) && meta.games < 200 ==> !meta.pct_lane.is_nan()
            && meta.pct_lane.scaled() >= (Real { bits: 0x402e_0000_0000_0000 }).scaled(),
{
    assert(!(Real { bits: 0x402e_0000_0000_0000 }).is_nan());
}

/// The entry is one of the champion in the role that it is played in.
pub open spec fn plays_in(
    entries: Seq<(i64, RoleMetaView)>,
    role: Seq<char>,
    e: int,
    id: i64,
) -> bool {
    0 <= e < entries.len() && entries[e].0 == id && entries[e].1.in_pool(role)
}

/// The first champion has an entry in the role with as many games as one of the second.
pub open spec fn no_fewer_games(
    entries: Seq<(i64, RoleMetaView)>,
    role: Seq<char>,
    id: i64,
    other: i64,
) -> bool {
    exists|e: int, f: int| #[trigger]
        plays_in(entries, role, e, id) && #[trigger] plays_in(entries, role, f, other)
            && entries[e].1.games >= entries[f].1.games
}

/// The champions to fetch matchups for come from those of the entries that are played in
/// the role: all of them as long as there are no more than 40, else the 40 with the most
/// games; and they come from the most games to the fewest.
pub proof fn law_pool_most_played(entries: Seq<(i64, RoleMetaView)>, role: Seq<char>)
    ensures
        pool_of(entries, role).len() == (if entries.filter(
            |e: (i64, RoleMetaView)| e.1.in_pool(role),
        ).len() < 40 {
            entries.filter(|e: (i64, RoleMetaView)| e.1.in_pool(role)).len()
        } else {
            40
        }),
        forall|i: int|
            0 <= i < pool_of(entries, role).len() ==> no_fewer_games(
                entries,
                role,
                #[trigger] pool_of(entries, role)[i],
                pool_of(entries, role)[i],
            ),
        forall|i: int, j: int|
            0 <= i < j < pool_of(entries, role).len() ==> no_fewer_games(
                entries,
                role,
                #[trigger] pool_of(entries, role)[i],
                #[trigger] pool_of(entries, role)[j],
            ),
{
    let pool = pool_of(entries, role);
    let ranked = by_games(entries, role);
    let listed = pool_entries(entries, role);
    law_pool_in_order(entries, role);
    lemma_pool_entries_len(entries, role, |e: (i64, RoleMetaView)| e.1.in_pool(role));
    let played = entries.filter(|e: (i64, RoleMetaView)| e.1.in_pool(role));
    broadcast use vstd::seq_lib::group_to_multiset_ensures;

    assert(ranked.to_multiset().len() == ranked.len());
    assert(listed.to_multiset().len() == listed.len());
    assert(listed.len() == played.len());
    assert(pool.len() == (if played.len() < 40 { played.len() } else { 40 }));
    assert forall|i: int| 0 <= i < ranked.len() implies exists|e: int|
        0 <= e < entries.len() && (#[trigger] entries[e]).0 == (#[trigger] ranked[i]).0
            && entries[e].1.games == ranked[i].1 && entries[e].1.in_pool(role) by {
        assert(ranked.contains(ranked[i]));
        assert(ranked.to_multiset().count(ranked[i]) > 0);
        assert(listed.contains(ranked[i]));
        let k = choose|k: int| 0 <= k < listed.len() && listed[k] == ranked[i];
        lemma_pool_entry_from(entries, role, k);
    }
    assert forall|i: int| 0 <= i < pool.len() implies #[trigger] pool[i] == ranked[i].0 by {}
    assert forall|i: int| 0 <= i < pool.len() implies no_fewer_games(
        entries,
        role,
        #[trigger] pool[i],
        pool[i],
    ) by {
        let e = choose|e: int|
            0 <= e < entries.len() && (#[trigger] entries[e]).0 == ranked[i].0
                && entries[e].1.games == ranked[i].1 && entries[e].1.in_pool(role);
        assert(plays_in(entries, role, e, pool[i]));
    }
    assert forall|i: int, j: int| 0 <= i < j < pool.len() implies no_fewer_games(
        entries,
        role,
        #[trigger] pool[i],
        #[trigger] pool[j],
    ) by {
        let e = choose|e: int|
            0 <= e < entries.len() && (#[trigger] entries[e]).0 == ranked[i].0
                && entries[e].1.games == ranked[i].1 && entries[e].1.in_pool(role);
        let f = choose|f: int|
            0 <= f < entries.len() && (#[trigger] entries[f]).0 == ranked[j].0
                && entries[f].1.games == ranked[j].1 && entries[f].1.in_pool(role);
        assert(plays_in(entries, role, e, pool[i]) && plays_in(entries, role, f, pool[j]));
        assert(ranked[i].1 >= ranked[j].1);
    }
}

proof fn lemma_pool_entries_len(
    entries: Seq<(i64, RoleMetaView)>,
    role: Seq<char>,
    played: spec_fn((i64, RoleMetaView)) -> bool,
)
    requires
        forall|e: (i64, RoleMetaView)| #[trigger] played(e) <==> e.1.in_pool(role),
    ensures
        pool_entries(entries, role).len() == entries.filter(played).len(),
    decreases entries.len(),
{
    reveal(Seq::filter);
    if entries.len() > 0 {
        lemma_pool_entries_len(entries.drop_last(), role, played);
    }
}

proof fn lemma_pool_entry_from(entries: Seq<(i64, RoleMetaView)>, role: Seq<char>, k: int)
    requires
        0 <= k < pool_entries(entries, role).len(),
    ensures
        exists|e: int|
            0 <= e < entries.len() && (#[trigger] entries[e]).0 == pool_entries(entries, role)[k].0
                && entries[e].1.games == pool_entries(entries, role)[k].1
                && entries[e].1.in_pool(role),
    decreases entries.len(),
{
    let rest = entries.drop_last();
    let before = pool_entries(rest, role);
    if k < before.len() {
        lemma_pool_entry_from(rest, role, k);
        let e = choose|e: int|
            0 <= e < rest.len() && (#[trigger] rest[e]).0 == before[k].0 && rest[e].1.games
                == before[k].1 && rest[e].1.in_pool(role);
        assert(entries[e] == rest[e]);
    } else {
        assert(entries[entries.len() - 1] == entries.last());
    }
}

// ------------------------------------------------------------ what a row says

/// A row of a matchup table tells the enemy by `cid`, the games by `n`, the win rate by
/// `vsWr` and the edge by `d1`; it counts from 40 games on.
pub proof fn law_counter_row(row: Tree)
    ensures
        ({
            let id = or_bits(row.field_value("cid"@), 0).whole();
            let games = or_bits(row.field_value("n"@), 0).whole();
            match counter_of(row) {
                Some((enemy_id, stat)) => {
                    &&& enemy_id == id
                    &&& id > 0
                    &&& stat.games == games
                    &&& games >= 40
                    &&& stat.winrate == or_bits(row.field_value("vsWr"@), 0x4049_0000_0000_0000)
                    &&& stat.delta == row.field_value("d1"@)
                },
                None => id <= 0 || games < 40,
            }
        }),
{
    lemma_whole_fits(or_bits(row.field_value("cid"@), 0));
    lemma_whole_fits(or_bits(row.field_value("n"@), 0));
}

/// A row of a pairing table is a list of six cells or more: the other champion first, then
/// the win rate and the edge, and the games in the sixth.
pub proof fn law_pair_row(row: Tree)
    ensures
        match pair_of(row) {
            Some((id, stat)) => row matches Tree::Array(cells) && {
                &&& cells.len() >= 6
                &&& id > 0
                &&& cells[0].whole() == Some(id)
                &&& stat.winrate == or_bits(cells[1].value(), 0x4049_0000_0000_0000)
                &&& stat.delta == cells[2].value()
                &&& cells[5].whole() is Some ==> cells[5].whole() == Some(stat.games)
                &&& cells[5].whole() is None ==> stat.games == 0
            },
            None => row matches Tree::Array(cells) ==> cells.len() < 6 || cells[0].whole() is None
                || cells[0].whole()->0 <= 0,
        },
{
}

/// A matchup against the own role is one of the lane, any other one of the team.
pub proof fn law_kinds(role: Seq<char>, vs_role: Seq<char>)
    ensures
        kind_of(role, role) == "lane"@,
        role != vs_role ==> kind_of(role, vs_role) == "team"@,
        kind_of(role, vs_role) == kind_of(vs_role, role),
{
}

/// The rows of a matchup table are what is called `counters`: a list, or several lists
/// one after the other.
pub proof fn law_counter_rows(
    payload: Tree,
    members: Seq<(Seq<char>, Tree)>,
    member: (Seq<char>, Tree),
)
    ensures
        match payload.field("counters"@) {
            Some(Tree::Array(rows)) => counters_of(payload) == rows,
            Some(Tree::Object(lists)) => counters_of(payload) == listed_rows(lists),
            _ => counters_of(payload).len() == 0,
        },
        listed_rows(Seq::empty()).len() == 0,
        match member.1 {
            Tree::Array(rows) => listed_rows(members.push(member)) == listed_rows(members) + rows,
            _ => listed_rows(members.push(member)) == listed_rows(members),
        },
{
    assert(members.push(member).drop_last() =~= members);
}

/// The lanes of an ally table are the members of what is called `team`.
pub proof fn law_lanes(payload: Tree)
    ensures
        match payload.field("team"@) {
            Some(Tree::Object(lanes)) => lanes_of(payload) == lanes,
            _ => lanes_of(payload).len() == 0,
        },
{
}

/// The change writes a matchup of the champion in the role against that one: of the lane
/// where the two roles are the same, else of the team.
pub open spec fn is_matchup_of(
    change: ChangeView,
    champion_id: i64,
    role: Seq<char>,
    vs_role: Seq<char>,
    rank: Seq<char>,
    patch: Seq<char>,
) -> bool {
    change matches ChangeView::Matchup { champion_id: id, matchup } && {
        &&& id == champion_id
        &&& matchup.role == role
        &&& matchup.vs_role == vs_role
        &&& matchup.rank == rank
        &&& matchup.patch == patch
        &&& role == vs_role ==> matchup.kind == "lane"@
        &&& role != vs_role ==> matchup.kind == "team"@
    }
}

/// The change writes a synergy of the champion.
pub open spec fn is_synergy_of(
    change: ChangeView,
    champion_id: i64,
    rank: Seq<char>,
    patch: Seq<char>,
) -> bool {
    change matches ChangeView::Synergy { champion_id: id, synergy } && {
        &&& id == champion_id
        &&& synergy.rank == rank
        &&& synergy.patch == patch
    }
}

/// Every row of a matchup table that counts is written, in order, as a matchup of the
/// champion in its role against the role asked for, and nothing else is.
pub proof fn law_counter_changes(
    rows: Seq<Tree>,
    row: Tree,
    champion_id: i64,
    role: Seq<char>,
    vs_role: Seq<char>,
    rank: Seq<char>,
    patch: Seq<char>,
)
    ensures
        counter_changes(Seq::empty(), champion_id, role, vs_role, rank, patch).len() == 0,
        ({
            let before = counter_changes(rows, champion_id, role, vs_role, rank, patch);
            let after = counter_changes(rows.push(row), champion_id, role, vs_role, rank, patch);
            match counter_of(row) {
                Some((enemy_id, stat)) => {
                    &&& after.len() == before.len() + 1
                    &&& after.drop_last() =~= before
                    &&& is_matchup_of(after.last(), champion_id, role, vs_role, rank, patch)
                    &&& after.last() matches ChangeView::Matchup { matchup, .. }
                        && matchup.enemy_id == enemy_id && matchup.stat == stat
                },
                None => after == before,
            }
        }),
{
    assert(rows.push(row).drop_last() =~= rows);
}

/// Every row of an ally table that counts is written as a synergy of the champion, and
/// nothing else is.
pub proof fn law_synergy_changes(
    rows: Seq<Tree>,
    row: Tree,
    champion_id: i64,
    role: Seq<char>,
    mode: Seq<char>,
    rank: Seq<char>,
    patch: Seq<char>,
)
    ensures
        pair_changes(Seq::empty(), champion_id, role, mode, rank, patch, true).len() == 0,
        ({
            let before = pair_changes(rows, champion_id, role, mode, rank, patch, true);
            let after = pair_changes(rows.push(row), champion_id, role, mode, rank, patch, true);
            match pair_of(row) {
                Some((ally_id, stat)) => {
                    &&& after.len() == before.len() + 1
                    &&& after.drop_last() =~= before
                    &&& is_synergy_of(after.last(), champion_id, rank, patch)
                    &&& after.last() matches ChangeView::Synergy { synergy, .. }
                        && synergy.ally_id == ally_id && synergy.stat == stat
                },
                None => after == before,
            }
        }),
{
    assert(rows.push(row).drop_last() =~= rows);
}

/// The pairings that are no synergies are written as matchups of the kind that is asked
/// for, against no role in particular.
pub proof fn law_pair_matchups(
    rows: Seq<Tree>,
    row: Tree,
    champion_id: i64,
    role: Seq<char>,
    mode: Seq<char>,
    rank: Seq<char>,
    patch: Seq<char>,
)
    ensures
        ({
            let before = pair_changes(rows, champion_id, role, mode, rank, patch, false);
            let after = pair_changes(rows.push(row), champion_id, role, mode, rank, patch, false);
            match pair_of(row) {
                Some((enemy_id, stat)) => {
                    &&& after.len() == before.len() + 1
                    &&& after.drop_last() =~= before
                    &&& after.last() matches ChangeView::Matchup { champion_id: id, matchup } && {
                        &&& id == champion_id
                        &&& matchup.enemy_id == enemy_id
                        &&& matchup.role == role
                        &&& matchup.kind == mode
                        &&& matchup.vs_role.len() == 0
                        &&& matchup.rank == rank
                        &&& matchup.patch == patch
                        &&& matchup.stat == stat
                    }
                },
                None => after == before,
            }
        }),
{
    assert(rows.push(row).drop_last() =~= rows);
}

/// The synergies of every lane are written, lane by lane; what is no list is passed over.
pub proof fn law_team_changes(
    lanes: Seq<(Seq<char>, Tree)>,
    lane: (Seq<char>, Tree),
    champion_id: i64,
    role: Seq<char>,
    rank: Seq<char>,
    patch: Seq<char>,
)
    ensures
        team_changes(Seq::empty(), champion_id, role, rank, patch).len() == 0,
        ({
            let before = team_changes(lanes, champion_id, role, rank, patch);
            let after = team_changes(lanes.push(lane), champion_id, role, rank, patch);
            match lane.1 {
                Tree::Array(rows) => exists|mode: Seq<char>|
                    after == before + #[trigger] pair_changes(
                        rows,
                        champion_id,
                        role,
                        mode,
                        rank,
                        patch,
                        true,
                    ),
                _ => after == before,
            }
        }),
{
    assert(lanes.push(lane).drop_last() =~= lanes);
    let before = team_changes(lanes, champion_id, role, rank, patch);
    let after = team_changes(lanes.push(lane), champion_id, role, rank, patch);
    match lane.1 {
        Tree::Array(rows) => {
            assert(after == before + pair_changes(
                rows,
                champion_id,
                role,
                "synergy"@,
                rank,
                patch,
                true,
            ));
        },
        _ => {
            assert(after =~= before);
        },
    }
}

proof fn lemma_counter_changes(
    rows: Seq<Tree>,
    champion_id: i64,
    role: Seq<char>,
    vs_role: Seq<char>,
    rank: Seq<char>,
    patch: Seq<char>,
    i: int,
)
    requires
        0 <= i < counter_changes(rows, champion_id, role, vs_role, rank, patch).len(),
    ensures
        is_matchup_of(
            counter_changes(rows, champion_id, role, vs_role, rank, patch)[i],
            champion_id,
            role,
            vs_role,
            rank,
            patch,
        ),
    decreases rows.len(),
{
    let rest = rows.drop_last();
    if i < counter_changes(rest, champion_id, role, vs_role, rank, patch).len() {
        lemma_counter_changes(rest, champion_id, role, vs_role, rank, patch, i);
    }
}

proof fn lemma_pair_changes(
    rows: Seq<Tree>,
    champion_id: i64,
    role: Seq<char>,
    mode: Seq<char>,
    rank: Seq<char>,
    patch: Seq<char>,
    i: int,
)
    requires
        0 <= i < pair_changes(rows, champion_id, role, mode, rank, patch, true).len(),
    ensures
        is_synergy_of(
            pair_changes(rows, champion_id, role, mode, rank, patch, true)[i],
            champion_id,
            rank,
            patch,
        ),
    decreases rows.len(),
{
    let rest = rows.drop_last();
    if i < pair_changes(rest, champion_id, role, mode, rank, patch, true).len() {
        lemma_pair_changes(rest, champion_id, role, mode, rank, patch, i);
    }
}

proof fn lemma_team_changes(
    lanes: Seq<(Seq<char>, Tree)>,
    champion_id: i64,
    role: Seq<char>,
    rank: Seq<char>,
    patch: Seq<char>,
    i: int,
)
    requires
        0 <= i < team_changes(lanes, champion_id, role, rank, patch).len(),
    ensures
        is_synergy_of(
            team_changes(lanes, champion_id, role, rank, patch)[i],
            champion_id,
            rank,
            patch,
        ),
    decreases lanes.len(),
{
    let rest = lanes.drop_last();
    let before = team_changes(rest, champion_id, role, rank, patch);
    if i < before.len() {
        lemma_team_changes(rest, champion_id, role, rank, patch, i);
    } else if let Some(rows) = lanes.last().1.items() {
        lemma_pair_changes(rows, champion_id, role, "synergy"@, rank, patch, i - before.len());
    }
}

// ------------------------------------------------------------ what is asked

/// The four brackets are asked for with everything above them, any other rank as it is.
pub proof fn law_tiers(rank: Seq<char>)
    ensures
        tier_of("emerald"@) == "emerald_plus"@,
        tier_of("diamond"@) == "diamond_plus"@,
        tier_of("platinum"@) == "platinum_plus"@,
        tier_of("gold"@) == "gold_plus"@,
        rank != "emerald"@ && rank != "diamond"@ && rank != "platinum"@ && rank != "gold"@
            ==> tier_of(rank) == rank,
{
    reveal_strlit("emerald");
    reveal_strlit("diamond");
    reveal_strlit("platinum");
    reveal_strlit("gold");
    assert("emerald"@[0] == 'e' && "diamond"@[0] == 'd' && "platinum"@[0] == 'p' && "gold"@[0]
        == 'g');
}

/// The roles are gone through from the top to the support.
pub proof fn law_roles()
    ensures
        role_at(0) == "top"@,
        role_at(1) == "jungle"@,
        role_at(2) == "middle"@,
        role_at(3) == "bottom"@,
        role_at(4) == "support"@,
{
}

/// A message calls the middle `Mid` and the bottom lane `ADC`; the other roles begin with
/// a capital, and what is no role is told as it is.
pub proof fn law_titles(role: Seq<char>)
    ensures
        title_of("top"@) == "Top"@,
        title_of("jungle"@) == "Jungle"@,
        title_of("middle"@) == "Mid"@,
        title_of("bottom"@) == "ADC"@,
        title_of("support"@) == "Support"@,
        role != "top"@ && role != "jungle"@ && role != "middle"@ && role != "bottom"@ && role
            != "support"@ ==> title_of(role) == role,
{
    reveal_strlit("top");
    reveal_strlit("jungle");
    reveal_strlit("middle");
    reveal_strlit("bottom");
    reveal_strlit("support");
    assert("top"@[0] == 't' && "jungle"@[0] == 'j' && "middle"@[0] == 'm' && "bottom"@[0] == 'b'
        && "support"@[0] == 's');
}

/// In an address the letters and digits of ASCII and `-`, `.`, `_`, `~` stand for
/// themselves; any other byte is a percent sign and its two digits to the base of 16.
pub proof fn law_encoded(bytes: Seq<u8>, byte: u8)
    ensures
        percent_encoded(Seq::empty()).len() == 0,
        ({
            let c = byte as char;
            let digits = "0123456789ABCDEF"@;
            if 'a' <= c <= 'z' || 'A' <= c <= 'Z' || '0' <= c <= '9' || c == '-' || c == '.' || c
                == '_' || c == '~' {
                percent_encoded(bytes.push(byte)) == percent_encoded(bytes).push(c)
            } else {
                percent_encoded(bytes.push(byte)) == percent_encoded(bytes) + seq![
                    '%',
                    digits[byte as int / 16],
                    digits[byte as int % 16],
                ]
            }
        }),
{
    reveal_strlit("0123456789ABCDEF");
    assert(bytes.push(byte).drop_last() =~= bytes);
    let digits = "0123456789ABCDEF"@;
    lemma_digit(byte / 16);
    lemma_digit(byte % 16);
}

proof fn lemma_digit(n: u8)
    requires
        n < 16,
    ensures
        crate::stats::source::hex_digit(n) == "0123456789ABCDEF"@[n as int],
{
    reveal_strlit("0123456789ABCDEF");
    let d = "0123456789ABCDEF"@;
    assert(d[0] == '0' && d[1] == '1' && d[2] == '2' && d[3] == '3' && d[4] == '4' && d[5] == '5'
        && d[6] == '6' && d[7] == '7' && d[8] == '8' && d[9] == '9' && d[10] == 'A' && d[11]
        == 'B' && d[12] == 'C' && d[13] == 'D' && d[14] == 'E' && d[15] == 'F');
}

/// The patch as the last or a middle parameter of an address: it is named only while the
/// tables are asked for by patch.
pub open spec fn patch_named(patch: Seq<char>, narrow: bool) -> Seq<char> {
    if narrow {
        "&patch="@ + in_url(patch)
    } else {
        Seq::empty()
    }
}

/// For a champion in a role at the step against another role, the address names the
/// champion, its own role as the lane and the other as the opposing lane; and every row of
/// the answer is kept as a matchup of that champion in that role against that other one.
pub proof fn law_asked_pair_is_stored(work: Ingest, reply: Reply, job: usize, vs: usize, narrow: bool)
    requires
        work.valid(),
        work.step == (Step::Counter { job, vs, narrow }),
    ensures
        work.address() == Some(
            "https://a1.lolalytics.com/mega/?ep=counter&v=1"@ + "&c="@ + in_url(
                work.jobs@[job as int].slug@,
            ) + "&lane="@ + in_url(work.jobs@[job as int].role@) + "&vslane="@ + in_url(
                role_at(vs as int),
            ) + "&tier="@ + in_url(tier_of(work.rank@)) + "&queue=ranked&region=all"@
                + patch_named(work.patch@, narrow),
        ),
        forall|i: int|
            0 <= i < work.found(reply).len() ==> is_matchup_of(
                #[trigger] work.found(reply)[i],
                work.jobs@[job as int].champion_id,
                work.jobs@[job as int].role@,
                role_at(vs as int),
                work.rank@,
                work.patch@,
            ),
        reply matches Reply::Data(json) ==> work.found(reply) == (if narrow && counters_of(
            json@,
        ).len() == 0 {
            Seq::empty()
        } else {
            counter_changes(
                counters_of(json@),
                work.jobs@[job as int].champion_id,
                work.jobs@[job as int].role@,
                role_at(vs as int),
                work.rank@,
                work.patch@,
            )
        }),
        reply !is Data ==> work.found(reply).len() == 0,
{
    let j = work.jobs@[job as int];
    assert forall|i: int| 0 <= i < work.found(reply).len() implies is_matchup_of(
        #[trigger] work.found(reply)[i],
        j.champion_id,
        j.role@,
        role_at(vs as int),
        work.rank@,
        work.patch@,
    ) by {
        lemma_counter_changes(
            counters_of(work.usable(reply)->0),
            j.champion_id,
            j.role@,
            role_at(vs as int),
            work.rank@,
            work.patch@,
            i,
        );
    }
}

/// For a champion at the step of its allies, the address names the champion and its role;
/// and every row of the answer is kept as a synergy of that champion.
pub proof fn law_asked_allies_are_stored(work: Ingest, reply: Reply, job: usize, narrow: bool)
    requires
        work.valid(),
        work.step == (Step::Team { job, narrow }),
    ensures
        work.address() == Some(
            "https://a1.lolalytics.com/mega/?ep=build-team&v=1"@ + patch_named(work.patch@, narrow)
                + "&c="@ + in_url(work.jobs@[job as int].slug@) + "&lane="@ + in_url(
                work.jobs@[job as int].role@,
            ) + "&tier="@ + in_url(tier_of(work.rank@)) + "&queue=ranked&region=all"@,
        ),
        forall|i: int|
            0 <= i < work.found(reply).len() ==> is_synergy_of(
                #[trigger] work.found(reply)[i],
                work.jobs@[job as int].champion_id,
                work.rank@,
                work.patch@,
            ),
        reply matches Reply::Data(json) ==> work.found(reply) == (if narrow && json@.field(
            "team"@,
        ) is None {
            Seq::empty()
        } else {
            team_changes(
                lanes_of(json@),
                work.jobs@[job as int].champion_id,
                work.jobs@[job as int].role@,
                work.rank@,
                work.patch@,
            )
        }),
        reply !is Data ==> work.found(reply).len() == 0,
{
    let j = work.jobs@[job as int];
    assert forall|i: int| 0 <= i < work.found(reply).len() implies is_synergy_of(
        #[trigger] work.found(reply)[i],
        j.champion_id,
        work.rank@,
        work.patch@,
    ) by {
        lemma_team_changes(
            lanes_of(work.usable(reply)->0),
            j.champion_id,
            j.role@,
            work.rank@,
            work.patch@,
            i,
        );
    }
}

/// For a role, the address names the role; and every entry of the answer is kept as a row
/// of that role, under the entry's champion and with the entry's figures.
pub proof fn law_asked_role_is_stored(work: Ingest, reply: Reply, role: usize, narrow: bool)
    requires
        work.valid(),
        work.step == (Step::List { role, narrow }),
    ensures
        work.address() == Some(
            "https://a1.lolalytics.com/mega/?ep=list&v=1"@ + patch_named(work.patch@, narrow)
                + "&lane="@ + in_url(role_at(role as int)) + "&tier="@ + in_url(tier_of(work.rank@))
                + "&queue=ranked&region=all"@,
        ),
        reply matches Reply::Data(json) ==> {
            let entries = entries_of(json@, role_at(role as int));
            if narrow && json@.field("cid"@) is None {
                work.found(reply).len() == 0
            } else {
                &&& work.found(reply).len() == entries.len()
                &&& forall|i: int|
                    0 <= i < entries.len() ==> {
                        &&& #[trigger] work.found(reply)[i] matches ChangeView::Role {
                            champion_id,
                            role: row,
                        }
                        &&& champion_id == entries[i].0
                        &&& row.role == role_at(role as int)
                        &&& row.rank == work.rank@
                        &&& row.patch == work.patch@
                        &&& row.meta == entries[i].1
                    }
            }
        },
        reply !is Data ==> work.found(reply).len() == 0,
{
}

/// For a champion's build page, the address names the champion and its role; and every row
/// of the page is kept as a matchup of that champion in that role against the role of the
/// row's table, with the row's figures.
pub proof fn law_asked_page_is_stored(work: Ingest, reply: Reply, job: usize)
    requires
        work.valid(),
        work.step == (Step::Page { job }),
    ensures
        work.address() == Some(
            "https://lolalytics.com/lol/"@ + in_url(work.jobs@[job as int].slug@)
                + "/build/?lane="@ + in_url(work.jobs@[job as int].role@) + "&tier="@ + in_url(
                tier_of(work.rank@),
            ),
        ),
        reply matches Reply::Page(html) ==> {
            let rows = rows_on_page(html@);
            &&& work.found(reply).len() == rows.len()
            &&& forall|i: int|
                0 <= i < rows.len() ==> {
                    let (lane, row) = rows[i];
                    &&& is_matchup_of(
                        #[trigger] work.found(reply)[i],
                        work.jobs@[job as int].champion_id,
                        work.jobs@[job as int].role@,
                        lane@,
                        work.rank@,
                        work.patch@,
                    )
                    &&& work.found(reply)[i] matches ChangeView::Matchup { matchup, .. }
                    &&& matchup.enemy_id == row.champion_id
                    &&& matchup.stat.winrate == row.winrate
                    &&& matchup.stat.games == row.games
                    &&& matchup.stat.delta == row.delta
                }
        },
        reply !is Page ==> work.found(reply).len() == 0,
{
}

/// Every role's champions become jobs of that role, in order: each that the source has a
/// name for, under its number, with that name and the champion's own name where the
/// catalog has it.
pub proof fn law_jobs(catalog: Catalog, role: Seq<char>, ids: Seq<i64>, id: i64)
    ensures
        jobs_in(catalog, role, Seq::empty()).len() == 0,
        ({
            let before = jobs_in(catalog, role, ids);
            let after = jobs_in(catalog, role, ids.push(id));
            if catalog.slug_by_id@.contains_key(id) {
                &&& after.len() == before.len() + 1
                &&& after.drop_last() =~= before
                &&& after.last().role == role
                &&& after.last().champion_id == id
                &&& after.last().slug == catalog.slug_by_id@[id]@
                &&& catalog.by_id@.contains_key(id) ==> after.last().name
                    == catalog.by_id@[id].name@
                &&& !catalog.by_id@.contains_key(id) ==> after.last().name
                    == catalog.slug_by_id@[id]@
            } else {
                after == before
            }
        }),
{
    assert(ids.push(id).drop_last() =~= ids);
}

/// The jobs of all roles are those of the roles one after the other, from the top to the
/// support.
pub proof fn law_jobs_by_role(catalog: Catalog, pools: Seq<Vec<i64>>)
    requires
        pools.len() == 5,
    ensures
        jobs_of(catalog, pools) == jobs_in(catalog, "top"@, pools[0]@) + jobs_in(
            catalog,
            "jungle"@,
            pools[1]@,
        ) + jobs_in(catalog, "middle"@, pools[2]@) + jobs_in(catalog, "bottom"@, pools[3]@)
            + jobs_in(catalog, "support"@, pools[4]@),
{
    reveal_with_fuel(jobs_of, 6);
    assert(pools.drop_last().len() == 4);
    assert(pools.drop_last().drop_last().len() == 3);
    assert(pools.drop_last().drop_last().drop_last().len() == 2);
    assert(pools.drop_last().drop_last().drop_last().drop_last().len() == 1);
    assert(jobs_of(catalog, pools) =~= jobs_in(catalog, "top"@, pools[0]@) + jobs_in(
        catalog,
        "jungle"@,
        pools[1]@,
    ) + jobs_in(catalog, "middle"@, pools[2]@) + jobs_in(catalog, "bottom"@, pools[3]@) + jobs_in(
        catalog,
        "support"@,
        pools[4]@,
    ));
}

/// What is asked next leaves nothing out, as long as no rate fails to be a number. What
/// could not be had by patch is asked for without; else it goes on to the next role's
/// table, from the last of them to the first champion, from a champion's allies to its matchups,
/// through those against all five roles, from there to the build page only where no
/// matchup was found, and on to the next champion, until the last is done.
pub proof fn law_nothing_is_left_out(work: Ingest, reply: Reply, jobs: nat)
    requires
        work.valid(),
        work.step !is List ==> jobs == work.jobs@.len(),
        !work.spoilt(reply),
    ensures
        ({
            let next = work.next_step(reply, jobs);
            let had = work.usable(reply) is Some;
            match work.step {
                Step::List { role, narrow } => {
                    &&& !had && narrow ==> next == (Step::List { role, narrow: false })
                    &&& !had && !narrow ==> next is Failed
                    &&& had && role < 4 ==> next == (Step::List {
                        role: (role + 1) as usize,
                        narrow: true,
                    })
                    &&& had && role == 4 && jobs > 0 ==> next == (Step::Team {
                        job: 0,
                        narrow: true,
                    })
                    &&& had && role == 4 && jobs == 0 ==> next is Done
                },
                Step::Team { job, narrow } => {
                    &&& !had && narrow ==> next == (Step::Team { job, narrow: false })
                    &&& had || !narrow ==> next == (Step::Counter { job, vs: 0, narrow: true })
                },
                Step::Counter { job, vs, narrow } => {
                    let none = !work.stored && work.found(reply).len() == 0;
                    let over = had || !narrow;
                    &&& !over ==> next == (Step::Counter { job, vs, narrow: false })
                    &&& over && vs < 4 ==> next == (Step::Counter {
                        job,
                        vs: (vs + 1) as usize,
                        narrow: true,
                    })
                    &&& over && vs == 4 && none ==> next == (Step::Page { job })
                    &&& over && vs == 4 && !none && job + 1 < jobs ==> next == (Step::Team {
                        job: (job + 1) as usize,
                        narrow: true,
                    })
                    &&& over && vs == 4 && !none && job + 1 == jobs ==> next is Done
                },
                Step::Page { job } => {
                    &&& job + 1 < jobs ==> next == (Step::Team {
                        job: (job + 1) as usize,
                        narrow: true,
                    })
                    &&& job + 1 == jobs ==> next is Done
                },
                Step::Done => next is Done,
                Step::Failed => next is Failed,
            }
        }),
        work.step is List && jobs > 0 && work.next_step(reply, jobs) is Team
            ==> work.next_step(reply, jobs) == (Step::Team { job: 0, narrow: true }),
{
    assert(work.jobs@.len() == work.jobs.len());
}

/// A table that was asked for by patch can be used where it has what was asked for, and
/// one that was asked for without always.
pub proof fn law_usable(work: Ingest, reply: Reply)
    ensures
        reply !is Data ==> work.usable(reply) is None,
        reply matches Reply::Data(json) ==> match work.step {
            Step::List { narrow, .. } => work.usable(reply) is Some <==> (narrow ==> json@.field(
                "cid"@,
            ) is Some),
            Step::Team { narrow, .. } => work.usable(reply) is Some <==> (narrow ==> json@.field(
                "team"@,
            ) is Some),
            Step::Counter { narrow, .. } => work.usable(reply) is Some <==> (narrow ==> counters_of(
                json@,
            ).len() > 0),
            _ => work.usable(reply) is None,
        },
        reply matches Reply::Data(json) ==> work.usable(reply) is Some ==> work.usable(reply)
            == Some(json@),
{
}

/// After a role's table 120 milliseconds pass and after a champion 160; within a
/// champion, and before a table is asked for again, none.
pub proof fn law_pauses(role: usize, job: usize, vs: usize, narrow: bool, pools: nat, next: Step)
    ensures
        pause_after(Step::List { role, narrow }, pools, next) == (if role < pools { 120int } else {
            0
        }),
        pause_after(Step::Page { job }, pools, Step::Done) == 160,
        pause_after(Step::Counter { job, vs, narrow }, pools, Step::Done) == 160,
        pause_after(Step::Counter { job, vs, narrow }, pools, Step::Team { job, narrow: true })
            == 160,
        pause_after(Step::Page { job }, pools, Step::Team { job, narrow: true }) == 160,
        pause_after(Step::Team { job, narrow }, pools, Step::Counter { job, vs, narrow: true })
            == 0,
        pause_after(Step::Team { job, narrow: true }, pools, Step::Team { job, narrow: false }) == 0,
        next is Counter || next is Page ==> pause_after(
            Step::Counter { job, vs, narrow },
            pools,
            next,
        ) == 0,
        told_after(Step::List { role, narrow }, pools) is Some <==> role < pools,
        told_after(Step::Team { job, narrow }, pools) is None,
        told_after(Step::Counter { job, vs, narrow }, pools) is None,
        told_after(Step::Page { job }, pools) is None,
{
}

// ------------------------------------------------------------ how old it is

/// The tables are good exactly where they are of this layout, of the patch and the rank,
/// with more than 20 rows of roles and some matchup, and fetched less than 20 hours ago or
/// at a time that is not known.
pub proof fn law_fresh(cache: Cache, rank: Seq<char>, patch: Seq<char>, now: Moment)
    ensures
        cache.note("stats_schema"@) != Some("2"@) ==> !fresh(cache, rank, patch, now),
        cache.note("patch"@) != Some(patch) ==> !fresh(cache, rank, patch, now),
        cache.note("rank"@) != Some(rank) ==> !fresh(cache, rank, patch, now),
        cache.role_rows(rank, patch) <= 20 ==> !fresh(cache, rank, patch, now),
        !cache.has_matchup(rank, patch) ==> !fresh(cache, rank, patch, now),
        cache.note("stats_schema"@) == Some("2"@) && cache.note("patch"@) == Some(patch)
            && cache.note("rank"@) == Some(rank) && cache.role_rows(rank, patch) > 20
            && cache.has_matchup(rank, patch) ==> match cache.note("ingested_at"@) {
            Some(stamp) => match moment_of(stamp) {
                Some(then) => then.nanos < 1_000_000_000 && now.nanos < 1_000_000_000 ==> (fresh(
                    cache,
                    rank,
                    patch,
                    now,
                ) <==> now.secs * 1_000_000_000 + now.nanos < (then.secs + 72_000) * 1_000_000_000
                    + then.nanos),
                None => fresh(cache, rank, patch, now),
            },
            None => fresh(cache, rank, patch, now),
        },
{
}

/// Once the work is done it is noted of which patch and rank the tables are, in which
/// layout and since when.
pub proof fn law_closing_notes(rank: Seq<char>, patch: Seq<char>, secs: i64)
    ensures
        ({
            let notes = closing_notes(rank, patch, secs);
            &&& notes.len() == 4
            &&& notes.contains(ChangeView::Note { key: "patch"@, value: patch })
            &&& notes.contains(ChangeView::Note { key: "rank"@, value: rank })
            &&& notes.contains(ChangeView::Note { key: "stats_schema"@, value: "2"@ })
            &&& notes.contains(ChangeView::Note { key: "ingested_at"@, value: stamp_of(secs) })
        }),
{
    let notes = closing_notes(rank, patch, secs);
    assert(notes[0] == (ChangeView::Note { key: "patch"@, value: patch }));
    assert(notes[1] == (ChangeView::Note { key: "rank"@, value: rank }));
    assert(notes[2] == (ChangeView::Note { key: "stats_schema"@, value: "2"@ }));
    assert(notes[3] == (ChangeView::Note { key: "ingested_at"@, value: stamp_of(secs) }));
}

// ------------------------------------------------------------ what comes of an answer

/// Everything that an answer holds is written, unless a rate is not a number; then the work
/// is over, and what stands before that rate is written.
pub proof fn law_answer_is_written(work: Ingest, reply: Reply, jobs: nat)
    ensures
        work.writes(reply) == written(work.found(reply)),
        work.spoilt(reply) <==> exists|i: int|
            0 <= i < work.found(reply).len() && !storable(#[trigger] work.found(reply)[i]),
        work.spoilt(reply) ==> work.next_step(reply, jobs) is Failed,
{
}

/// A job stands for what it holds, and so does a list of jobs.
pub proof fn law_job_views(jobs: Seq<Job>, i: int)
    requires
        0 <= i < jobs.len(),
    ensures
        job_views(jobs).len() == jobs.len(),
        job_views(jobs)[i].role == jobs[i].role@,
        job_views(jobs)[i].champion_id == jobs[i].champion_id,
        job_views(jobs)[i].slug == jobs[i].slug@,
        job_views(jobs)[i].name == jobs[i].name@,
{
}

/// The progress starts at 2 hundredths, goes from 5 to 10 with the roles and from 12 to 98
/// with the champions, and ends at the whole.
pub proof fn law_levels(work: Ingest, job: usize, role: usize, vs: usize, narrow: bool)
    ensures
        work.step == (Step::List { role: 0, narrow }) ==> work.level().base == 2
            && work.level().span == 0,
        work.step == (Step::List { role, narrow }) && role > 0 ==> {
            let level = work.level();
            level.base == 5 && level.span == 5 && level.done == role - 1 && level.total == 5
        },
        work.step == (Step::Team { job, narrow }) || work.step == (Step::Counter { job, vs, narrow })
            || work.step == (Step::Page { job }) ==> {
            let level = work.level();
            level.base == 12 && level.span == 86 && level.done == job && level.total
                == work.jobs@.len() as u64
        },
        work.step is Done ==> work.level().base == 100 && work.level().span == 0,
        told_after(Step::List { role, narrow }, role as nat + 1) matches Some(told) && told.base
            == 5 && told.span == 5 && told.done == role && told.total == 5,
{
}

/// Of champions with as many games the one that the table has first comes first: another
/// goes behind all that have no fewer games, and before the first that has fewer.
pub proof fn law_equal_games_keep_order(list: Seq<(i64, i64)>, item: (i64, i64), fewer: (i64, i64))
    requires
        forall|i: int| 0 <= i < list.len() ==> (#[trigger] list[i]).1 >= item.1,
        fewer.1 < item.1,
    ensures
        insert_by_games(list, item) == list.push(item),
        insert_by_games(list.push(fewer), item) == list.push(item).push(fewer),
{
    if list.len() > 0 {
        assert(list[list.len() - 1] == list.last());
    }
    assert(list.push(fewer).drop_last() =~= list);
}

} // verus!
