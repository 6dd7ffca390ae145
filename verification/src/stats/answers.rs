//! What the cache answers, told of the rows that it holds alone.
use crate::lists::{find, law_find_after_put, lemma_place, place, put};
use crate::models::role_name;
use crate::number::Real;
use crate::stats::cache::{
    after, all_roles, answers, busiest, for_role, is_fullest, of_champion, put_shelf,
    role_champions, rows_at, shelf_of, Cache, ShelfView,
};
use crate::stats::rows::{
    all_storable, settled, storable, written, ChangeView, MatchupRowView, RoleMetaView,
    RoleRowView, SynergyRowView,
};
use vstd::prelude::*;

verus! {

// ------------------------------------------------------------ the matchups

/// The row is of the role against the enemy, at the rank and patch.
pub open spec fn concerns(
    row: MatchupRowView,
    enemy_id: i64,
    role: Seq<char>,
    rank: Seq<char>,
    patch: Seq<char>,
) -> bool {
    row.enemy_id == enemy_id && row.role == role && row.rank == rank && row.patch == patch
}

/// A question about a matchup is answered by a row for the very role that the enemy plays;
/// where there is none, by the matchup of the lane; where there is none either, by one for
/// no role in particular; and by nothing only where there is none of the three.
pub proof fn law_matchup_answer(
    cache: Cache,
    champion_id: i64,
    enemy_id: i64,
    role: Seq<char>,
    vs_role: Seq<char>,
    rank: Seq<char>,
    patch: Seq<char>,
)
    ensures
        ({
            let rows = shelf_of(cache.shelves, champion_id).matchups;
            let exact = |r: MatchupRowView|
                concerns(r, enemy_id, role, rank, patch) && r.vs_role == vs_role;
            let lane = |r: MatchupRowView|
                concerns(r, enemy_id, role, rank, patch) && r.kind == "lane"@;
            let loose = |r: MatchupRowView|
                concerns(r, enemy_id, role, rank, patch) && r.vs_role.len() == 0;
            let found = cache.matchup(champion_id, enemy_id, role, vs_role, rank, patch);
            let wanted = if some_row(rows, exact) {
                exact
            } else if some_row(rows, lane) {
                lane
            } else {
                loose
            };
            match found {
                Some(stat) => exists|i: int|
                    0 <= i < rows.len() && wanted(#[trigger] rows[i]) && rows[i].stat == stat
                        && forall|j: int| 0 <= j < i ==> !wanted(#[trigger] rows[j]),
                None => !some_row(rows, exact) && !some_row(rows, lane) && !some_row(rows, loose),
            }
        }),
{
    let rows = shelf_of(cache.shelves, champion_id).matchups;
    let exact = |r: MatchupRowView|
        concerns(r, enemy_id, role, rank, patch) && r.vs_role == vs_role;
    let lane = |r: MatchupRowView| concerns(r, enemy_id, role, rank, patch) && r.kind == "lane"@;
    let loose = |r: MatchupRowView|
        concerns(r, enemy_id, role, rank, patch) && r.vs_role.len() == 0;
    lemma_first_row(rows, answers(0, enemy_id, role, vs_role, rank, patch), exact);
    lemma_first_row(rows, answers(1, enemy_id, role, vs_role, rank, patch), lane);
    assert forall|r: MatchupRowView| #[trigger]
        answers(2, enemy_id, role, vs_role, rank, patch)(r) <==> loose(r) by {
        if r.vs_role.len() == 0 {
            assert(r.vs_role =~= Seq::<char>::empty());
        }
    }
    lemma_first_row(rows, answers(2, enemy_id, role, vs_role, rank, patch), loose);
}

/// One of the rows is of those that are wanted.
pub open spec fn some_row(
    rows: Seq<MatchupRowView>,
    wanted: spec_fn(MatchupRowView) -> bool,
) -> bool {
    exists|i: int| 0 <= i < rows.len() && wanted(#[trigger] rows[i])
}

proof fn lemma_first_row(
    rows: Seq<MatchupRowView>,
    p: spec_fn(MatchupRowView) -> bool,
    wanted: spec_fn(MatchupRowView) -> bool,
)
    requires
        forall|r: MatchupRowView| #[trigger] p(r) <==> wanted(r),
    ensures
        match find(rows, p) {
            Some(row) => some_row(rows, wanted) && exists|i: int|
                0 <= i < rows.len() && wanted(#[trigger] rows[i]) && rows[i] == row && forall|
                    j: int,
                |
                    0 <= j < i ==> !wanted(#[trigger] rows[j]),
            None => !some_row(rows, wanted),
        },
{
    lemma_place(rows, p);
    let at = place(rows, p);
    assert forall|j: int| 0 <= j < at implies !wanted(#[trigger] rows[j]) by {
        assert(!p(rows[j]));
    }
    if at < rows.len() {
        assert(p(rows[at]));
        assert(wanted(rows[at]));
    }
}

/// The lane win rates are those of the champion's lane matchups in the role, at the rank
/// and patch, in the order of the rows.
pub proof fn law_lane_winrates(
    cache: Cache,
    champion_id: i64,
    role: Seq<char>,
    rank: Seq<char>,
    patch: Seq<char>,
)
    ensures
        ({
            let rows = shelf_of(cache.shelves, champion_id).matchups.filter(
                |r: MatchupRowView|
                    r.kind == "lane"@ && r.role == role && r.rank == rank && r.patch == patch,
            );
            let rates = cache.lane_winrates(champion_id, role, rank, patch);
            &&& rates.len() == rows.len()
            &&& forall|i: int| 0 <= i < rates.len() ==> #[trigger] rates[i] == rows[i].stat.winrate
        }),
{
    let wanted = |r: MatchupRowView|
        r.kind == "lane"@ && r.role == role && r.rank == rank && r.patch == patch;
    assert(crate::stats::cache::lane_rows(role, rank, patch) =~= wanted);
}

/// A matchup that was written is there; once a rank and patch are cleared none of theirs
/// is.
pub proof fn law_matchup_is_there(
    cache: Cache,
    champion_id: i64,
    row: MatchupRowView,
    rank: Seq<char>,
    patch: Seq<char>,
)
    ensures
        after(cache, ChangeView::Matchup { champion_id, matchup: row }).has_matchup(
            row.rank,
            row.patch,
        ),
        !after(cache, ChangeView::Clear { rank, patch }).has_matchup(rank, patch),
        cache.has_matchup(rank, patch) <==> exists|i: int, j: int|
            #![trigger cache.shelves[i].matchups[j]]
            0 <= i < cache.shelves.len() && 0 <= j < cache.shelves[i].matchups.len()
                && cache.shelves[i].matchups[j].rank == rank && cache.shelves[i].matchups[j].patch
                == patch,
{
    let later = after(cache, ChangeView::Matchup { champion_id, matchup: row });
    let shelf = shelf_of(cache.shelves, champion_id);
    let key = crate::stats::cache::for_matchup(row);
    lemma_place(cache.shelves, of_champion(champion_id));
    lemma_place(shelf.matchups, key);
    let i = place(cache.shelves, of_champion(champion_id));
    let j = place(shelf.matchups, key);
    assert(later.shelves[i].matchups[j] == row);
    let gone = after(cache, ChangeView::Clear { rank, patch });
    assert forall|a: int, b: int|
        #![trigger gone.shelves[a].matchups[b]]
        0 <= a < gone.shelves.len() && 0 <= b < gone.shelves[a].matchups.len() implies !(
    gone.shelves[a].matchups[b].rank == rank && gone.shelves[a].matchups[b].patch == patch) by {
        let keep = crate::stats::cache::matchups_besides(rank, patch);
        cache.shelves[a].matchups.filter_lemma(keep);
        assert(keep(cache.shelves[a].matchups.filter(keep)[b]));
    }
}

// ------------------------------------------------------------ the roles

/// The rows of all champions come one champion after the other.
pub proof fn law_all_roles(shelves: Seq<ShelfView>, shelf: ShelfView)
    ensures
        all_roles(Seq::empty()).len() == 0,
        all_roles(shelves.push(shelf)) == all_roles(shelves) + shelf.roles,
{
    assert(shelves.push(shelf).drop_last() =~= shelves);
}

/// The number of role rows is that of the rows of the rank and patch, of all champions.
pub proof fn law_role_rows(cache: Cache, rank: Seq<char>, patch: Seq<char>)
    ensures
        cache.role_rows(rank, patch) == all_roles(cache.shelves).filter(
            |r: RoleRowView| r.rank == rank && r.patch == patch,
        ).len(),
{
    lemma_rows_at(
        all_roles(cache.shelves),
        rank,
        patch,
        |r: RoleRowView| r.rank == rank && r.patch == patch,
    );
}

proof fn lemma_rows_at(
    rows: Seq<RoleRowView>,
    rank: Seq<char>,
    patch: Seq<char>,
    wanted: spec_fn(RoleRowView) -> bool,
)
    requires
        forall|r: RoleRowView| #[trigger] wanted(r) <==> r.rank == rank && r.patch == patch,
    ensures
        rows_at(rows, rank, patch) == rows.filter(wanted).len(),
    decreases rows.len(),
{
    reveal(Seq::filter);
    if rows.len() > 0 {
        lemma_rows_at(rows.drop_last(), rank, patch, wanted);
    }
}

/// What stands in for a rank and patch are they themselves as long as there are rows of
/// theirs, or none at all; else the rank and patch that no other has more rows than.
pub proof fn law_stand_in_is_fullest(
    cache: Cache,
    rank: Seq<char>,
    patch: Seq<char>,
    found: (Seq<char>, Seq<char>),
    other: (Seq<char>, Seq<char>),
)
    requires
        cache.stands_in(rank, patch, found),
    ensures
        cache.role_rows(rank, patch) > 0 ==> found == (rank, patch),
        all_roles(cache.shelves).len() == 0 ==> found == (rank, patch),
        cache.role_rows(rank, patch) == 0 ==> cache.role_rows(found.0, found.1) >= cache.role_rows(
            other.0,
            other.1,
        ),
{
    let rows = all_roles(cache.shelves);
    if rows.len() == 0 {
        assert(rows_at(rows, other.0, other.1) == 0);
    } else if cache.role_rows(rank, patch) == 0 {
        let i = choose|i: int| #[trigger] is_fullest(rows, i) && found == (rows[i].rank, rows[i].patch);
        if rows_at(rows, other.0, other.1) > 0 {
            lemma_some_row_at(rows, other.0, other.1);
            let j = choose|j: int|
                0 <= j < rows.len() && (#[trigger] rows[j]).rank == other.0 && rows[j].patch
                    == other.1;
            assert(rows_at(rows, rows[j].rank, rows[j].patch) <= rows_at(
                rows,
                rows[i].rank,
                rows[i].patch,
            ));
        }
    }
}

proof fn lemma_some_row_at(rows: Seq<RoleRowView>, rank: Seq<char>, patch: Seq<char>)
    requires
        rows_at(rows, rank, patch) > 0,
    ensures
        exists|i: int|
            0 <= i < rows.len() && (#[trigger] rows[i]).rank == rank && rows[i].patch == patch,
    decreases rows.len(),
{
    let rest = rows.drop_last();
    if rows_at(rest, rank, patch) > 0 {
        lemma_some_row_at(rest, rank, patch);
        let i = choose|i: int|
            0 <= i < rest.len() && (#[trigger] rest[i]).rank == rank && rest[i].patch == patch;
        assert(rows[i] == rest[i]);
    } else {
        assert(rows[rows.len() - 1] == rows.last());
    }
}

/// The row has the most games of those of the rank and patch, and is the first such.
pub open spec fn is_busiest(rows: Seq<RoleRowView>, rank: Seq<char>, patch: Seq<char>, at: int) -> bool {
    &&& 0 <= at < rows.len()
    &&& rows[at].rank == rank && rows[at].patch == patch
    &&& forall|j: int|
        0 <= j < rows.len() && (#[trigger] rows[j]).rank == rank && rows[j].patch == patch
            ==> rows[j].meta.games <= rows[at].meta.games
    &&& forall|j: int|
        0 <= j < at && (#[trigger] rows[j]).rank == rank && rows[j].patch == patch
            ==> rows[j].meta.games < rows[at].meta.games
}

proof fn lemma_busiest(rows: Seq<RoleRowView>, rank: Seq<char>, patch: Seq<char>)
    ensures
        match busiest(rows, rank, patch) {
            Some(row) => exists|at: int| #[trigger]
                is_busiest(rows, rank, patch, at) && rows[at] == row,
            None => forall|j: int|
                0 <= j < rows.len() ==> !((#[trigger] rows[j]).rank == rank && rows[j].patch
                    == patch),
        },
    decreases rows.len(),
{
    if rows.len() > 0 {
        let rest = rows.drop_last();
        let last = rows.len() - 1;
        lemma_busiest(rest, rank, patch);
        let before = busiest(rest, rank, patch);
        if before is Some {
            let at = choose|at: int| #[trigger]
                is_busiest(rest, rank, patch, at) && rest[at] == before->0;
            assert(rows[at] == rest[at]);
            if busiest(rows, rank, patch) == before && !(rows[last].rank == rank && rows[last].patch
                == patch && rows[last].meta.games > rest[at].meta.games) {
                assert forall|j: int|
                    0 <= j < rows.len() && (#[trigger] rows[j]).rank == rank && rows[j].patch
                        == patch implies rows[j].meta.games <= rows[at].meta.games by {
                    if j < last {
                        assert(rest[j] == rows[j]);
                    }
                }
                assert forall|j: int|
                    0 <= j < at && (#[trigger] rows[j]).rank == rank && rows[j].patch
                        == patch implies rows[j].meta.games < rows[at].meta.games by {
                    assert(rest[j] == rows[j]);
                }
                assert(is_busiest(rows, rank, patch, at));
            } else {
                assert forall|j: int|
                    0 <= j < last && (#[trigger] rows[j]).rank == rank && rows[j].patch
                        == patch implies rows[j].meta.games < rows[last].meta.games by {
                    assert(rest[j] == rows[j]);
                }
                assert(is_busiest(rows, rank, patch, last));
            }
        } else {
            assert forall|j: int| 0 <= j < last implies !((#[trigger] rows[j]).rank == rank
                && rows[j].patch == patch) by {
                assert(rest[j] == rows[j]);
            }
            if busiest(rows, rank, patch) is Some {
                assert(is_busiest(rows, rank, patch, last));
            }
        }
    }
}

/// The role that a champion is played in most goes by its row with the most games, of the
/// rank and patch: the usual role that the row names, and else the row's own. There is none
/// where there is no row, or where neither names a role.
pub proof fn law_primary_role(
    cache: Cache,
    champion_id: i64,
    rank: Seq<char>,
    patch: Seq<char>,
    at: int,
)
    ensures
        ({
            let rows = shelf_of(cache.shelves, champion_id).roles;
            let role = if rows[at].meta.default_lane.len() > 0 {
                role_name(rows[at].meta.default_lane)
            } else {
                role_name(rows[at].role)
            };
            let found = cache.primary_role(champion_id, rank, patch);
            &&& is_busiest(rows, rank, patch, at) && role.len() > 0 ==> found == Some(role)
            &&& is_busiest(rows, rank, patch, at) && role.len() == 0 ==> found is None
            &&& (forall|j: int|
                0 <= j < rows.len() ==> !((#[trigger] rows[j]).rank == rank && rows[j].patch
                    == patch)) ==> found is None
        }),
{
    let rows = shelf_of(cache.shelves, champion_id).roles;
    lemma_busiest(rows, rank, patch);
    if busiest(rows, rank, patch) is Some {
        let to = choose|to: int| #[trigger]
            is_busiest(rows, rank, patch, to) && rows[to] == busiest(rows, rank, patch)->0;
        assert(rows[to].rank == rank && rows[to].patch == patch);
        if is_busiest(rows, rank, patch, at) {
            assert(rows[at].meta.games <= rows[to].meta.games);
            assert(rows[to].meta.games <= rows[at].meta.games);
            assert(at == to);
        }
    } else {
        assert(!is_busiest(rows, rank, patch, at));
    }
}

// ------------------------------------------------------------ who is played in a role

spec fn shelf_tells(
    shelf: ShelfView,
    id: i64,
    role: Seq<char>,
    rank: Seq<char>,
    patch: Seq<char>,
    meta: RoleMetaView,
) -> bool {
    &&& shelf.champion_id == id
    &&& find(shelf.roles, for_role(role, rank, patch)) is Some
    &&& find(shelf.roles, for_role(role, rank, patch))->0.meta == meta
}

/// Whether the figures are enough, by the one reckoning or the other.
spec fn enough(meta: RoleMetaView, role: Seq<char>, strict: bool) -> bool {
    if strict {
        meta.in_pool(role)
    } else {
        meta.games >= 80
    }
}

proof fn lemma_role_champions(
    shelves: Seq<ShelfView>,
    role: Seq<char>,
    rank: Seq<char>,
    patch: Seq<char>,
    strict: bool,
    id: i64,
    meta: RoleMetaView,
)
    ensures
        role_champions(shelves, role, rank, patch, strict).contains((id, meta)) <==> enough(
            meta,
            role,
            strict,
        ) && exists|k: int|
            0 <= k < shelves.len() && shelf_tells(#[trigger] shelves[k], id, role, rank, patch, meta),
    decreases shelves.len(),
{
    let list = role_champions(shelves, role, rank, patch, strict);
    if shelves.len() == 0 {
        assert(!list.contains((id, meta)));
    } else {
        let rest = shelves.drop_last();
        let last = shelves.len() - 1;
        lemma_role_champions(rest, role, rank, patch, strict, id, meta);
        let before = role_champions(rest, role, rank, patch, strict);
        if list.contains((id, meta)) {
            let i = choose|i: int| 0 <= i < list.len() && list[i] == (id, meta);
            if i < before.len() {
                assert(before[i] == list[i]);
                assert(before.contains((id, meta)));
                let k = choose|k: int|
                    0 <= k < rest.len() && shelf_tells(
                        #[trigger] rest[k],
                        id,
                        role,
                        rank,
                        patch,
                        meta,
                    );
                assert(shelves[k] == rest[k]);
            } else {
                assert(shelf_tells(shelves[last], id, role, rank, patch, meta));
            }
        }
        if enough(meta, role, strict) && exists|k: int|
            0 <= k < shelves.len() && shelf_tells(#[trigger] shelves[k], id, role, rank, patch, meta) {
            let k = choose|k: int|
                0 <= k < shelves.len() && shelf_tells(
                    #[trigger] shelves[k],
                    id,
                    role,
                    rank,
                    patch,
                    meta,
                );
            if k < last {
                assert(rest[k] == shelves[k]);
                assert(before.contains((id, meta)));
                let i = choose|i: int| 0 <= i < before.len() && before[i] == (id, meta);
                assert(list[i] == (id, meta));
            } else {
                assert(list[before.len() as int] == (id, meta));
            }
        }
    }
}

proof fn lemma_told_by_shelf(
    cache: Cache,
    role: Seq<char>,
    rank: Seq<char>,
    patch: Seq<char>,
    id: i64,
    meta: RoleMetaView,
)
    requires
        cache.tidy(),
    ensures
        cache.role_meta(id, role, rank, patch) == Some(meta) <==> exists|k: int|
            0 <= k < cache.shelves.len() && shelf_tells(
                #[trigger] cache.shelves[k],
                id,
                role,
                rank,
                patch,
                meta,
            ),
{
    let shelves = cache.shelves;
    let wanted = of_champion(id);
    lemma_place(shelves, wanted);
    let at = place(shelves, wanted);
    if exists|k: int|
        0 <= k < shelves.len() && shelf_tells(#[trigger] shelves[k], id, role, rank, patch, meta) {
        let k = choose|k: int|
            0 <= k < shelves.len() && shelf_tells(
                #[trigger] shelves[k],
                id,
                role,
                rank,
                patch,
                meta,
            );
        assert(wanted(shelves[k]));
        assert(at <= k);
        if at < k {
            assert(!crate::stats::cache::same_champion()(shelves[at], shelves[k]));
        }
    }
    if cache.role_meta(id, role, rank, patch) == Some(meta) {
        if at < shelves.len() {
            assert(shelf_tells(shelves[at], id, role, rank, patch, meta));
        } else {
            lemma_place(Seq::<RoleRowView>::empty(), for_role(role, rank, patch));
        }
    }
}

/// The champions of a role are exactly those that are played there, each with its figures;
/// and where the cache knows of none, exactly those with 80 games or more there.
pub proof fn law_champions_in_role(
    cache: Cache,
    role: Seq<char>,
    rank: Seq<char>,
    patch: Seq<char>,
    id: i64,
    meta: RoleMetaView,
)
    requires
        cache.tidy(),
    ensures
        ({
            let list = cache.champions_in_role(role, rank, patch);
            let some_played = exists|x: i64|
                (#[trigger] cache.role_meta(x, role, rank, patch)) is Some && cache.role_meta(
                    x,
                    role,
                    rank,
                    patch,
                )->0.in_pool(role);
            &&& some_played ==> (list.contains((id, meta)) <==> cache.role_meta(
                id,
                role,
                rank,
                patch,
            ) == Some(meta) && meta.in_pool(role))
            &&& !some_played ==> (list.contains((id, meta)) <==> cache.role_meta(
                id,
                role,
                rank,
                patch,
            ) == Some(meta) && meta.games >= 80)
        }),
{
    let strict = role_champions(cache.shelves, role, rank, patch, true);
    lemma_told_by_shelf(cache, role, rank, patch, id, meta);
    lemma_role_champions(cache.shelves, role, rank, patch, true, id, meta);
    lemma_role_champions(cache.shelves, role, rank, patch, false, id, meta);
    if exists|x: i64|
        (#[trigger] cache.role_meta(x, role, rank, patch)) is Some && cache.role_meta(
            x,
            role,
            rank,
            patch,
        )->0.in_pool(role) {
        let x = choose|x: i64|
            (#[trigger] cache.role_meta(x, role, rank, patch)) is Some && cache.role_meta(
                x,
                role,
                rank,
                patch,
            )->0.in_pool(role);
        let m = cache.role_meta(x, role, rank, patch)->0;
        lemma_told_by_shelf(cache, role, rank, patch, x, m);
        lemma_role_champions(cache.shelves, role, rank, patch, true, x, m);
        assert(strict.contains((x, m)));
        assert(strict.len() > 0);
    } else if strict.len() > 0 {
        let (x, m) = strict[0];
        assert(strict.contains((x, m)));
        lemma_role_champions(cache.shelves, role, rank, patch, true, x, m);
        lemma_told_by_shelf(cache, role, rank, patch, x, m);
        assert(cache.role_meta(x, role, rank, patch) is Some);
    }
}

// ------------------------------------------------------------ what is written

proof fn lemma_other_shelf(shelves: Seq<ShelfView>, shelf: ShelfView, id: i64)
    ensures
        shelf_of(put_shelf(shelves, shelf), id) == (if id == shelf.champion_id {
            shelf
        } else {
            shelf_of(shelves, id)
        }),
{
    law_find_after_put(shelves, of_champion(shelf.champion_id), shelf, of_champion(id));
}

/// Writing how a champion does in a role leaves all matchups, synergies and notes.
pub proof fn law_role_leaves_the_rest(
    cache: Cache,
    champion_id: i64,
    row: RoleRowView,
    id: i64,
    other: i64,
    role: Seq<char>,
    vs_role: Seq<char>,
    rank: Seq<char>,
    patch: Seq<char>,
)
    ensures
        ({
            let later = after(cache, ChangeView::Role { champion_id, role: row });
            &&& later.matchup(id, other, role, vs_role, rank, patch) == cache.matchup(
                id,
                other,
                role,
                vs_role,
                rank,
                patch,
            )
            &&& later.synergy(id, other, rank, patch) == cache.synergy(id, other, rank, patch)
            &&& later.lane_winrates(id, role, rank, patch) == cache.lane_winrates(
                id,
                role,
                rank,
                patch,
            )
            &&& later.notes == cache.notes
        }),
{
    let shelf = shelf_of(cache.shelves, champion_id);
    let changed = ShelfView {
        champion_id,
        roles: put(shelf.roles, for_role(row.role, row.rank, row.patch), row),
        ..shelf
    };
    lemma_other_shelf(cache.shelves, changed, id);
}

/// Writing how a champion does beside an ally leaves all roles, matchups and notes.
pub proof fn law_synergy_leaves_the_rest(
    cache: Cache,
    champion_id: i64,
    row: SynergyRowView,
    id: i64,
    other: i64,
    role: Seq<char>,
    vs_role: Seq<char>,
    rank: Seq<char>,
    patch: Seq<char>,
)
    ensures
        ({
            let later = after(cache, ChangeView::Synergy { champion_id, synergy: row });
            &&& later.matchup(id, other, role, vs_role, rank, patch) == cache.matchup(
                id,
                other,
                role,
                vs_role,
                rank,
                patch,
            )
            &&& later.role_meta(id, role, rank, patch) == cache.role_meta(id, role, rank, patch)
            &&& later.primary_role(id, rank, patch) == cache.primary_role(id, rank, patch)
            &&& later.notes == cache.notes
        }),
{
    let shelf = shelf_of(cache.shelves, champion_id);
    let changed = ShelfView {
        champion_id,
        synergies: put(
            shelf.synergies,
            crate::stats::cache::for_ally(row.ally_id, row.rank, row.patch),
            row,
        ),
        ..shelf
    };
    lemma_other_shelf(cache.shelves, changed, id);
}

/// A note moves nothing but itself.
pub proof fn law_note_leaves_the_rest(cache: Cache, key: Seq<char>, value: Seq<char>)
    ensures
        after(cache, ChangeView::Note { key, value }).shelves == cache.shelves,
{
}

/// A change can be kept exactly where its rates are numbers: the win, pick and ban rate of
/// a role, the win rate and the edge of a pairing. Notes and clearing always can.
pub proof fn law_storable(
    champion_id: i64,
    role: RoleRowView,
    matchup: MatchupRowView,
    synergy: SynergyRowView,
    key: Seq<char>,
    value: Seq<char>,
)
    ensures
        storable(ChangeView::Role { champion_id, role }) <==> !role.meta.winrate.is_nan()
            && !role.meta.pickrate.is_nan() && !role.meta.banrate.is_nan(),
        storable(ChangeView::Matchup { champion_id, matchup }) <==> !matchup.stat.winrate.is_nan()
            && (matchup.stat.delta is None || !matchup.stat.delta->0.is_nan()),
        storable(ChangeView::Synergy { champion_id, synergy }) <==> !synergy.stat.winrate.is_nan()
            && (synergy.stat.delta is None || !synergy.stat.delta->0.is_nan()),
        storable(ChangeView::Note { key, value }),
        storable(ChangeView::Clear { rank: key, patch: value }),
{
}

/// Of a list of changes those before the first that cannot be kept are written, in order:
/// each as it is, but for a share of the games that is not a number, which counts as none.
pub proof fn law_written(changes: Seq<ChangeView>, n: int)
    requires
        0 <= n <= changes.len(),
        forall|i: int| 0 <= i < n ==> storable(#[trigger] changes[i]),
        n < changes.len() ==> !storable(changes[n]),
    ensures
        written(changes).len() == n,
        forall|i: int|
            0 <= i < n ==> match changes[i] {
                ChangeView::Role { champion_id, role } => {
                    &&& #[trigger] written(changes)[i] matches ChangeView::Role {
                        champion_id: id,
                        role: row,
                    }
                    &&& id == champion_id
                    &&& row.role == role.role
                    &&& row.rank == role.rank
                    &&& row.patch == role.patch
                    &&& row.meta.winrate == role.meta.winrate
                    &&& row.meta.pickrate == role.meta.pickrate
                    &&& row.meta.banrate == role.meta.banrate
                    &&& row.meta.games == role.meta.games
                    &&& row.meta.default_lane == role.meta.default_lane
                    &&& row.meta.pct_lane == (if role.meta.pct_lane.is_nan() {
                        Real { bits: 0 }
                    } else {
                        role.meta.pct_lane
                    })
                },
                change => written(changes)[i] == change,
            },
{
    lemma_written(changes, n);
}

proof fn lemma_written(changes: Seq<ChangeView>, n: int)
    requires
        0 <= n <= changes.len(),
        forall|i: int| 0 <= i < n ==> storable(#[trigger] changes[i]),
        n < changes.len() ==> !storable(changes[n]),
    ensures
        written(changes).len() == n,
        forall|i: int| 0 <= i < n ==> #[trigger] written(changes)[i] == settled(changes[i]),
    decreases changes.len(),
{
    if changes.len() > 0 {
        let rest = changes.drop_last();
        if n == changes.len() {
            assert(all_storable(changes));
            assert forall|i: int| 0 <= i < n - 1 implies storable(#[trigger] rest[i]) by {
                assert(rest[i] == changes[i]);
            }
            lemma_written(rest, n - 1);
        } else {
            assert(!all_storable(changes));
            assert forall|i: int| 0 <= i < n implies storable(#[trigger] rest[i]) by {
                assert(rest[i] == changes[i]);
            }
            if n < rest.len() {
                assert(rest[n] == changes[n]);
            }
            lemma_written(rest, n);
        }
    }
}

/// Writing a matchup against one role leaves the one against another as it was.
pub proof fn law_matchup_leaves_other_roles(
    cache: Cache,
    champion_id: i64,
    row: MatchupRowView,
    vs_role: Seq<char>,
)
    requires
        vs_role != row.vs_role,
        some_row(
            shelf_of(cache.shelves, champion_id).matchups,
            |r: MatchupRowView|
                concerns(r, row.enemy_id, row.role, row.rank, row.patch) && r.vs_role == vs_role,
        ),
    ensures
        after(cache, ChangeView::Matchup { champion_id, matchup: row }).matchup(
            champion_id,
            row.enemy_id,
            row.role,
            vs_role,
            row.rank,
            row.patch,
        ) == cache.matchup(champion_id, row.enemy_id, row.role, vs_role, row.rank, row.patch),
{
    let shelf = shelf_of(cache.shelves, champion_id);
    let key = crate::stats::cache::for_matchup(row);
    let changed = ShelfView { champion_id, matchups: put(shelf.matchups, key, row), ..shelf };
    let wanted = answers(0, row.enemy_id, row.role, vs_role, row.rank, row.patch);
    let exact = |r: MatchupRowView|
        concerns(r, row.enemy_id, row.role, row.rank, row.patch) && r.vs_role == vs_role;
    lemma_other_shelf(cache.shelves, changed, champion_id);
    law_find_after_put(shelf.matchups, key, row, wanted);
    lemma_first_row(shelf.matchups, wanted, exact);
}

} // verus!
