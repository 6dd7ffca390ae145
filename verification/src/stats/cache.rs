//! What the cache of statistics holds, mathematically: what writing does to it,
//! how questions are answered from it, and what can be relied on.
use crate::lists::{
    find, law_find_after_put, lemma_one_each_after_put, lemma_one_each_filtered, lemma_place,
    lemma_place_is, one_each, place, put,
};
use crate::models::role_name;
use crate::number::Real;
use crate::stats::rows::{
    ChangeView, MatchupRowView, MatchupStat, RoleMetaView, RoleRowView, SynergyRowView,
};
use vstd::prelude::*;

verus! {

// ------------------------------------------------------------------ the tables

/// The rows of a role at a rank and patch.
pub open spec fn for_role(role: Seq<char>, rank: Seq<char>, patch: Seq<char>) -> spec_fn(
    RoleRowView,
) -> bool {
    |r: RoleRowView| r.role == role && r.rank == rank && r.patch == patch
}

/// The rows of a matchup at a rank and patch.
pub open spec fn for_matchup(row: MatchupRowView) -> spec_fn(MatchupRowView) -> bool {
    |r: MatchupRowView|
        r.enemy_id == row.enemy_id && r.role == row.role && r.kind == row.kind && r.vs_role
            == row.vs_role && r.rank == row.rank && r.patch == row.patch
}

/// The rows of an ally at a rank and patch.
pub open spec fn for_ally(ally_id: i64, rank: Seq<char>, patch: Seq<char>) -> spec_fn(
    SynergyRowView,
) -> bool {
    |r: SynergyRowView| r.ally_id == ally_id && r.rank == rank && r.patch == patch
}

/// The notes under a key.
pub open spec fn under_key(key: Seq<char>) -> spec_fn((Seq<char>, Seq<char>)) -> bool {
    |note: (Seq<char>, Seq<char>)| note.0 == key
}

/// The shelf of a champion.
pub open spec fn of_champion(champion_id: i64) -> spec_fn(ShelfView) -> bool {
    |shelf: ShelfView| shelf.champion_id == champion_id
}

/// What is kept of one champion, mathematically.
#[verifier::ext_equal]
pub struct ShelfView {
    pub champion_id: i64,
    pub roles: Seq<RoleRowView>,
    pub matchups: Seq<MatchupRowView>,
    pub synergies: Seq<SynergyRowView>,
}

/// What the cache holds, mathematically: free notes, and a shelf for each
/// champion.
#[verifier::ext_equal]
pub struct Cache {
    pub notes: Seq<(Seq<char>, Seq<char>)>,
    pub shelves: Seq<ShelfView>,
}

/// A shelf with nothing on it.
pub open spec fn empty_shelf(champion_id: i64) -> ShelfView {
    ShelfView {
        champion_id,
        roles: Seq::empty(),
        matchups: Seq::empty(),
        synergies: Seq::empty(),
    }
}

/// The shelf of `champion_id`.
pub open spec fn shelf_of(shelves: Seq<ShelfView>, champion_id: i64) -> ShelfView {
    match find(shelves, of_champion(champion_id)) {
        Some(shelf) => shelf,
        None => empty_shelf(champion_id),
    }
}

/// The shelves with `shelf` as the one of its champion.
pub open spec fn put_shelf(shelves: Seq<ShelfView>, shelf: ShelfView) -> Seq<ShelfView> {
    put(shelves, of_champion(shelf.champion_id), shelf)
}

/// The matchups of any other rank or patch.
pub open spec fn matchups_besides(rank: Seq<char>, patch: Seq<char>) -> spec_fn(
    MatchupRowView,
) -> bool {
    |r: MatchupRowView| !(r.rank == rank && r.patch == patch)
}

/// The synergies of any other rank or patch.
pub open spec fn synergies_besides(rank: Seq<char>, patch: Seq<char>) -> spec_fn(
    SynergyRowView,
) -> bool {
    |r: SynergyRowView| !(r.rank == rank && r.patch == patch)
}

/// `shelf` without the matchups and synergies of one rank and patch. The roles
/// stay, so that there is something to recommend from while the rest is fetched.
pub open spec fn cleared(shelf: ShelfView, rank: Seq<char>, patch: Seq<char>) -> ShelfView {
    ShelfView {
        matchups: shelf.matchups.filter(matchups_besides(rank, patch)),
        synergies: shelf.synergies.filter(synergies_besides(rank, patch)),
        ..shelf
    }
}

/// The cache once `change` is written to it.
pub open spec fn after(cache: Cache, change: ChangeView) -> Cache {
    match change {
        ChangeView::Note { key, value } => Cache {
            notes: put(cache.notes, under_key(key), (key, value)),
            ..cache
        },
        ChangeView::Role { champion_id, role: row } => {
            let shelf = shelf_of(cache.shelves, champion_id);
            Cache {
                shelves: put_shelf(
                    cache.shelves,
                    ShelfView { champion_id, roles: put(shelf.roles, for_role(row.role, row.rank, row.patch), row),
                        ..shelf
                    },
                ),
                ..cache
            }
        },
        ChangeView::Matchup { champion_id, matchup: row } => {
            let shelf = shelf_of(cache.shelves, champion_id);
            Cache {
                shelves: put_shelf(
                    cache.shelves,
                    ShelfView { champion_id, matchups: put(shelf.matchups, for_matchup(row), row), ..shelf },
                ),
                ..cache
            }
        },
        ChangeView::Synergy { champion_id, synergy: row } => {
            let shelf = shelf_of(cache.shelves, champion_id);
            Cache {
                shelves: put_shelf(
                    cache.shelves,
                    ShelfView {
                        champion_id,
                        synergies: put(
                            shelf.synergies,
                            for_ally(row.ally_id, row.rank, row.patch),
                            row,
                        ),
                        ..shelf
                    },
                ),
                ..cache
            }
        },
        ChangeView::Clear { rank, patch } => Cache {
            shelves: Seq::new(
                cache.shelves.len(),
                |i: int| cleared(cache.shelves[i], rank, patch),
            ),
            ..cache
        },
    }
}

/// The cache once `changes` are written to it, in order.
pub open spec fn after_all(cache: Cache, changes: Seq<ChangeView>) -> Cache
    decreases changes.len(),
{
    if changes.len() == 0 {
        cache
    } else {
        after(after_all(cache, changes.drop_last()), changes.last())
    }
}

/// Writing how a champion does in a role.
pub open spec fn role_change(
    champion_id: i64,
    role: Seq<char>,
    rank: Seq<char>,
    patch: Seq<char>,
    meta: RoleMetaView,
) -> ChangeView {
    ChangeView::Role { champion_id, role: RoleRowView { role, rank, patch, meta } }
}

/// Writing how a champion does in a role against an enemy.
pub open spec fn matchup_change(
    champion_id: i64,
    enemy_id: i64,
    role: Seq<char>,
    kind: Seq<char>,
    vs_role: Seq<char>,
    rank: Seq<char>,
    patch: Seq<char>,
    stat: MatchupStat,
) -> ChangeView {
    ChangeView::Matchup {
        champion_id,
        matchup: MatchupRowView { enemy_id, role, kind, vs_role, rank, patch, stat },
    }
}

/// Writing how a champion does beside an ally.
pub open spec fn synergy_change(
    champion_id: i64,
    ally_id: i64,
    rank: Seq<char>,
    patch: Seq<char>,
    stat: MatchupStat,
) -> ChangeView {
    ChangeView::Synergy { champion_id, synergy: SynergyRowView { ally_id, rank, patch, stat } }
}

// ------------------------------------------------------------------ asking

/// How well a matchup row answers a question: 0 where it is for the very role
/// that was asked for, 1 where it is the lane matchup, 2 where it is for no role
/// in particular.
pub open spec fn answers(
    grade: int,
    enemy_id: i64,
    role: Seq<char>,
    vs_role: Seq<char>,
    rank: Seq<char>,
    patch: Seq<char>,
) -> spec_fn(MatchupRowView) -> bool {
    |r: MatchupRowView|
        r.enemy_id == enemy_id && r.role == role && r.rank == rank && r.patch == patch && (if grade
            == 0 {
            r.vs_role == vs_role
        } else if grade == 1 {
            r.kind == "lane"@
        } else {
            r.vs_role == Seq::<char>::empty()
        })
}

/// The lane matchups of a role at a rank and patch.
pub open spec fn lane_rows(role: Seq<char>, rank: Seq<char>, patch: Seq<char>) -> spec_fn(
    MatchupRowView,
) -> bool {
    |r: MatchupRowView|
        r.role == role && r.kind == "lane"@ && r.rank == rank && r.patch == patch
}

/// The role rows of all shelves, in order.
pub open spec fn all_roles(shelves: Seq<ShelfView>) -> Seq<RoleRowView>
    decreases shelves.len(),
{
    if shelves.len() == 0 {
        Seq::empty()
    } else {
        all_roles(shelves.drop_last()) + shelves.last().roles
    }
}

/// How many of the rows are of a rank and patch.
pub open spec fn rows_at(rows: Seq<RoleRowView>, rank: Seq<char>, patch: Seq<char>) -> nat
    decreases rows.len(),
{
    if rows.len() == 0 {
        0
    } else {
        rows_at(rows.drop_last(), rank, patch) + (if rows.last().rank == rank && rows.last().patch
            == patch {
            1nat
        } else {
            0nat
        })
    }
}

/// Of the rows of a rank and patch the first with the most games.
pub open spec fn busiest(rows: Seq<RoleRowView>, rank: Seq<char>, patch: Seq<char>) -> Option<
    RoleRowView,
>
    decreases rows.len(),
{
    if rows.len() == 0 {
        None
    } else {
        let before = busiest(rows.drop_last(), rank, patch);
        let row = rows.last();
        if row.rank == rank && row.patch == patch && (match before {
            Some(other) => row.meta.games > other.meta.games,
            None => true,
        }) {
            Some(row)
        } else {
            before
        }
    }
}

/// The champions of the shelves that are played in a role: by the strict
/// reckoning, or with as few as 80 games there.
pub open spec fn role_champions(
    shelves: Seq<ShelfView>,
    role: Seq<char>,
    rank: Seq<char>,
    patch: Seq<char>,
    strict: bool,
) -> Seq<(i64, RoleMetaView)>
    decreases shelves.len(),
{
    if shelves.len() == 0 {
        Seq::empty()
    } else {
        let before = role_champions(shelves.drop_last(), role, rank, patch, strict);
        let shelf = shelves.last();
        match find(shelf.roles, for_role(role, rank, patch)) {
            Some(row) => if (strict && row.meta.in_pool(role)) || (!strict && row.meta.games
                >= 80) {
                before.push((shelf.champion_id, row.meta))
            } else {
                before
            },
            None => before,
        }
    }
}

impl Cache {
    /// The note under `key`.
    pub open spec fn note(self, key: Seq<char>) -> Option<Seq<char>> {
        match find(self.notes, under_key(key)) {
            Some(note) => Some(note.1),
            None => None,
        }
    }

    /// How a champion does in a role.
    pub open spec fn role_meta(
        self,
        champion_id: i64,
        role: Seq<char>,
        rank: Seq<char>,
        patch: Seq<char>,
    ) -> Option<RoleMetaView> {
        match find(shelf_of(self.shelves, champion_id).roles, for_role(role, rank, patch)) {
            Some(row) => Some(row.meta),
            None => None,
        }
    }

    /// How a champion does in a role against an enemy that plays `vs_role`: by
    /// the row for that role, else by the lane matchup, else by one for no role in
    /// particular.
    pub open spec fn matchup(
        self,
        champion_id: i64,
        enemy_id: i64,
        role: Seq<char>,
        vs_role: Seq<char>,
        rank: Seq<char>,
        patch: Seq<char>,
    ) -> Option<MatchupStat> {
        let rows = shelf_of(self.shelves, champion_id).matchups;
        match find(rows, answers(0, enemy_id, role, vs_role, rank, patch)) {
            Some(row) => Some(row.stat),
            None => match find(rows, answers(1, enemy_id, role, vs_role, rank, patch)) {
                Some(row) => Some(row.stat),
                None => match find(rows, answers(2, enemy_id, role, vs_role, rank, patch)) {
                    Some(row) => Some(row.stat),
                    None => None,
                },
            },
        }
    }

    /// How a champion does beside an ally.
    pub open spec fn synergy(
        self,
        champion_id: i64,
        ally_id: i64,
        rank: Seq<char>,
        patch: Seq<char>,
    ) -> Option<MatchupStat> {
        match find(
            shelf_of(self.shelves, champion_id).synergies,
            for_ally(ally_id, rank, patch),
        ) {
            Some(row) => Some(row.stat),
            None => None,
        }
    }

    /// The win rates of a champion's lane matchups in a role.
    pub open spec fn lane_winrates(
        self,
        champion_id: i64,
        role: Seq<char>,
        rank: Seq<char>,
        patch: Seq<char>,
    ) -> Seq<Real> {
        shelf_of(self.shelves, champion_id).matchups.filter(
            lane_rows(role, rank, patch),
        ).map_values(|r: MatchupRowView| r.stat.winrate)
    }

    /// The champions that are played in a role; where the strict reckoning finds
    /// none, those with some games there.
    pub open spec fn champions_in_role(
        self,
        role: Seq<char>,
        rank: Seq<char>,
        patch: Seq<char>,
    ) -> Seq<(i64, RoleMetaView)> {
        let strict = role_champions(self.shelves, role, rank, patch, true);
        if strict.len() > 0 {
            strict
        } else {
            role_champions(self.shelves, role, rank, patch, false)
        }
    }

    /// The role that a champion is played in most.
    pub open spec fn primary_role(
        self,
        champion_id: i64,
        rank: Seq<char>,
        patch: Seq<char>,
    ) -> Option<Seq<char>> {
        match busiest(shelf_of(self.shelves, champion_id).roles, rank, patch) {
            Some(row) => {
                let role = role_name(
                    if row.meta.default_lane.len() > 0 {
                        row.meta.default_lane
                    } else {
                        row.role
                    },
                );
                if role.len() > 0 {
                    Some(role)
                } else {
                    None
                }
            },
            None => None,
        }
    }

    /// How many role rows there are of a rank and patch.
    pub open spec fn role_rows(self, rank: Seq<char>, patch: Seq<char>) -> nat {
        rows_at(all_roles(self.shelves), rank, patch)
    }

    /// There is a matchup of the rank and patch.
    pub open spec fn has_matchup(self, rank: Seq<char>, patch: Seq<char>) -> bool {
        exists|i: int, j: int|
            0 <= i < self.shelves.len() && 0 <= j < self.shelves[i].matchups.len() && {
                let row = #[trigger] self.shelves[i].matchups[j];
                row.rank == rank && row.patch == patch
            }
    }

    /// The rank and patch whose statistics stand in for those of `rank` and
    /// `patch`: themselves where there are role rows of theirs or none at all,
    /// else those with the most role rows, the first of several.
    pub open spec fn stands_in(
        self,
        rank: Seq<char>,
        patch: Seq<char>,
        found: (Seq<char>, Seq<char>),
    ) -> bool {
        let rows = all_roles(self.shelves);
        if rows_at(rows, rank, patch) > 0 || rows.len() == 0 {
            found == (rank, patch)
        } else {
            exists|i: int| #[trigger] is_fullest(rows, i) && found == (rows[i].rank, rows[i].patch)
        }
    }
}

/// No row is of a rank and patch with more rows than those of row `i`, and none
/// before it is of ones with as many.
pub open spec fn is_fullest(rows: Seq<RoleRowView>, i: int) -> bool {
    let most = rows_at(rows, rows[i].rank, rows[i].patch);
    &&& 0 <= i < rows.len()
    &&& forall|j: int|
        0 <= j < rows.len() ==> rows_at(rows, (#[trigger] rows[j]).rank, rows[j].patch) <= most
    &&& forall|j: int|
        0 <= j < i ==> rows_at(rows, (#[trigger] rows[j]).rank, rows[j].patch) < most
}

/// Two shelves are of one champion.
pub open spec fn same_champion() -> spec_fn(ShelfView, ShelfView) -> bool {
    |a: ShelfView, b: ShelfView| a.champion_id == b.champion_id
}

/// Two notes are under one key.
pub open spec fn same_note() -> spec_fn((Seq<char>, Seq<char>), (Seq<char>, Seq<char>)) -> bool {
    |a: (Seq<char>, Seq<char>), b: (Seq<char>, Seq<char>)| a.0 == b.0
}

/// Two role rows of a champion are of one role, rank and patch.
pub open spec fn same_role_row() -> spec_fn(RoleRowView, RoleRowView) -> bool {
    |a: RoleRowView, b: RoleRowView| a.role == b.role && a.rank == b.rank && a.patch == b.patch
}

/// Two matchups of a champion are of one enemy, one pair of roles, one kind, rank
/// and patch.
pub open spec fn same_matchup_row() -> spec_fn(MatchupRowView, MatchupRowView) -> bool {
    |a: MatchupRowView, b: MatchupRowView|
        a.enemy_id == b.enemy_id && a.role == b.role && a.kind == b.kind && a.vs_role == b.vs_role
            && a.rank == b.rank && a.patch == b.patch
}

/// Two synergies of a champion are of one ally, rank and patch.
pub open spec fn same_synergy_row() -> spec_fn(SynergyRowView, SynergyRowView) -> bool {
    |a: SynergyRowView, b: SynergyRowView|
        a.ally_id == b.ally_id && a.rank == b.rank && a.patch == b.patch
}

impl ShelfView {
    /// No key has two rows.
    pub open spec fn tidy(self) -> bool {
        &&& one_each(self.roles, same_role_row())
        &&& one_each(self.matchups, same_matchup_row())
        &&& one_each(self.synergies, same_synergy_row())
    }
}

impl Cache {
    /// No champion has two shelves, and no key two rows or notes.
    pub open spec fn tidy(self) -> bool {
        &&& one_each(self.shelves, same_champion())
        &&& one_each(self.notes, same_note())
        &&& forall|i: int| 0 <= i < self.shelves.len() ==> (#[trigger] self.shelves[i]).tidy()
    }
}

// ------------------------------------------------------------------ laws

proof fn lemma_rows_at_none(rows: Seq<RoleRowView>, rank: Seq<char>, patch: Seq<char>)
    ensures
        rows_at(rows, rank, patch) > 0 <==> exists|i: int|
            0 <= i < rows.len() && (#[trigger] rows[i]).rank == rank && rows[i].patch == patch,
    decreases rows.len(),
{
    if rows.len() > 0 {
        let rest = rows.drop_last();
        lemma_rows_at_none(rest, rank, patch);
        if rows_at(rest, rank, patch) > 0 {
            let i = choose|i: int|
                0 <= i < rest.len() && (#[trigger] rest[i]).rank == rank && rest[i].patch == patch;
            assert(rows[i] == rest[i]);
        }
        if exists|i: int|
            0 <= i < rows.len() && (#[trigger] rows[i]).rank == rank && rows[i].patch == patch {
            let i = choose|i: int|
                0 <= i < rows.len() && (#[trigger] rows[i]).rank == rank && rows[i].patch == patch;
            if i < rest.len() {
                assert(rest[i] == rows[i]);
            }
        }
    }
}

/// Writing changes one after the other is writing them all: a copy that follows
/// the changes as they are handed out holds what the cache holds.
pub proof fn law_changes_add_up(cache: Cache, first: Seq<ChangeView>, more: Seq<ChangeView>)
    ensures
        after_all(cache, first + more) == after_all(after_all(cache, first), more),
    decreases more.len(),
{
    if more.len() == 0 {
        assert(first + more =~= first);
    } else {
        assert((first + more).drop_last() =~= first + more.drop_last());
        law_changes_add_up(cache, first, more.drop_last());
    }
}

/// A note that was written is read back, and the others stay.
pub proof fn law_note_read_back(cache: Cache, key: Seq<char>, value: Seq<char>, other: Seq<char>)
    ensures
        after(cache, ChangeView::Note { key, value }).note(other) == (if other == key {
            Some(value)
        } else {
            cache.note(other)
        }),
{
    law_find_after_put(cache.notes, under_key(key), (key, value), under_key(other));
}

proof fn lemma_shelf_after_put(shelves: Seq<ShelfView>, shelf: ShelfView, champion_id: i64)
    ensures
        shelf_of(put_shelf(shelves, shelf), champion_id) == (if champion_id == shelf.champion_id {
            shelf
        } else {
            shelf_of(shelves, champion_id)
        }),
{
    law_find_after_put(shelves, of_champion(shelf.champion_id), shelf, of_champion(champion_id));
}

/// How a champion does in a role is read back as it was written, and what was
/// written of other champions, roles, ranks and patches stays.
pub proof fn law_role_read_back(
    cache: Cache,
    champion_id: i64,
    role: Seq<char>,
    rank: Seq<char>,
    patch: Seq<char>,
    meta: RoleMetaView,
    other_id: i64,
    other_role: Seq<char>,
    other_rank: Seq<char>,
    other_patch: Seq<char>,
)
    ensures
        after(cache, role_change(champion_id, role, rank, patch, meta)).role_meta(
            other_id,
            other_role,
            other_rank,
            other_patch,
        ) == (if other_id == champion_id && other_role == role && other_rank == rank && other_patch
            == patch {
            Some(meta)
        } else {
            cache.role_meta(other_id, other_role, other_rank, other_patch)
        }),
{
    let row = RoleRowView { role, rank, patch, meta };
    let shelf = shelf_of(cache.shelves, champion_id);
    let changed = ShelfView {
        champion_id,
        roles: put(shelf.roles, for_role(role, rank, patch), row),
        ..shelf
    };
    lemma_shelf_after_put(cache.shelves, changed, other_id);
    law_find_after_put(
        shelf.roles,
        for_role(role, rank, patch),
        row,
        for_role(other_role, other_rank, other_patch),
    );
}

/// How a champion does beside an ally is read back as it was written, and what
/// was written of other pairs, ranks and patches stays.
pub proof fn law_synergy_read_back(
    cache: Cache,
    champion_id: i64,
    ally_id: i64,
    rank: Seq<char>,
    patch: Seq<char>,
    stat: MatchupStat,
    other_id: i64,
    other_ally: i64,
    other_rank: Seq<char>,
    other_patch: Seq<char>,
)
    ensures
        after(cache, synergy_change(champion_id, ally_id, rank, patch, stat)).synergy(
            other_id,
            other_ally,
            other_rank,
            other_patch,
        ) == (if other_id == champion_id && other_ally == ally_id && other_rank == rank
            && other_patch == patch {
            Some(stat)
        } else {
            cache.synergy(other_id, other_ally, other_rank, other_patch)
        }),
{
    let row = SynergyRowView { ally_id, rank, patch, stat };
    let shelf = shelf_of(cache.shelves, champion_id);
    let changed = ShelfView {
        champion_id,
        synergies: put(shelf.synergies, for_ally(ally_id, rank, patch), row),
        ..shelf
    };
    lemma_shelf_after_put(cache.shelves, changed, other_id);
    law_find_after_put(
        shelf.synergies,
        for_ally(ally_id, rank, patch),
        row,
        for_ally(other_ally, other_rank, other_patch),
    );
}

/// A matchup is read back as it was written by whoever asks for the role that it
/// was written for, so long as the champion has no row of another kind for the
/// same enemy and roles.
pub proof fn law_matchup_read_back(
    cache: Cache,
    champion_id: i64,
    enemy_id: i64,
    role: Seq<char>,
    kind: Seq<char>,
    vs_role: Seq<char>,
    rank: Seq<char>,
    patch: Seq<char>,
    stat: MatchupStat,
)
    requires
        forall|i: int|
            0 <= i < shelf_of(cache.shelves, champion_id).matchups.len() ==> {
                let row = #[trigger] shelf_of(cache.shelves, champion_id).matchups[i];
                answers(0, enemy_id, role, vs_role, rank, patch)(row) ==> row.kind == kind
            },
    ensures
        after(
            cache,
            matchup_change(champion_id, enemy_id, role, kind, vs_role, rank, patch, stat),
        ).matchup(champion_id, enemy_id, role, vs_role, rank, patch) == Some(stat),
{
    let row = MatchupRowView { enemy_id, role, kind, vs_role, rank, patch, stat };
    let shelf = shelf_of(cache.shelves, champion_id);
    let key = for_matchup(row);
    let wanted = answers(0, enemy_id, role, vs_role, rank, patch);
    let rows = put(shelf.matchups, key, row);
    let changed = ShelfView { champion_id, matchups: rows, ..shelf };
    lemma_shelf_after_put(cache.shelves, changed, champion_id);
    lemma_place(shelf.matchups, key);
    let at = place(shelf.matchups, key);
    assert forall|i: int| 0 <= i < at implies !wanted(#[trigger] rows[i]) by {
        assert(rows[i] == shelf.matchups[i]);
    }
    lemma_place_is(rows, wanted, at);
}

/// Putting a row leaves the answer to a question that neither the row nor the one
/// that it takes the place of could answer.
proof fn lemma_find_beside_put<T>(
    s: Seq<T>,
    p: spec_fn(T) -> bool,
    item: T,
    wanted: spec_fn(T) -> bool,
)
    requires
        p(item),
        forall|x: T| #[trigger] p(x) ==> !wanted(x),
    ensures
        find(put(s, p, item), wanted) == find(s, wanted),
{
    law_find_after_put(s, p, item, wanted);
}

/// Writing a matchup leaves the answers for every other champion, enemy, role, rank
/// and patch as they were.
pub proof fn law_matchup_leaves_others(
    cache: Cache,
    champion_id: i64,
    row: MatchupRowView,
    other_id: i64,
    enemy_id: i64,
    role: Seq<char>,
    vs_role: Seq<char>,
    rank: Seq<char>,
    patch: Seq<char>,
)
    requires
        other_id != champion_id || enemy_id != row.enemy_id || role != row.role || rank != row.rank
            || patch != row.patch,
    ensures
        ({
            let later = after(cache, ChangeView::Matchup { champion_id, matchup: row });
            later.matchup(other_id, enemy_id, role, vs_role, rank, patch) == cache.matchup(
                other_id,
                enemy_id,
                role,
                vs_role,
                rank,
                patch,
            )
        }),
{
    let shelf = shelf_of(cache.shelves, champion_id);
    let changed = ShelfView {
        champion_id,
        matchups: put(shelf.matchups, for_matchup(row), row),
        ..shelf
    };
    lemma_shelf_after_put(cache.shelves, changed, other_id);
    if other_id == champion_id {
        let key = for_matchup(row);
        lemma_find_beside_put(
            shelf.matchups,
            key,
            row,
            answers(0, enemy_id, role, vs_role, rank, patch),
        );
        lemma_find_beside_put(
            shelf.matchups,
            key,
            row,
            answers(1, enemy_id, role, vs_role, rank, patch),
        );
        lemma_find_beside_put(
            shelf.matchups,
            key,
            row,
            answers(2, enemy_id, role, vs_role, rank, patch),
        );
    }
}

/// Writing a matchup leaves what is known of roles and synergies, and the notes.
pub proof fn law_matchup_leaves_the_rest(
    cache: Cache,
    champion_id: i64,
    row: MatchupRowView,
    other_id: i64,
    ally_id: i64,
    role: Seq<char>,
    rank: Seq<char>,
    patch: Seq<char>,
)
    ensures
        ({
            let later = after(cache, ChangeView::Matchup { champion_id, matchup: row });
            &&& later.role_meta(other_id, role, rank, patch) == cache.role_meta(
                other_id,
                role,
                rank,
                patch,
            )
            &&& later.synergy(other_id, ally_id, rank, patch) == cache.synergy(
                other_id,
                ally_id,
                rank,
                patch,
            )
            &&& later.notes == cache.notes
        }),
{
    let shelf = shelf_of(cache.shelves, champion_id);
    let changed = ShelfView {
        champion_id,
        matchups: put(shelf.matchups, for_matchup(row), row),
        ..shelf
    };
    lemma_shelf_after_put(cache.shelves, changed, other_id);
}

proof fn lemma_cleared_shelf(cache: Cache, rank: Seq<char>, patch: Seq<char>, champion_id: i64)
    ensures
        shelf_of(after(cache, ChangeView::Clear { rank, patch }).shelves, champion_id) == cleared(
            shelf_of(cache.shelves, champion_id),
            rank,
            patch,
        ),
{
    let before = cache.shelves;
    let later = after(cache, ChangeView::Clear { rank, patch }).shelves;
    let wanted = of_champion(champion_id);
    lemma_place(before, wanted);
    let at = place(before, wanted);
    assert forall|i: int| 0 <= i < at implies !wanted(#[trigger] later[i]) by {
        assert(!wanted(before[i]));
    }
    lemma_place_is(later, wanted, at);
    if at == before.len() {
        reveal(Seq::filter);
        assert(cleared(empty_shelf(champion_id), rank, patch) =~= empty_shelf(champion_id));
    }
}

/// Items that a filter keeps are found after it as before, and those that it
/// drops are not.
proof fn lemma_find_in_filter<T>(s: Seq<T>, keep: spec_fn(T) -> bool, wanted: spec_fn(T) -> bool)
    ensures
        (forall|x: T| #[trigger] wanted(x) ==> keep(x)) ==> find(s.filter(keep), wanted) == find(
            s,
            wanted,
        ),
        (forall|x: T| #[trigger] wanted(x) ==> !keep(x)) ==> find(s.filter(keep), wanted) is None,
    decreases s.len(),
{
    reveal(Seq::filter);
    if s.len() > 0 {
        let rest = s.drop_last();
        let kept = rest.filter(keep);
        lemma_find_in_filter(rest, keep, wanted);
        lemma_find_at_end(rest, s.last(), wanted);
        lemma_find_at_end(kept, s.last(), wanted);
        assert(rest.push(s.last()) =~= s);
    }
}

proof fn lemma_find_at_end<T>(s: Seq<T>, item: T, wanted: spec_fn(T) -> bool)
    ensures
        find(s.push(item), wanted) == (match find(s, wanted) {
            Some(x) => Some(x),
            None => if wanted(item) {
                Some(item)
            } else {
                None
            },
        }),
{
    let longer = s.push(item);
    lemma_place(s, wanted);
    let at = place(s, wanted);
    assert forall|i: int| 0 <= i < at implies !wanted(#[trigger] longer[i]) by {
        assert(longer[i] == s[i]);
    }
    if at < s.len() || wanted(item) {
        lemma_place_is(longer, wanted, at);
    } else {
        lemma_place_is(longer, wanted, longer.len() as int);
    }
}

/// While the matchups of a rank and patch are fetched anew, what is known of
/// roles stays: the same champions are offered for every role.
pub proof fn law_ingest_keeps_roles(
    cache: Cache,
    rank: Seq<char>,
    patch: Seq<char>,
    champion_id: i64,
    role: Seq<char>,
    other_rank: Seq<char>,
    other_patch: Seq<char>,
)
    ensures
        after(cache, ChangeView::Clear { rank, patch }).role_meta(
            champion_id,
            role,
            other_rank,
            other_patch,
        ) == cache.role_meta(champion_id, role, other_rank, other_patch),
        after(cache, ChangeView::Clear { rank, patch }).champions_in_role(
            role,
            other_rank,
            other_patch,
        ) == cache.champions_in_role(role, other_rank, other_patch),
        after(cache, ChangeView::Clear { rank, patch }).notes == cache.notes,
{
    let later = after(cache, ChangeView::Clear { rank, patch });
    lemma_cleared_shelf(cache, rank, patch, champion_id);
    lemma_role_champions_after_clear(
        cache.shelves,
        rank,
        patch,
        role,
        other_rank,
        other_patch,
        true,
    );
    lemma_role_champions_after_clear(
        cache.shelves,
        rank,
        patch,
        role,
        other_rank,
        other_patch,
        false,
    );
}

proof fn lemma_role_champions_after_clear(
    shelves: Seq<ShelfView>,
    rank: Seq<char>,
    patch: Seq<char>,
    role: Seq<char>,
    other_rank: Seq<char>,
    other_patch: Seq<char>,
    strict: bool,
)
    ensures
        role_champions(
            Seq::new(shelves.len(), |i: int| cleared(shelves[i], rank, patch)),
            role,
            other_rank,
            other_patch,
            strict,
        ) == role_champions(shelves, role, other_rank, other_patch, strict),
    decreases shelves.len(),
{
    let later = Seq::new(shelves.len(), |i: int| cleared(shelves[i], rank, patch));
    if shelves.len() > 0 {
        let rest = shelves.drop_last();
        lemma_role_champions_after_clear(
            rest,
            rank,
            patch,
            role,
            other_rank,
            other_patch,
            strict,
        );
        assert(later.drop_last() =~= Seq::new(rest.len(), |i: int| cleared(rest[i], rank, patch)));
    }
}

/// Once a rank and patch are to be fetched anew, no matchup and no synergy of
/// theirs is left, and those of every other rank or patch are as they were.
pub proof fn law_ingest_starts_afresh(
    cache: Cache,
    rank: Seq<char>,
    patch: Seq<char>,
    champion_id: i64,
    other_id: i64,
    role: Seq<char>,
    vs_role: Seq<char>,
    other_rank: Seq<char>,
    other_patch: Seq<char>,
)
    ensures
        ({
            let later = after(cache, ChangeView::Clear { rank, patch });
            if other_rank == rank && other_patch == patch {
                &&& later.matchup(champion_id, other_id, role, vs_role, rank, patch) is None
                &&& later.synergy(champion_id, other_id, rank, patch) is None
            } else {
                &&& later.matchup(champion_id, other_id, role, vs_role, other_rank, other_patch)
                    == cache.matchup(champion_id, other_id, role, vs_role, other_rank, other_patch)
                &&& later.synergy(champion_id, other_id, other_rank, other_patch)
                    == cache.synergy(champion_id, other_id, other_rank, other_patch)
            }
        }),
{
    lemma_cleared_shelf(cache, rank, patch, champion_id);
    let shelf = shelf_of(cache.shelves, champion_id);
    let keep = matchups_besides(rank, patch);
    lemma_find_in_filter(
        shelf.matchups,
        keep,
        answers(0, other_id, role, vs_role, other_rank, other_patch),
    );
    lemma_find_in_filter(
        shelf.matchups,
        keep,
        answers(1, other_id, role, vs_role, other_rank, other_patch),
    );
    lemma_find_in_filter(
        shelf.matchups,
        keep,
        answers(2, other_id, role, vs_role, other_rank, other_patch),
    );
    lemma_find_in_filter(
        shelf.synergies,
        synergies_besides(rank, patch),
        for_ally(other_id, other_rank, other_patch),
    );
}

/// Whenever there are role rows at all, the rank and patch that stand in have
/// some.
pub proof fn law_stand_in_has_rows(
    cache: Cache,
    rank: Seq<char>,
    patch: Seq<char>,
    found: (Seq<char>, Seq<char>),
)
    requires
        cache.stands_in(rank, patch, found),
        all_roles(cache.shelves).len() > 0,
    ensures
        cache.role_rows(found.0, found.1) > 0,
        cache.role_rows(rank, patch) > 0 ==> found == (rank, patch),
{
    let rows = all_roles(cache.shelves);
    if rows_at(rows, rank, patch) == 0 {
        let i = choose|i: int| #[trigger] is_fullest(rows, i) && found == (rows[i].rank, rows[i].patch);
        lemma_rows_at_none(rows, found.0, found.1);
        assert(rows[i].rank == found.0);
    }
}

/// Only one rank and patch stand in for others.
pub proof fn law_one_stand_in(
    cache: Cache,
    rank: Seq<char>,
    patch: Seq<char>,
    a: (Seq<char>, Seq<char>),
    b: (Seq<char>, Seq<char>),
)
    requires
        cache.stands_in(rank, patch, a),
        cache.stands_in(rank, patch, b),
    ensures
        a == b,
{
    let rows = all_roles(cache.shelves);
    if !(rows_at(rows, rank, patch) > 0 || rows.len() == 0) {
        let i = choose|i: int| #[trigger] is_fullest(rows, i) && a == (rows[i].rank, rows[i].patch);
        let j = choose|j: int| #[trigger] is_fullest(rows, j) && b == (rows[j].rank, rows[j].patch);
        assert(i == j) by {
            assert(rows_at(rows, rows[i].rank, rows[i].patch) == rows_at(
                rows,
                rows[j].rank,
                rows[j].patch,
            ));
        }
    }
}

proof fn lemma_shelf_put_tidy(cache: Cache, shelf: ShelfView)
    requires
        cache.tidy(),
        shelf.tidy(),
    ensures
        (Cache { shelves: put_shelf(cache.shelves, shelf), ..cache }).tidy(),
{
    lemma_one_each_after_put(
        cache.shelves,
        of_champion(shelf.champion_id),
        shelf,
        same_champion(),
    );
    lemma_place(cache.shelves, of_champion(shelf.champion_id));
    let later = put_shelf(cache.shelves, shelf);
    assert forall|i: int| 0 <= i < later.len() implies (#[trigger] later[i]).tidy() by {
        if later[i] != shelf {
            assert(later[i] == cache.shelves[i]);
        }
    }
}

proof fn lemma_shelf_tidy(cache: Cache, champion_id: i64)
    requires
        cache.tidy(),
    ensures
        shelf_of(cache.shelves, champion_id).tidy(),
{
    lemma_place(cache.shelves, of_champion(champion_id));
}

/// However the cache is written to, no key gets a second shelf, row or note.
pub proof fn law_one_row_per_key(cache: Cache, change: ChangeView)
    requires
        cache.tidy(),
    ensures
        after(cache, change).tidy(),
{
    match change {
        ChangeView::Note { key, value } => {
            lemma_one_each_after_put(cache.notes, under_key(key), (key, value), same_note());
        },
        ChangeView::Role { champion_id, role: row } => {
            let shelf = shelf_of(cache.shelves, champion_id);
            lemma_shelf_tidy(cache, champion_id);
            let wanted = for_role(row.role, row.rank, row.patch);
            lemma_one_each_after_put(shelf.roles, wanted, row, same_role_row());
            let changed = ShelfView { champion_id, roles: put(shelf.roles, wanted, row), ..shelf };
            lemma_shelf_put_tidy(cache, changed);
        },
        ChangeView::Matchup { champion_id, matchup: row } => {
            let shelf = shelf_of(cache.shelves, champion_id);
            lemma_shelf_tidy(cache, champion_id);
            let wanted = for_matchup(row);
            lemma_one_each_after_put(shelf.matchups, wanted, row, same_matchup_row());
            let changed = ShelfView {
                champion_id,
                matchups: put(shelf.matchups, wanted, row),
                ..shelf
            };
            lemma_shelf_put_tidy(cache, changed);
        },
        ChangeView::Synergy { champion_id, synergy: row } => {
            let shelf = shelf_of(cache.shelves, champion_id);
            lemma_shelf_tidy(cache, champion_id);
            let wanted = for_ally(row.ally_id, row.rank, row.patch);
            lemma_one_each_after_put(shelf.synergies, wanted, row, same_synergy_row());
            let changed = ShelfView {
                champion_id,
                synergies: put(shelf.synergies, wanted, row),
                ..shelf
            };
            lemma_shelf_put_tidy(cache, changed);
        },
        ChangeView::Clear { rank, patch } => {
            let later = after(cache, change).shelves;
            assert forall|i: int, j: int| 0 <= i < j < later.len() implies !same_champion()(
                #[trigger] later[i],
                #[trigger] later[j],
            ) by {
                assert(!same_champion()(cache.shelves[i], cache.shelves[j]));
            }
            assert forall|i: int| 0 <= i < later.len() implies (#[trigger] later[i]).tidy() by {
                let shelf = cache.shelves[i];
                assert(shelf.tidy());
                lemma_one_each_filtered(
                    shelf.matchups,
                    matchups_besides(rank, patch),
                    same_matchup_row(),
                );
                lemma_one_each_filtered(
                    shelf.synergies,
                    synergies_besides(rank, patch),
                    same_synergy_row(),
                );
            }
        },
    }
}

/// However often the cache is written to, each key keeps to one shelf, row or note.
pub proof fn law_stays_tidy(cache: Cache, changes: Seq<ChangeView>)
    requires
        cache.tidy(),
    ensures
        after_all(cache, changes).tidy(),
    decreases changes.len(),
{
    if changes.len() > 0 {
        law_stays_tidy(cache, changes.drop_last());
        law_one_row_per_key(after_all(cache, changes.drop_last()), changes.last());
    }
}

/// The shelf is the champion's and holds how it does in the role.
spec fn tells(
    shelf: ShelfView,
    id: i64,
    role: Seq<char>,
    rank: Seq<char>,
    patch: Seq<char>,
    meta: RoleMetaView,
) -> bool {
    shelf.champion_id == id && (match find(shelf.roles, for_role(role, rank, patch)) {
        Some(row) => row.meta == meta,
        None => false,
    })
}

/// Whoever is played in a role has something written of that role.
pub proof fn law_pool_has_meta(
    cache: Cache,
    role: Seq<char>,
    rank: Seq<char>,
    patch: Seq<char>,
    i: int,
)
    requires
        cache.tidy(),
        0 <= i < cache.champions_in_role(role, rank, patch).len(),
    ensures
        ({
            let (id, meta) = cache.champions_in_role(role, rank, patch)[i];
            cache.role_meta(id, role, rank, patch) == Some(meta)
        }),
{
    let strict = role_champions(cache.shelves, role, rank, patch, true).len() > 0;
    lemma_role_champion(cache.shelves, role, rank, patch, strict, i);
    let (id, meta) = cache.champions_in_role(role, rank, patch)[i];
    let k = choose|k: int|
        0 <= k < cache.shelves.len() && tells(
                #[trigger] cache.shelves[k],
                id,
                role,
                rank,
                patch,
                meta,
            );
    assert forall|j: int| 0 <= j < k implies !of_champion(id)(#[trigger] cache.shelves[j]) by {
        assert(!same_champion()(cache.shelves[j], cache.shelves[k]));
    }
    lemma_place_is(cache.shelves, of_champion(id), k);
}

proof fn lemma_role_champion(
    shelves: Seq<ShelfView>,
    role: Seq<char>,
    rank: Seq<char>,
    patch: Seq<char>,
    strict: bool,
    i: int,
)
    requires
        0 <= i < role_champions(shelves, role, rank, patch, strict).len(),
    ensures
        ({
            let (id, meta) = role_champions(shelves, role, rank, patch, strict)[i];
            exists|k: int|
                0 <= k < shelves.len() && tells(
                #[trigger] shelves[k],
                id,
                role,
                rank,
                patch,
                meta,
            )
        }),
    decreases shelves.len(),
{
    let rest = shelves.drop_last();
    let before = role_champions(rest, role, rank, patch, strict);
    let (id, meta) = role_champions(shelves, role, rank, patch, strict)[i];
    if i < before.len() {
        lemma_role_champion(rest, role, rank, patch, strict, i);
        let k = choose|k: int|
            0 <= k < rest.len() && tells(
                #[trigger] rest[k],
                id,
                role,
                rank,
                patch,
                meta,
            );
        assert(shelves[k] == rest[k]);
    } else {
        assert(tells(shelves[shelves.len() - 1], id, role, rank, patch, meta));
    }
}

} // verus!
