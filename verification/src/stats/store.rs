//! The cache of role, matchup and synergy statistics.
//!
//! The cache is held in memory, one shelf for each champion. Whatever is written
//! to it is also noted as a [`Change`], so that a copy on disk can follow.
use crate::lists::{find, lemma_place, lemma_place_is, place, put};
use crate::models::normalize_role;
use crate::number::Real;
use crate::stats::cache::{
    after, after_all, all_roles, answers, busiest, cleared, empty_shelf, for_ally, for_matchup,
    for_role, is_fullest, lane_rows, law_one_row_per_key, law_stays_tidy, matchup_change, matchups_besides, of_champion, role_champions,
    role_change, rows_at, shelf_of, synergies_besides, synergy_change, under_key, Cache, ShelfView,
};
use crate::stats::rows::{
    all_storable, change_views, lemma_written_stops, pool_view, settled, storable, written, Change,
    ChangeView, MatchupRow, MatchupRowView, RoleRow, RoleRowView, SynergyRow, SynergyRowView,
};
use crate::text::{equal, same};
use vstd::prelude::*;

pub use crate::stats::rows::{MatchupStat, RoleMeta, StoreError, STATS_SCHEMA};

verus! {

// ------------------------------------------------------------------ writing

/// What is kept of one champion.
#[derive(Debug)]
struct Shelf {
    champion_id: i64,
    roles: Vec<RoleRow>,
    matchups: Vec<MatchupRow>,
    synergies: Vec<SynergyRow>,
}

spec fn role_views(rows: Seq<RoleRow>) -> Seq<RoleRowView> {
    Seq::new(rows.len(), |i: int| rows[i]@)
}

spec fn matchup_views(rows: Seq<MatchupRow>) -> Seq<MatchupRowView> {
    Seq::new(rows.len(), |i: int| rows[i]@)
}

spec fn synergy_views(rows: Seq<SynergyRow>) -> Seq<SynergyRowView> {
    Seq::new(rows.len(), |i: int| rows[i]@)
}

spec fn note_views(notes: Seq<(String, String)>) -> Seq<(Seq<char>, Seq<char>)> {
    Seq::new(notes.len(), |i: int| (notes[i].0@, notes[i].1@))
}

spec fn shelf_views(shelves: Seq<Shelf>) -> Seq<ShelfView> {
    Seq::new(shelves.len(), |i: int| shelves[i].shown())
}

impl Shelf {
    spec fn shown(self) -> ShelfView {
        ShelfView {
            champion_id: self.champion_id,
            roles: role_views(self.roles@),
            matchups: matchup_views(self.matchups@),
            synergies: synergy_views(self.synergies@),
        }
    }

    fn role_place(&self, role: &String, rank: &String, patch: &String) -> (at: usize)
        ensures
            at == place(self.shown().roles, for_role(role@, rank@, patch@)),
            at <= self.roles@.len(),
    {
        let ghost rows = self.shown().roles;
        let ghost key = for_role(role@, rank@, patch@);
        let mut i: usize = 0;
        while i < self.roles.len()
            invariant
                0 <= i <= self.roles@.len(),
                rows == role_views(self.roles@),
                key == for_role(role@, rank@, patch@),
                forall|j: int| 0 <= j < i ==> !key(#[trigger] rows[j]),
            decreases self.roles@.len() - i,
        {
            let row = &self.roles[i];
            assert(rows[i as int] == row@);
            if equal(&row.role, role) && equal(&row.rank, rank) && equal(&row.patch, patch) {
                proof {
                    lemma_place_is(rows, key, i as int);
                }
                return i;
            }
            i += 1;
        }
        proof {
            lemma_place_is(rows, key, rows.len() as int);
        }
        i
    }

    fn matchup_place(&self, row: &MatchupRow) -> (at: usize)
        ensures
            at == place(self.shown().matchups, for_matchup(row@)),
            at <= self.matchups@.len(),
    {
        let ghost rows = self.shown().matchups;
        let ghost key = for_matchup(row@);
        let mut i: usize = 0;
        while i < self.matchups.len()
            invariant
                0 <= i <= self.matchups@.len(),
                rows == matchup_views(self.matchups@),
                key == for_matchup(row@),
                forall|j: int| 0 <= j < i ==> !key(#[trigger] rows[j]),
            decreases self.matchups@.len() - i,
        {
            let other = &self.matchups[i];
            assert(rows[i as int] == other@);
            if other.enemy_id == row.enemy_id && equal(&other.role, &row.role) && equal(
                &other.kind,
                &row.kind,
            ) && equal(&other.vs_role, &row.vs_role) && equal(&other.rank, &row.rank) && equal(
                &other.patch,
                &row.patch,
            ) {
                proof {
                    lemma_place_is(rows, key, i as int);
                }
                return i;
            }
            i += 1;
        }
        proof {
            lemma_place_is(rows, key, rows.len() as int);
        }
        i
    }

    fn synergy_place(&self, ally_id: i64, rank: &String, patch: &String) -> (at: usize)
        ensures
            at == place(self.shown().synergies, for_ally(ally_id, rank@, patch@)),
            at <= self.synergies@.len(),
    {
        let ghost rows = self.shown().synergies;
        let ghost key = for_ally(ally_id, rank@, patch@);
        let mut i: usize = 0;
        while i < self.synergies.len()
            invariant
                0 <= i <= self.synergies@.len(),
                rows == synergy_views(self.synergies@),
                key == for_ally(ally_id, rank@, patch@),
                forall|j: int| 0 <= j < i ==> !key(#[trigger] rows[j]),
            decreases self.synergies@.len() - i,
        {
            let row = &self.synergies[i];
            assert(rows[i as int] == row@);
            if row.ally_id == ally_id && equal(&row.rank, rank) && equal(&row.patch, patch) {
                proof {
                    lemma_place_is(rows, key, i as int);
                }
                return i;
            }
            i += 1;
        }
        proof {
            lemma_place_is(rows, key, rows.len() as int);
        }
        i
    }

    /// Drops the matchups and synergies of one rank and patch.
    fn clear(&mut self, rank: &String, patch: &String)
        ensures
            final(self).shown() == cleared(old(self).shown(), rank@, patch@),
    {
        let ghost keep = matchups_besides(rank@, patch@);
        let ghost rows = self.shown().matchups;
        let mut matchups: Vec<MatchupRow> = Vec::new();
        for i in 0..self.matchups.len()
            invariant
                keep == matchups_besides(rank@, patch@),
                rows == matchup_views(self.matchups@),
                matchup_views(matchups@) == rows.take(i as int).filter(keep),
        {
            let row = &self.matchups[i];
            proof {
                assert(rows.take(i + 1).drop_last() =~= rows.take(i as int));
                assert(rows.take(i + 1).last() == row@);
                reveal(Seq::filter);
            }
            if !(equal(&row.rank, rank) && equal(&row.patch, patch)) {
                let ghost before = matchup_views(matchups@);
                matchups.push(row.clone());
                assert(matchup_views(matchups@) =~= before.push(row@));
            }
        }
        assert(rows.take(rows.len() as int) =~= rows);

        let ghost keep_too = synergies_besides(rank@, patch@);
        let ghost pairs = self.shown().synergies;
        let mut synergies: Vec<SynergyRow> = Vec::new();
        for i in 0..self.synergies.len()
            invariant
                keep_too == synergies_besides(rank@, patch@),
                pairs == synergy_views(self.synergies@),
                synergy_views(synergies@) == pairs.take(i as int).filter(keep_too),
        {
            let row = &self.synergies[i];
            proof {
                assert(pairs.take(i + 1).drop_last() =~= pairs.take(i as int));
                assert(pairs.take(i + 1).last() == row@);
                reveal(Seq::filter);
            }
            if !(equal(&row.rank, rank) && equal(&row.patch, patch)) {
                let ghost before = synergy_views(synergies@);
                synergies.push(row.clone());
                assert(synergy_views(synergies@) =~= before.push(row@));
            }
        }
        assert(pairs.take(pairs.len() as int) =~= pairs);
        self.matchups = matchups;
        self.synergies = synergies;
    }

    fn put_role(&mut self, row: RoleRow)
        ensures
            final(self).shown() == (ShelfView {
                roles: put(
                    old(self).shown().roles,
                    for_role(row@.role, row@.rank, row@.patch),
                    row@,
                ),
                ..old(self).shown()
            }),
    {
        let at = self.role_place(&row.role, &row.rank, &row.patch);
        if at < self.roles.len() {
            self.roles.set(at, row);
        } else {
            self.roles.push(row);
        }
        assert(self.shown().roles =~= put(
            old(self).shown().roles,
            for_role(row@.role, row@.rank, row@.patch),
            row@,
        ));
    }

    fn put_matchup(&mut self, row: MatchupRow)
        ensures
            final(self).shown() == (ShelfView {
                matchups: put(old(self).shown().matchups, for_matchup(row@), row@),
                ..old(self).shown()
            }),
    {
        let at = self.matchup_place(&row);
        if at < self.matchups.len() {
            self.matchups.set(at, row);
        } else {
            self.matchups.push(row);
        }
        assert(self.shown().matchups =~= put(old(self).shown().matchups, for_matchup(row@), row@));
    }

    fn put_synergy(&mut self, row: SynergyRow)
        ensures
            final(self).shown() == (ShelfView {
                synergies: put(
                    old(self).shown().synergies,
                    for_ally(row@.ally_id, row@.rank, row@.patch),
                    row@,
                ),
                ..old(self).shown()
            }),
    {
        let at = self.synergy_place(row.ally_id, &row.rank, &row.patch);
        if at < self.synergies.len() {
            self.synergies.set(at, row);
        } else {
            self.synergies.push(row);
        }
        assert(self.shown().synergies =~= put(
            old(self).shown().synergies,
            for_ally(row@.ally_id, row@.rank, row@.patch),
            row@,
        ));
    }
}

/// The cache of statistics, with the changes that are still to be saved.
#[derive(Debug)]
pub struct StatsDb {
    notes: Vec<(String, String)>,
    shelves: Vec<Shelf>,
    unsaved: Vec<Change>,
}

impl View for StatsDb {
    type V = Cache;

    closed spec fn view(&self) -> Cache {
        Cache { notes: note_views(self.notes@), shelves: shelf_views(self.shelves@) }
    }
}

impl StatsDb {
    /// The changes that are still to be saved, oldest first.
    pub closed spec fn pending(self) -> Seq<ChangeView> {
        change_views(self.unsaved@)
    }

    /// An empty cache.
    pub fn open_memory() -> (db: StatsDb)
        ensures
            db@ == (Cache { notes: Seq::empty(), shelves: Seq::empty() }),
            db@.tidy(),
            db.pending() == Seq::<ChangeView>::empty(),
    {
        let db = StatsDb { notes: Vec::new(), shelves: Vec::new(), unsaved: Vec::new() };
        assert(db@.notes =~= Seq::empty());
        assert(db@.shelves =~= Seq::empty());
        assert(db.pending() =~= Seq::empty());
        db
    }

    fn note_place(&self, key: &str) -> (at: usize)
        ensures
            at == place(self@.notes, under_key(key@)),
            at <= self.notes@.len(),
    {
        let ghost notes = self@.notes;
        let ghost wanted = under_key(key@);
        let mut i: usize = 0;
        while i < self.notes.len()
            invariant
                0 <= i <= self.notes@.len(),
                notes == note_views(self.notes@),
                wanted == under_key(key@),
                forall|j: int| 0 <= j < i ==> !wanted(#[trigger] notes[j]),
            decreases self.notes@.len() - i,
        {
            assert(notes[i as int].0 == self.notes@[i as int].0@);
            if same(&self.notes[i].0, key) {
                proof {
                    lemma_place_is(notes, wanted, i as int);
                }
                return i;
            }
            i += 1;
        }
        proof {
            lemma_place_is(notes, wanted, notes.len() as int);
        }
        i
    }

    fn shelf_place(&self, champion_id: i64) -> (at: usize)
        ensures
            at == place(self@.shelves, of_champion(champion_id)),
            at <= self.shelves@.len(),
    {
        let ghost shelves = self@.shelves;
        let ghost wanted = of_champion(champion_id);
        let mut i: usize = 0;
        while i < self.shelves.len()
            invariant
                0 <= i <= self.shelves@.len(),
                shelves == shelf_views(self.shelves@),
                wanted == of_champion(champion_id),
                forall|j: int| 0 <= j < i ==> !wanted(#[trigger] shelves[j]),
            decreases self.shelves@.len() - i,
        {
            assert(shelves[i as int] == self.shelves@[i as int].shown());
            if self.shelves[i].champion_id == champion_id {
                proof {
                    lemma_place_is(shelves, wanted, i as int);
                }
                return i;
            }
            i += 1;
        }
        proof {
            lemma_place_is(shelves, wanted, shelves.len() as int);
        }
        i
    }

    /// Makes sure that the champion has a shelf and says where it stands.
    fn open_shelf(&mut self, champion_id: i64) -> (at: usize)
        ensures
            at < final(self).shelves@.len(),
            at == place(old(self)@.shelves, of_champion(champion_id)),
            final(self).shelves@[at as int].champion_id == champion_id,
            final(self).shelves@[at as int].shown() == shelf_of(old(self)@.shelves, champion_id),
            final(self).shelves@ == old(self).shelves@ || (at == old(self).shelves@.len()
                && final(self).shelves@.drop_last() == old(self).shelves@
                && final(self).shelves@.len() == at + 1),
            final(self).notes == old(self).notes,
            final(self).unsaved == old(self).unsaved,
    {
        let at = self.shelf_place(champion_id);
        proof {
            lemma_place(self@.shelves, of_champion(champion_id));
        }
        if at == self.shelves.len() {
            let shelf = Shelf {
                champion_id,
                roles: Vec::new(),
                matchups: Vec::new(),
                synergies: Vec::new(),
            };
            assert(shelf.shown() =~= empty_shelf(champion_id));
            self.shelves.push(shelf);
            assert(self.shelves@.drop_last() =~= old(self).shelves@);
        } else {
            assert(self@.shelves[at as int] == self.shelves@[at as int].shown());
        }
        at
    }

    fn clear(&mut self, rank: &String, patch: &String)
        ensures
            final(self)@ == after(
                old(self)@,
                ChangeView::Clear { rank: rank@, patch: patch@ },
            ),
            final(self).notes == old(self).notes,
            final(self).unsaved == old(self).unsaved,
    {
        let ghost before = self@.shelves;
        let n = self.shelves.len();
        for i in 0..n
            invariant
                n == before.len(),
                before == old(self)@.shelves,
                self.shelves@.len() == before.len(),
                self.notes == old(self).notes,
                self.unsaved == old(self).unsaved,
                forall|j: int|
                    0 <= j < i ==> (#[trigger] self.shelves@[j]).shown() == cleared(
                        before[j],
                        rank@,
                        patch@,
                    ),
                forall|j: int|
                    i <= j < before.len() ==> (#[trigger] self.shelves@[j]).shown() == before[j],
        {
            let shelf = &mut self.shelves[i];
            shelf.clear(rank, patch);
        }
        assert(self@.shelves =~= Seq::new(
            before.len(),
            |i: int| cleared(before[i], rank@, patch@),
        ));
    }

    /// Writes `change` and notes it for saving.
    fn write(&mut self, change: Change)
        ensures
            final(self)@ == after(old(self)@, change@),
            final(self).pending() == old(self).pending().push(change@),
    {
        let note = change.clone();
        match change {
            Change::Note { key, value } => {
                let at = self.note_place(&key);
                if at < self.notes.len() {
                    self.notes.set(at, (key, value));
                } else {
                    self.notes.push((key, value));
                }
                assert(self@.notes =~= put(old(self)@.notes, under_key(key@), (key@, value@)));
                assert(self@.shelves =~= old(self)@.shelves);
            },
            Change::Role { champion_id, role: row } => {
                let at = self.open_shelf(champion_id);
                let shelf = &mut self.shelves[at];
                shelf.put_role(row);
                assert(self@ =~= after(old(self)@, change@));
            },
            Change::Matchup { champion_id, matchup: row } => {
                let at = self.open_shelf(champion_id);
                let shelf = &mut self.shelves[at];
                shelf.put_matchup(row);
                assert(self@ =~= after(old(self)@, change@));
            },
            Change::Synergy { champion_id, synergy: row } => {
                let at = self.open_shelf(champion_id);
                let shelf = &mut self.shelves[at];
                shelf.put_synergy(row);
                assert(self@ =~= after(old(self)@, change@));
            },
            Change::Clear { rank, patch } => {
                self.clear(&rank, &patch);
            },
        }
        self.unsaved.push(note);
        assert(self.pending() =~= old(self).pending().push(change@));
    }

    /// Writes `change` and notes it for saving, unless it cannot be kept.
    pub fn apply(&mut self, change: Change) -> (result: Result<(), StoreError>)
        ensures
            result is Ok <==> storable(change@),
            if storable(change@) {
                &&& final(self)@ == after(old(self)@, settled(change@))
                &&& final(self).pending() == old(self).pending().push(settled(change@))
            } else {
                *final(self) == *old(self)
            },
            old(self)@.tidy() ==> final(self)@.tidy(),
    {
        match change.settle() {
            Ok(kept) => {
                self.write(kept);
                proof {
                    if old(self)@.tidy() {
                        law_one_row_per_key(old(self)@, settled(change@));
                    }
                }
                Ok(())
            },
            Err(error) => Err(error),
        }
    }
}

// ------------------------------------------------------------------ asking

impl StatsDb {
    /// The shelf of the champion, where there is one.
    fn shelf(&self, champion_id: i64) -> (found: Option<&Shelf>)
        ensures
            match found {
                Some(shelf) => shelf.shown() == shelf_of(self@.shelves, champion_id),
                None => shelf_of(self@.shelves, champion_id) == empty_shelf(champion_id),
            },
    {
        let at = self.shelf_place(champion_id);
        if at < self.shelves.len() {
            assert(self@.shelves[at as int] == self.shelves@[at as int].shown());
            Some(&self.shelves[at])
        } else {
            None
        }
    }

    /// The note under `key`.
    pub fn get_meta(&self, key: &str) -> (value: Option<String>)
        ensures
            match value {
                Some(text) => self@.note(key@) == Some(text@),
                None => self@.note(key@) is None,
            },
    {
        let at = self.note_place(key);
        if at < self.notes.len() {
            assert(self@.notes[at as int].1 == self.notes@[at as int].1@);
            Some(self.notes[at].1.clone())
        } else {
            None
        }
    }

    /// How a champion does in a role.
    pub fn role_meta(&self, champion_id: i64, role: &str, rank: &str, patch: &str) -> (found: Option<
        RoleMeta,
    >)
        ensures
            match found {
                Some(meta) => self@.role_meta(champion_id, role@, rank@, patch@) == Some(meta@),
                None => self@.role_meta(champion_id, role@, rank@, patch@) is None,
            },
    {
        match self.shelf(champion_id) {
            Some(shelf) => {
                let at = shelf.role_place(
                    &role.to_string(),
                    &rank.to_string(),
                    &patch.to_string(),
                );
                if at < shelf.roles.len() {
                    assert(shelf.shown().roles[at as int] == shelf.roles@[at as int]@);
                    Some(shelf.roles[at].meta.clone())
                } else {
                    None
                }
            },
            None => None,
        }
    }

    /// How a champion does beside an ally.
    pub fn synergy(&self, champion_id: i64, ally_id: i64, rank: &str, patch: &str) -> (found: Option<
        MatchupStat,
    >)
        ensures
            found == self@.synergy(champion_id, ally_id, rank@, patch@),
    {
        match self.shelf(champion_id) {
            Some(shelf) => {
                let at = shelf.synergy_place(ally_id, &rank.to_string(), &patch.to_string());
                if at < shelf.synergies.len() {
                    assert(shelf.shown().synergies[at as int] == shelf.synergies@[at as int]@);
                    Some(shelf.synergies[at].stat)
                } else {
                    None
                }
            },
            None => None,
        }
    }

    /// How a champion does in a role against an enemy that plays `vs_role`.
    pub fn matchup(
        &self,
        champion_id: i64,
        enemy_id: i64,
        role: &str,
        vs_role: &str,
        rank: &str,
        patch: &str,
    ) -> (found: Option<MatchupStat>)
        ensures
            found == self@.matchup(champion_id, enemy_id, role@, vs_role@, rank@, patch@),
    {
        match self.shelf(champion_id) {
            Some(shelf) => {
                let role = role.to_string();
                let vs_role = vs_role.to_string();
                let rank = rank.to_string();
                let patch = patch.to_string();
                match shelf.best_answer(0, enemy_id, &role, &vs_role, &rank, &patch) {
                    Some(stat) => Some(stat),
                    None => match shelf.best_answer(1, enemy_id, &role, &vs_role, &rank, &patch) {
                        Some(stat) => Some(stat),
                        None => shelf.best_answer(2, enemy_id, &role, &vs_role, &rank, &patch),
                    },
                }
            },
            None => None,
        }
    }

    /// The win rates of a champion's lane matchups in a role. Their mean says how
    /// well the champion does whoever the opponent is.
    pub fn flexibility(&self, champion_id: i64, role: &str, rank: &str, patch: &str) -> (winrates: Vec<
        Real,
    >)
        ensures
            winrates@ == self@.lane_winrates(champion_id, role@, rank@, patch@),
    {
        let mut winrates: Vec<Real> = Vec::new();
        let ghost wanted = lane_rows(role@, rank@, patch@);
        let ghost winrate = |r: MatchupRowView| r.stat.winrate;
        match self.shelf(champion_id) {
            Some(shelf) => {
                let role = role.to_string();
                let lane = "lane".to_string();
                let rank = rank.to_string();
                let patch = patch.to_string();
                let ghost rows = shelf.shown().matchups;
                for i in 0..shelf.matchups.len()
                    invariant
                        wanted == lane_rows(role@, rank@, patch@),
                        winrate == (|r: MatchupRowView| r.stat.winrate),
                        lane@ == "lane"@,
                        rows == matchup_views(shelf.matchups@),
                        winrates@ == rows.take(i as int).filter(wanted).map_values(winrate),
                {
                    let row = &shelf.matchups[i];
                    proof {
                        assert(rows.take(i + 1).drop_last() =~= rows.take(i as int));
                        assert(rows.take(i + 1).last() == row@);
                        reveal(Seq::filter);
                    }
                    if equal(&row.role, &role) && equal(&row.kind, &lane) && equal(&row.rank, &rank)
                        && equal(&row.patch, &patch) {
                        winrates.push(row.stat.winrate);
                        assert(rows.take(i + 1).filter(wanted) == rows.take(i as int).filter(
                            wanted,
                        ).push(row@));
                        assert(winrates@ =~= rows.take(i + 1).filter(wanted).map_values(winrate));
                    }
                }
                assert(rows.take(rows.len() as int) =~= rows);
            },
            None => {
                proof {
                    reveal(Seq::filter);
                }
                assert(winrates@ =~= self@.lane_winrates(champion_id, role@, rank@, patch@));
            },
        }
        winrates
    }
}

impl Shelf {
    /// The first matchup that answers a question as well as `grade` says.
    fn best_answer(
        &self,
        grade: u8,
        enemy_id: i64,
        role: &String,
        vs_role: &String,
        rank: &String,
        patch: &String,
    ) -> (found: Option<MatchupStat>)
        requires
            grade <= 2,
        ensures
            found == (match find(
                self.shown().matchups,
                answers(grade as int, enemy_id, role@, vs_role@, rank@, patch@),
            ) {
                Some(row) => Some(row.stat),
                None => None,
            }),
    {
        let lane = "lane".to_string();
        let ghost rows = self.shown().matchups;
        let ghost wanted = answers(grade as int, enemy_id, role@, vs_role@, rank@, patch@);
        let mut i: usize = 0;
        while i < self.matchups.len()
            invariant
                0 <= i <= self.matchups@.len(),
                grade <= 2,
                lane@ == "lane"@,
                rows == matchup_views(self.matchups@),
                wanted == answers(grade as int, enemy_id, role@, vs_role@, rank@, patch@),
                forall|j: int| 0 <= j < i ==> !wanted(#[trigger] rows[j]),
            decreases self.matchups@.len() - i,
        {
            let row = &self.matchups[i];
            assert(rows[i as int] == row@);
            if row.enemy_id == enemy_id && equal(&row.role, role) && equal(&row.rank, rank)
                && equal(&row.patch, patch) {
                let fits = if grade == 0 {
                    equal(&row.vs_role, vs_role)
                } else if grade == 1 {
                    equal(&row.kind, &lane)
                } else {
                    row.vs_role.as_str().is_empty()
                };
                assert(row.vs_role@.len() == 0 ==> row.vs_role@ =~= Seq::<char>::empty());
                if fits {
                    proof {
                        lemma_place_is(rows, wanted, i as int);
                    }
                    return Some(row.stat);
                }
            }
            i += 1;
        }
        proof {
            lemma_place_is(rows, wanted, rows.len() as int);
        }
        None
    }
}

impl StatsDb {
    fn query_role_champs(&self, role: &str, rank: &str, patch: &str, strict: bool) -> (pool: Vec<
        (i64, RoleMeta),
    >)
        ensures
            pool_view(pool@) == role_champions(self@.shelves, role@, rank@, patch@, strict),
    {
        let role_key = role.to_string();
        let rank_key = rank.to_string();
        let patch_key = patch.to_string();
        let ghost shelves = self@.shelves;
        let mut pool: Vec<(i64, RoleMeta)> = Vec::new();
        assert(pool_view(pool@) =~= role_champions(shelves.take(0), role@, rank@, patch@, strict));
        for i in 0..self.shelves.len()
            invariant
                role_key@ == role@,
                rank_key@ == rank@,
                patch_key@ == patch@,
                shelves == shelf_views(self.shelves@),
                pool_view(pool@) == role_champions(
                    shelves.take(i as int),
                    role@,
                    rank@,
                    patch@,
                    strict,
                ),
        {
            let shelf = &self.shelves[i];
            let ghost before = pool_view(pool@);
            assert(shelves.take(i + 1).drop_last() =~= shelves.take(i as int));
            assert(shelves.take(i + 1).last() == shelf.shown());
            let at = shelf.role_place(&role_key, &rank_key, &patch_key);
            if at < shelf.roles.len() {
                let meta = &shelf.roles[at].meta;
                assert(shelf.shown().roles[at as int] == shelf.roles@[at as int]@);
                if (strict && meta.in_role_pool(role)) || (!strict && meta.games >= 80) {
                    pool.push((shelf.champion_id, meta.clone()));
                    assert(pool_view(pool@) =~= before.push((shelf.champion_id, meta@)));
                }
            }
        }
        assert(shelves.take(shelves.len() as int) =~= shelves);
        pool
    }

    /// The champions that are played in a role; where the strict reckoning finds
    /// none, those with some games there.
    pub fn champions_in_role(&self, role: &str, rank: &str, patch: &str) -> (pool: Vec<
        (i64, RoleMeta),
    >)
        ensures
            pool_view(pool@) == self@.champions_in_role(role@, rank@, patch@),
    {
        let strict = self.query_role_champs(role, rank, patch, true);
        if strict.len() > 0 {
            return strict;
        }
        self.query_role_champs(role, rank, patch, false)
    }

    /// The role that a champion is played in most.
    pub fn primary_role(&self, champion_id: i64, rank: &str, patch: &str) -> (found: Option<String>)
        ensures
            match found {
                Some(role) => self@.primary_role(champion_id, rank@, patch@) == Some(role@),
                None => self@.primary_role(champion_id, rank@, patch@) is None,
            },
    {
        match self.shelf(champion_id) {
            Some(shelf) => {
                let ghost rows = shelf.shown().roles;
                let mut best: Option<usize> = None;
                for i in 0..shelf.roles.len()
                    invariant
                        rows == role_views(shelf.roles@),
                        match best {
                            Some(at) => at < i && busiest(rows.take(i as int), rank@, patch@)
                                == Some(rows[at as int]),
                            None => busiest(rows.take(i as int), rank@, patch@) is None,
                        },
                {
                    let row = &shelf.roles[i];
                    assert(rows.take(i + 1).drop_last() =~= rows.take(i as int));
                    assert(rows.take(i + 1).last() == row@);
                    if same(&row.rank, rank) && same(&row.patch, patch) {
                        match best {
                            Some(at) => {
                                assert(rows[at as int] == shelf.roles@[at as int]@);
                                if row.meta.games > shelf.roles[at].meta.games {
                                    best = Some(i);
                                }
                            },
                            None => {
                                best = Some(i);
                            },
                        }
                    }
                }
                assert(rows.take(rows.len() as int) =~= rows);
                match best {
                    Some(at) => {
                        let row = &shelf.roles[at];
                        assert(rows[at as int] == row@);
                        let role = if row.meta.default_lane.as_str().is_empty() {
                            normalize_role(&row.role)
                        } else {
                            normalize_role(&row.meta.default_lane)
                        };
                        if role.as_str().is_empty() {
                            None
                        } else {
                            Some(role)
                        }
                    },
                    None => None,
                }
            },
            None => None,
        }
    }

    /// Whether there is enough of a rank and patch to recommend from.
    pub fn has_patch_data(&self, rank: &str, patch: &str) -> (r: bool)
        ensures
            r == (self@.role_rows(rank@, patch@) > 20),
    {
        let rank = rank.to_string();
        let patch = patch.to_string();
        let ghost shelves = self@.shelves;
        let mut count: u64 = 0;
        for i in 0..self.shelves.len()
            invariant
                shelves == shelf_views(self.shelves@),
                count == least(rows_at(all_roles(shelves.take(i as int)), rank@, patch@), 21),
        {
            let shelf = &self.shelves[i];
            assert(shelves.take(i + 1).drop_last() =~= shelves.take(i as int));
            assert(shelves.take(i + 1).last() == shelf.shown());
            let ghost before = all_roles(shelves.take(i as int));
            let ghost rows = shelf.shown().roles;
            assert(before + rows.take(0) =~= before);
            for j in 0..shelf.roles.len()
                invariant
                    rows == role_views(shelf.roles@),
                    count == least(rows_at(before + rows.take(j as int), rank@, patch@), 21),
            {
                let row = &shelf.roles[j];
                let ghost next = before + rows.take(j + 1);
                assert(next.drop_last() =~= before + rows.take(j as int));
                assert(next.last() == row@);
                if equal(&row.rank, &rank) && equal(&row.patch, &patch) && count < 21 {
                    count += 1;
                }
            }
            assert(rows.take(rows.len() as int) =~= rows);
        }
        assert(shelves.take(shelves.len() as int) =~= shelves);
        count > 20
    }

    /// Whether there is any matchup of a rank and patch.
    pub fn has_matchup_data(&self, rank: &str, patch: &str) -> (r: bool)
        ensures
            r == self@.has_matchup(rank@, patch@),
    {
        let rank_key = rank.to_string();
        let patch_key = patch.to_string();
        let ghost shelves = self@.shelves;
        for i in 0..self.shelves.len()
            invariant
                rank_key@ == rank@,
                patch_key@ == patch@,
                shelves == shelf_views(self.shelves@),
                shelves == self@.shelves,
                forall|k: int, j: int|
                    0 <= k < i && 0 <= j < shelves[k].matchups.len() ==> {
                        let row = #[trigger] shelves[k].matchups[j];
                        !(row.rank == rank@ && row.patch == patch@)
                    },
        {
            let shelf = &self.shelves[i];
            assert(shelves[i as int] == shelf.shown());
            for j in 0..shelf.matchups.len()
                invariant
                    rank_key@ == rank@,
                    patch_key@ == patch@,
                    shelves == self@.shelves,
                    i < shelves.len(),
                    shelves[i as int] == shelf.shown(),
                    forall|k: int|
                        0 <= k < j ==> {
                            let row = #[trigger] shelves[i as int].matchups[k];
                            !(row.rank == rank@ && row.patch == patch@)
                        },
            {
                let row = &shelf.matchups[j];
                assert(shelves[i as int].matchups[j as int] == row@);
                if equal(&row.rank, &rank_key) && equal(&row.patch, &patch_key) {
                    return true;
                }
            }
        }
        false
    }

    /// Whether there is any role row at all.
    pub fn has_any_role_data(&self) -> (r: bool)
        ensures
            r == (all_roles(self@.shelves).len() > 0),
    {
        let ghost shelves = self@.shelves;
        for i in 0..self.shelves.len()
            invariant
                shelves == shelf_views(self.shelves@),
                shelves == self@.shelves,
                all_roles(shelves.take(i as int)).len() == 0,
        {
            assert(shelves.take(i + 1).drop_last() =~= shelves.take(i as int));
            assert(shelves.take(i + 1).last() == self.shelves@[i as int].shown());
            if self.shelves[i].roles.len() > 0 {
                proof {
                    lemma_all_roles_grow(shelves, i + 1);
                }
                return true;
            }
        }
        assert(shelves.take(shelves.len() as int) =~= shelves);
        false
    }
}

/// The smaller of the two.
spec fn least(a: nat, b: nat) -> nat {
    if a < b {
        a
    } else {
        b
    }
}

proof fn lemma_all_roles_grow(shelves: Seq<ShelfView>, n: int)
    requires
        0 <= n <= shelves.len(),
    ensures
        all_roles(shelves.take(n)).len() <= all_roles(shelves).len(),
    decreases shelves.len() - n,
{
    if n < shelves.len() {
        lemma_all_roles_grow(shelves, n + 1);
        assert(shelves.take(n + 1).drop_last() =~= shelves.take(n));
    } else {
        assert(shelves.take(n) =~= shelves);
    }
}

/// The role rows of all shelves, side by side.
struct RoleRows<'a> {
    rows: Vec<&'a RoleRow>,
}

impl<'a> RoleRows<'a> {
    spec fn shown(self) -> Seq<RoleRowView> {
        Seq::new(self.rows@.len(), |i: int| self.rows@[i]@)
    }

    fn count(&self, rank: &String, patch: &String) -> (n: usize)
        ensures
            n == rows_at(self.shown(), rank@, patch@),
    {
        let ghost rows = self.shown();
        let mut n: usize = 0;
        for i in 0..self.rows.len()
            invariant
                rows == self.shown(),
                n == rows_at(rows.take(i as int), rank@, patch@),
                n <= i,
        {
            let row = self.rows[i];
            assert(rows.take(i + 1).drop_last() =~= rows.take(i as int));
            assert(rows.take(i + 1).last() == row@);
            if equal(&row.rank, rank) && equal(&row.patch, patch) {
                n += 1;
            }
        }
        assert(rows.take(rows.len() as int) =~= rows);
        n
    }
}

impl StatsDb {
    fn role_list(&self) -> (list: RoleRows<'_>)
        ensures
            list.shown() == all_roles(self@.shelves),
    {
        let ghost shelves = self@.shelves;
        let mut list = RoleRows { rows: Vec::new() };
        assert(list.shown() =~= all_roles(shelves.take(0)));
        for i in 0..self.shelves.len()
            invariant
                shelves == shelf_views(self.shelves@),
                list.shown() == all_roles(shelves.take(i as int)),
        {
            let shelf = &self.shelves[i];
            assert(shelves.take(i + 1).drop_last() =~= shelves.take(i as int));
            assert(shelves.take(i + 1).last() == shelf.shown());
            let ghost before = list.shown();
            let ghost rows = shelf.shown().roles;
            assert(before + rows.take(0) =~= before);
            for j in 0..shelf.roles.len()
                invariant
                    rows == role_views(shelf.roles@),
                    list.shown() == before + rows.take(j as int),
            {
                let ghost so_far = list.shown();
                list.rows.push(&shelf.roles[j]);
                assert(list.shown() =~= so_far.push(rows[j as int]));
                assert(list.shown() =~= before + rows.take(j + 1));
            }
            assert(rows.take(rows.len() as int) =~= rows);
        }
        assert(shelves.take(shelves.len() as int) =~= shelves);
        list
    }

    /// The rank and patch whose statistics stand in for those of `rank` and
    /// `patch`: themselves where there are role rows of theirs or none at all,
    /// else those with the most role rows.
    pub fn stats_key(&self, rank: &str, patch: &str) -> (key: (String, String))
        ensures
            self@.stands_in(rank@, patch@, (key.0@, key.1@)),
    {
        let list = self.role_list();
        let ghost rows = list.shown();
        let wanted_rank = rank.to_string();
        let wanted_patch = patch.to_string();
        let own = list.count(&wanted_rank, &wanted_patch);
        if own > 0 || list.rows.len() == 0 {
            return (wanted_rank, wanted_patch);
        }
        let mut best: usize = 0;
        let mut most: usize = list.count(&list.rows[0].rank, &list.rows[0].patch);
        assert(rows[0] == list.rows@[0]@);
        for i in 1..list.rows.len()
            invariant
                rows == list.shown(),
                best < i <= rows.len(),
                most == rows_at(rows, rows[best as int].rank, rows[best as int].patch),
                forall|j: int|
                    0 <= j < i ==> rows_at(rows, (#[trigger] rows[j]).rank, rows[j].patch) <= most,
                forall|j: int|
                    0 <= j < best ==> rows_at(rows, (#[trigger] rows[j]).rank, rows[j].patch)
                        < most,
        {
            let n = list.count(&list.rows[i].rank, &list.rows[i].patch);
            assert(rows[i as int] == list.rows@[i as int]@);
            if n > most {
                best = i;
                most = n;
            }
        }
        assert(is_fullest(rows, best as int));
        assert(rows[best as int] == list.rows@[best as int]@);
        (list.rows[best].rank.clone(), list.rows[best].patch.clone())
    }

    /// Keeps `value` under `key`.
    pub fn set_meta(&mut self, key: &str, value: &str)
        ensures
            final(self)@ == after(old(self)@, ChangeView::Note { key: key@, value: value@ }),
            final(self).pending() == old(self).pending().push(
                ChangeView::Note { key: key@, value: value@ },
            ),
            old(self)@.tidy() ==> final(self)@.tidy(),
    {
        proof {
            if self@.tidy() {
                law_one_row_per_key(self@, ChangeView::Note { key: key@, value: value@ });
            }
        }
        self.write(Change::Note { key: key.to_string(), value: value.to_string() });
    }

    /// Drops the matchups and synergies of a rank and patch, which are about to be
    /// fetched anew. The role rows stay, so that there is something to recommend
    /// from meanwhile.
    pub fn begin_ingest(&mut self, rank: &str, patch: &str)
        ensures
            final(self)@ == after(old(self)@, ChangeView::Clear { rank: rank@, patch: patch@ }),
            final(self).pending() == old(self).pending().push(
                ChangeView::Clear { rank: rank@, patch: patch@ },
            ),
            old(self)@.tidy() ==> final(self)@.tidy(),
    {
        proof {
            if self@.tidy() {
                law_one_row_per_key(self@, ChangeView::Clear { rank: rank@, patch: patch@ });
            }
        }
        self.write(Change::Clear { rank: rank.to_string(), patch: patch.to_string() });
    }

    /// Writes how a champion does in a role, unless a rate is not a number. The share
    /// of the games in the role may be none: it then counts as nothing.
    pub fn upsert_role_stat(
        &mut self,
        champion_id: i64,
        role: &str,
        rank: &str,
        patch: &str,
        meta: &RoleMeta,
    ) -> (result: Result<(), StoreError>)
        ensures
            ({
                let change = role_change(champion_id, role@, rank@, patch@, meta@);
                &&& result is Ok <==> storable(change)
                &&& if storable(change) {
                    &&& final(self)@ == after(old(self)@, settled(change))
                    &&& final(self).pending() == old(self).pending().push(settled(change))
                } else {
                    *final(self) == *old(self)
                }
            }),
            old(self)@.tidy() ==> final(self)@.tidy(),
    {
        let row = RoleRow {
            role: role.to_string(),
            rank: rank.to_string(),
            patch: patch.to_string(),
            meta: meta.clone(),
        };
        self.apply(Change::Role { champion_id, role: row })
    }

    /// Writes how a champion does in a role against an enemy, unless a rate is not a
    /// number.
    pub fn upsert_matchup(
        &mut self,
        champion_id: i64,
        enemy_id: i64,
        role: &str,
        kind: &str,
        vs_role: &str,
        rank: &str,
        patch: &str,
        stat: &MatchupStat,
    ) -> (result: Result<(), StoreError>)
        ensures
            ({
                let change = matchup_change(
                    champion_id,
                    enemy_id,
                    role@,
                    kind@,
                    vs_role@,
                    rank@,
                    patch@,
                    *stat,
                );
                &&& result is Ok <==> storable(change)
                &&& if storable(change) {
                    &&& final(self)@ == after(old(self)@, settled(change))
                    &&& final(self).pending() == old(self).pending().push(settled(change))
                } else {
                    *final(self) == *old(self)
                }
            }),
            old(self)@.tidy() ==> final(self)@.tidy(),
    {
        let row = MatchupRow {
            enemy_id,
            role: role.to_string(),
            kind: kind.to_string(),
            vs_role: vs_role.to_string(),
            rank: rank.to_string(),
            patch: patch.to_string(),
            stat: *stat,
        };
        self.apply(Change::Matchup { champion_id, matchup: row })
    }

    /// Writes how a champion does beside an ally, unless a rate is not a number.
    pub fn upsert_synergy(
        &mut self,
        champion_id: i64,
        ally_id: i64,
        rank: &str,
        patch: &str,
        stat: &MatchupStat,
    ) -> (result: Result<(), StoreError>)
        ensures
            ({
                let change = synergy_change(champion_id, ally_id, rank@, patch@, *stat);
                &&& result is Ok <==> storable(change)
                &&& if storable(change) {
                    &&& final(self)@ == after(old(self)@, settled(change))
                    &&& final(self).pending() == old(self).pending().push(settled(change))
                } else {
                    *final(self) == *old(self)
                }
            }),
            old(self)@.tidy() ==> final(self)@.tidy(),
    {
        let row = SynergyRow {
            ally_id,
            rank: rank.to_string(),
            patch: patch.to_string(),
            stat: *stat,
        };
        self.apply(Change::Synergy { champion_id, synergy: row })
    }

    /// Writes `changes`, in order, and notes them for saving, up to the first that
    /// cannot be kept.
    pub fn apply_all(&mut self, changes: &Vec<Change>) -> (result: Result<(), StoreError>)
        ensures
            result is Ok <==> all_storable(change_views(changes@)),
            final(self)@ == after_all(old(self)@, written(change_views(changes@))),
            final(self).pending() == old(self).pending() + written(change_views(changes@)),
            old(self)@.tidy() ==> final(self)@.tidy(),
    {
        let ghost all = change_views(changes@);
        proof {
            if self@.tidy() {
                law_stays_tidy(self@, written(all));
            }
            assert(all.take(0) =~= Seq::empty());
            assert(self.pending() =~= old(self).pending() + written(all.take(0)));
        }
        for i in 0..changes.len()
            invariant
                all == change_views(changes@),
                all_storable(all.take(i as int)),
                self@ == after_all(old(self)@, written(all.take(i as int))),
                self.pending() == old(self).pending() + written(all.take(i as int)),
                old(self)@.tidy() ==> after_all(old(self)@, written(all)).tidy(),
        {
            let ghost so_far = all.take(i as int);
            let ghost next = all.take(i + 1);
            let ghost before = *self;
            proof {
                assert(next.drop_last() =~= so_far);
                assert(next.last() == changes@[i as int]@);
            }
            if let Err(error) = self.apply(changes[i].clone()) {
                proof {
                    assert(!storable(next[i as int]));
                    assert(written(next) == written(so_far));
                    lemma_written_stops(all, i + 1);
                }
                return Err(error);
            }
            proof {
                assert forall|k: int| 0 <= k < next.len() implies storable(#[trigger] next[k]) by {
                    if k < i {
                        assert(storable(so_far[k]));
                    }
                }
                assert(written(next) == written(so_far).push(settled(next.last())));
                assert(written(next).drop_last() =~= written(so_far));
                assert(self.pending() =~= old(self).pending() + written(next));
            }
        }
        assert(all.take(all.len() as int) =~= all);
        Ok(())
    }

    /// Hands out the changes that are still to be saved, oldest first, and forgets
    /// them.
    pub fn take_unsaved(&mut self) -> (changes: Vec<Change>)
        ensures
            change_views(changes@) == old(self).pending(),
            final(self).pending() == Seq::<ChangeView>::empty(),
            final(self)@ == old(self)@,
    {
        let mut changes: Vec<Change> = Vec::new();
        std::mem::swap(&mut changes, &mut self.unsaved);
        assert(self.pending() =~= Seq::<ChangeView>::empty());
        changes
    }
}

} // verus!
