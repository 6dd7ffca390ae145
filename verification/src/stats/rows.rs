//! The rows of the statistics, and what can be written of them.
use crate::number::{Real, FIFTEEN, FIFTY, ZERO};
use crate::text::{is_same, maybe_text, same};
use vstd::prelude::*;

verus! {

/// The layout of the tables that the matchup rows were written for.
pub const STATS_SCHEMA: &'static str = "2";

/// How a champion does in a role.
#[derive(Debug)]
pub struct RoleMeta {
    pub winrate: Real,
    pub pickrate: Real,
    pub banrate: Real,
    pub games: i64,
    /// The share of the champion's games that are played in the role.
    pub pct_lane: Real,
    /// The role that the champion is mostly played in; empty where unknown.
    pub default_lane: String,
}

/// [`RoleMeta`], mathematically.
pub struct RoleMetaView {
    pub winrate: Real,
    pub pickrate: Real,
    pub banrate: Real,
    pub games: i64,
    pub pct_lane: Real,
    pub default_lane: Seq<char>,
}

impl View for RoleMeta {
    type V = RoleMetaView;

    open spec fn view(&self) -> RoleMetaView {
        RoleMetaView {
            winrate: self.winrate,
            pickrate: self.pickrate,
            banrate: self.banrate,
            games: self.games,
            pct_lane: self.pct_lane,
            default_lane: self.default_lane@,
        }
    }
}

impl Clone for RoleMeta {
    fn clone(&self) -> (copy: Self)
        ensures
            copy == *self,
    {
        RoleMeta {
            winrate: self.winrate,
            pickrate: self.pickrate,
            banrate: self.banrate,
            games: self.games,
            pct_lane: self.pct_lane,
            default_lane: self.default_lane.clone(),
        }
    }
}

impl RoleMetaView {
    /// Enough games in the role, and either a fair share of the champion's games
    /// are played there or it is the champion's own role.
    pub open spec fn in_pool(self, role: Seq<char>) -> bool {
        &&& self.games >= 150
        &&& (self.pct_lane.ge(Real { bits: FIFTEEN }) || (self.default_lane == role && self.games
            >= 200))
    }
}

impl RoleMeta {
    /// Whether the champion counts as one that is played in `role`.
    pub fn in_role_pool(&self, role: &str) -> (r: bool)
        ensures
            r == self@.in_pool(role@),
    {
        self.games >= 150 && (self.pct_lane.at_least(Real { bits: FIFTEEN }) || (same(
            &self.default_lane,
            role,
        ) && self.games >= 200))
    }
}

/// How a champion does against or beside another.
#[derive(Debug, Clone, Copy)]
pub struct MatchupStat {
    pub winrate: Real,
    pub games: i64,
    /// The win rate's distance from what was to be expected; where the source
    /// gives none, its distance from 50.
    pub delta: Option<Real>,
}

/// One row of the role table.
#[derive(Debug)]
pub struct RoleRow {
    pub role: String,
    pub rank: String,
    pub patch: String,
    pub meta: RoleMeta,
}

/// [`RoleRow`], mathematically.
pub struct RoleRowView {
    pub role: Seq<char>,
    pub rank: Seq<char>,
    pub patch: Seq<char>,
    pub meta: RoleMetaView,
}

impl View for RoleRow {
    type V = RoleRowView;

    open spec fn view(&self) -> RoleRowView {
        RoleRowView {
            role: self.role@,
            rank: self.rank@,
            patch: self.patch@,
            meta: self.meta@,
        }
    }
}

/// One row of the matchup table.
#[derive(Debug)]
pub struct MatchupRow {
    pub enemy_id: i64,
    pub role: String,
    /// `lane` for the opponent in the same role, `team` for any other.
    pub kind: String,
    pub vs_role: String,
    pub rank: String,
    pub patch: String,
    pub stat: MatchupStat,
}

/// [`MatchupRow`], mathematically.
pub struct MatchupRowView {
    pub enemy_id: i64,
    pub role: Seq<char>,
    pub kind: Seq<char>,
    pub vs_role: Seq<char>,
    pub rank: Seq<char>,
    pub patch: Seq<char>,
    pub stat: MatchupStat,
}

impl View for MatchupRow {
    type V = MatchupRowView;

    open spec fn view(&self) -> MatchupRowView {
        MatchupRowView {
            enemy_id: self.enemy_id,
            role: self.role@,
            kind: self.kind@,
            vs_role: self.vs_role@,
            rank: self.rank@,
            patch: self.patch@,
            stat: self.stat,
        }
    }
}

/// One row of the synergy table.
#[derive(Debug)]
pub struct SynergyRow {
    pub ally_id: i64,
    pub rank: String,
    pub patch: String,
    pub stat: MatchupStat,
}

/// [`SynergyRow`], mathematically.
pub struct SynergyRowView {
    pub ally_id: i64,
    pub rank: Seq<char>,
    pub patch: Seq<char>,
    pub stat: MatchupStat,
}

impl View for SynergyRow {
    type V = SynergyRowView;

    open spec fn view(&self) -> SynergyRowView {
        SynergyRowView {
            ally_id: self.ally_id,
            rank: self.rank@,
            patch: self.patch@,
            stat: self.stat,
        }
    }
}

impl Clone for RoleRow {
    fn clone(&self) -> (copy: Self)
        ensures
            copy@ == self@,
    {
        RoleRow {
            role: self.role.clone(),
            rank: self.rank.clone(),
            patch: self.patch.clone(),
            meta: self.meta.clone(),
        }
    }
}

impl Clone for MatchupRow {
    fn clone(&self) -> (copy: Self)
        ensures
            copy@ == self@,
    {
        MatchupRow {
            enemy_id: self.enemy_id,
            role: self.role.clone(),
            kind: self.kind.clone(),
            vs_role: self.vs_role.clone(),
            rank: self.rank.clone(),
            patch: self.patch.clone(),
            stat: self.stat,
        }
    }
}

impl Clone for SynergyRow {
    fn clone(&self) -> (copy: Self)
        ensures
            copy@ == self@,
    {
        SynergyRow {
            ally_id: self.ally_id,
            rank: self.rank.clone(),
            patch: self.patch.clone(),
            stat: self.stat,
        }
    }
}

/// One thing that is written to the cache.
#[derive(Debug)]
pub enum Change {
    Note { key: String, value: String },
    Role { champion_id: i64, role: RoleRow },
    Matchup { champion_id: i64, matchup: MatchupRow },
    Synergy { champion_id: i64, synergy: SynergyRow },
    /// Matchups and synergies of this rank and patch are dropped.
    Clear { rank: String, patch: String },
}

/// [`Change`], mathematically.
pub enum ChangeView {
    Note { key: Seq<char>, value: Seq<char> },
    Role { champion_id: i64, role: RoleRowView },
    Matchup { champion_id: i64, matchup: MatchupRowView },
    Synergy { champion_id: i64, synergy: SynergyRowView },
    Clear { rank: Seq<char>, patch: Seq<char> },
}

impl View for Change {
    type V = ChangeView;

    open spec fn view(&self) -> ChangeView {
        match self {
            Change::Note { key, value } => ChangeView::Note { key: key@, value: value@ },
            Change::Role { champion_id, role } => ChangeView::Role {
                champion_id: *champion_id,
                role: role@,
            },
            Change::Matchup { champion_id, matchup } => ChangeView::Matchup {
                champion_id: *champion_id,
                matchup: matchup@,
            },
            Change::Synergy { champion_id, synergy } => ChangeView::Synergy {
                champion_id: *champion_id,
                synergy: synergy@,
            },
            Change::Clear { rank, patch } => ChangeView::Clear { rank: rank@, patch: patch@ },
        }
    }
}

impl Clone for Change {
    fn clone(&self) -> (copy: Self)
        ensures
            copy@ == self@,
    {
        match self {
            Change::Note { key, value } => Change::Note {
                key: key.clone(),
                value: value.clone(),
            },
            Change::Role { champion_id, role } => Change::Role {
                champion_id: *champion_id,
                role: role.clone(),
            },
            Change::Matchup { champion_id, matchup } => Change::Matchup {
                champion_id: *champion_id,
                matchup: matchup.clone(),
            },
            Change::Synergy { champion_id, synergy } => Change::Synergy {
                champion_id: *champion_id,
                synergy: synergy.clone(),
            },
            Change::Clear { rank, patch } => Change::Clear {
                rank: rank.clone(),
                patch: patch.clone(),
            },
        }
    }
}

/// The changes, mathematically.
pub open spec fn change_views(changes: Seq<Change>) -> Seq<ChangeView> {
    Seq::new(changes.len(), |i: int| changes[i]@)
}

// ------------------------------------------------------------------ what can be kept

/// Why something is not written.
#[derive(Debug, Clone, Copy, PartialEq, Eq, Structural)]
pub enum StoreError {
    /// A rate is not a number.
    NotANumber,
}

/// The rates are numbers.
pub open spec fn numeric(stat: MatchupStat) -> bool {
    &&& !stat.winrate.is_nan()
    &&& stat.delta matches Some(delta) ==> !delta.is_nan()
}

/// What is to be written can be kept: the rates are numbers. The share of the games
/// in the role need not be one.
pub open spec fn storable(change: ChangeView) -> bool {
    match change {
        ChangeView::Role { role, .. } => {
            &&& !role.meta.winrate.is_nan()
            &&& !role.meta.pickrate.is_nan()
            &&& !role.meta.banrate.is_nan()
        },
        ChangeView::Matchup { matchup, .. } => numeric(matchup.stat),
        ChangeView::Synergy { synergy, .. } => numeric(synergy.stat),
        _ => true,
    }
}

/// How a champion does in a role, with no share of the games where that is not a
/// number.
pub open spec fn settled_meta(meta: RoleMetaView) -> RoleMetaView {
    if meta.pct_lane.is_nan() {
        RoleMetaView { pct_lane: Real { bits: ZERO }, ..meta }
    } else {
        meta
    }
}

/// What is kept of a change.
pub open spec fn settled(change: ChangeView) -> ChangeView {
    match change {
        ChangeView::Role { champion_id, role } => ChangeView::Role {
            champion_id,
            role: RoleRowView { meta: settled_meta(role.meta), ..role },
        },
        _ => change,
    }
}

/// All of the changes can be kept.
pub open spec fn all_storable(changes: Seq<ChangeView>) -> bool {
    forall|i: int| 0 <= i < changes.len() ==> storable(#[trigger] changes[i])
}

/// What is kept of the changes: those before the first that cannot be kept.
pub open spec fn written(changes: Seq<ChangeView>) -> Seq<ChangeView>
    decreases changes.len(),
{
    if changes.len() == 0 {
        Seq::empty()
    } else if all_storable(changes) {
        written(changes.drop_last()).push(settled(changes.last()))
    } else {
        written(changes.drop_last())
    }
}

/// Once one of the changes cannot be kept, nothing behind it is.
pub proof fn lemma_written_stops(changes: Seq<ChangeView>, n: int)
    requires
        0 <= n <= changes.len(),
        !all_storable(changes.take(n)),
    ensures
        !all_storable(changes),
        written(changes) == written(changes.take(n)),
    decreases changes.len(),
{
    let i = choose|i: int| 0 <= i < n && !storable(#[trigger] changes.take(n)[i]);
    assert(!storable(changes[i]));
    if n == changes.len() {
        assert(changes.take(n) =~= changes);
    } else {
        assert(changes.drop_last().take(n) =~= changes.take(n));
        lemma_written_stops(changes.drop_last(), n);
    }
}

impl MatchupStat {
    /// Whether the rates are numbers.
    fn is_numeric(&self) -> (r: bool)
        ensures
            r == numeric(*self),
    {
        !self.winrate.not_a_number() && match self.delta {
            Some(delta) => !delta.not_a_number(),
            None => true,
        }
    }
}

impl Change {
    /// What is kept of the change; an error where it cannot be kept.
    pub fn settle(self) -> (kept: Result<Change, StoreError>)
        ensures
            kept is Ok <==> storable(self@),
            kept matches Ok(change) ==> change@ == settled(self@),
    {
        match self {
            Change::Role { champion_id, role } => {
                if role.meta.winrate.not_a_number() || role.meta.pickrate.not_a_number()
                    || role.meta.banrate.not_a_number() {
                    return Err(StoreError::NotANumber);
                }
                let mut kept = role;
                if kept.meta.pct_lane.not_a_number() {
                    kept.meta.pct_lane = Real { bits: ZERO };
                }
                Ok(Change::Role { champion_id, role: kept })
            },
            Change::Matchup { champion_id, matchup } => if matchup.stat.is_numeric() {
                Ok(Change::Matchup { champion_id, matchup })
            } else {
                Err(StoreError::NotANumber)
            },
            Change::Synergy { champion_id, synergy } => if synergy.stat.is_numeric() {
                Ok(Change::Synergy { champion_id, synergy })
            } else {
                Err(StoreError::NotANumber)
            },
            other => Ok(other),
        }
    }
}

/// The champions with how they do, mathematically.
pub open spec fn pool_view(pool: Seq<(i64, RoleMeta)>) -> Seq<(i64, RoleMetaView)> {
    Seq::new(pool.len(), |i: int| (pool[i].0, pool[i].1@))
}

// ------------------------------------------------------------------ the copy on disk

/// Whether the matchups of a copy on disk can be read: they are laid out as they
/// are now.
pub fn schema_is_current(schema: &Option<String>) -> (r: bool)
    ensures
        r == (maybe_text(*schema) == Some(STATS_SCHEMA@)),
{
    is_same(schema, STATS_SCHEMA)
}

/// What stands in a column, or else `otherwise`.
pub open spec fn column_or<T>(column: Option<T>, otherwise: T) -> T {
    match column {
        Some(value) => value,
        None => otherwise,
    }
}

/// How a champion does in a role, by the columns of a row that may lack some: an
/// even win rate, and nothing else known.
pub fn read_role_meta(
    winrate: Option<Real>,
    pickrate: Option<Real>,
    banrate: Option<Real>,
    games: Option<i64>,
    pct_lane: Option<Real>,
    default_lane: Option<String>,
) -> (meta: RoleMeta)
    ensures
        meta@.winrate == column_or(winrate, Real { bits: FIFTY }),
        meta@.pickrate == column_or(pickrate, Real { bits: ZERO }),
        meta@.banrate == column_or(banrate, Real { bits: ZERO }),
        meta@.games == column_or(games, 0),
        meta@.pct_lane == column_or(pct_lane, Real { bits: ZERO }),
        meta@.default_lane == column_or(maybe_text(default_lane), Seq::<char>::empty()),
{
    RoleMeta {
        winrate: match winrate {
            Some(x) => x,
            None => Real { bits: FIFTY },
        },
        pickrate: match pickrate {
            Some(x) => x,
            None => Real { bits: ZERO },
        },
        banrate: match banrate {
            Some(x) => x,
            None => Real { bits: ZERO },
        },
        games: match games {
            Some(n) => n,
            None => 0,
        },
        pct_lane: match pct_lane {
            Some(x) => x,
            None => Real { bits: ZERO },
        },
        default_lane: match default_lane {
            Some(lane) => lane,
            None => String::new(),
        },
    }
}

// ------------------------------------------------------------------ laws

/// What a role's figures stand for are the figures themselves, each under its own name.
pub proof fn law_figures(meta: RoleMeta)
    ensures
        meta@.winrate == meta.winrate,
        meta@.pickrate == meta.pickrate,
        meta@.banrate == meta.banrate,
        meta@.games == meta.games,
        meta@.pct_lane == meta.pct_lane,
        meta@.default_lane == meta.default_lane@,
{
}

/// The rows likewise stand for what they hold.
pub proof fn law_rows(role: RoleRow, matchup: MatchupRow, synergy: SynergyRow)
    ensures
        role@.role == role.role@,
        role@.rank == role.rank@,
        role@.patch == role.patch@,
        role@.meta == role.meta@,
        matchup@.enemy_id == matchup.enemy_id,
        matchup@.role == matchup.role@,
        matchup@.kind == matchup.kind@,
        matchup@.vs_role == matchup.vs_role@,
        matchup@.rank == matchup.rank@,
        matchup@.patch == matchup.patch@,
        matchup@.stat == matchup.stat,
        synergy@.ally_id == synergy.ally_id,
        synergy@.rank == synergy.rank@,
        synergy@.patch == synergy.patch@,
        synergy@.stat == synergy.stat,
{
}

/// A change of each kind stands for the same kind of change, of the same champion and row.
pub proof fn law_changes(
    champion_id: i64,
    role: RoleRow,
    matchup: MatchupRow,
    synergy: SynergyRow,
    a: String,
    b: String,
)
    ensures
        (Change::Role { champion_id, role })@ == (ChangeView::Role { champion_id, role: role@ }),
        (Change::Matchup { champion_id, matchup })@ == (ChangeView::Matchup {
            champion_id,
            matchup: matchup@,
        }),
        (Change::Synergy { champion_id, synergy })@ == (ChangeView::Synergy {
            champion_id,
            synergy: synergy@,
        }),
        (Change::Note { key: a, value: b })@ == (ChangeView::Note { key: a@, value: b@ }),
        (Change::Clear { rank: a, patch: b })@ == (ChangeView::Clear { rank: a@, patch: b@ }),
{
}

/// Lists of changes and of champions stand for what they hold, place by place.
pub proof fn law_lists(changes: Seq<Change>, pool: Seq<(i64, RoleMeta)>, i: int)
    ensures
        change_views(changes).len() == changes.len(),
        0 <= i < changes.len() ==> change_views(changes)[i] == changes[i]@,
        pool_view(pool).len() == pool.len(),
        0 <= i < pool.len() ==> pool_view(pool)[i].0 == pool[i].0,
        0 <= i < pool.len() ==> pool_view(pool)[i].1 == pool[i].1@,
{
}

/// A column that is there counts, and what stands in for it only where it is not.
pub proof fn law_columns<T>(value: T, otherwise: T)
    ensures
        column_or(Some(value), otherwise) == value,
        column_or(None, otherwise) == otherwise,
{
}

} // verus!
