//! What a recommendation starts from: the two sides, the weights, and for each
//! candidate all that its score is made of.
use crate::catalog::Catalog;
use crate::engine::pool::{
    choices, distinct_ids, lockable, pool_ids, soft_filter, still_lockable, ScoreContext,
};
use crate::engine::weights::{
    ally_role_weight, ally_weight, enemy_weight, vs_role_weight, weights, weights_for, Weights,
};
use crate::lists::{find, lemma_place_is};
use crate::models::{lcu_role_to_stats, role_name, ChampionInfo, DraftView, PlayerSlot};
use crate::number::Real;
use crate::stats::cache::Cache;
use crate::stats::rows::{pool_view, MatchupStat, RoleMeta};
use crate::stats::store::StatsDb;
use crate::text::same;
use vstd::prelude::*;

verus! {

broadcast use vstd::std_specs::hash::group_hash_axioms;

/// The role of a champion in the draft: the seat's own where it has one, else
/// the one that the champion is played in most.
pub open spec fn resolved_role(
    cache: Cache,
    champion_id: i64,
    assigned: Seq<char>,
    rank: Seq<char>,
    patch: Seq<char>,
) -> Seq<char> {
    if role_name(assigned).len() > 0 {
        role_name(assigned)
    } else {
        match cache.primary_role(champion_id, rank, patch) {
            Some(role) => role,
            None => Seq::empty(),
        }
    }
}

/// The role of a champion in the draft.
pub fn resolve_role(db: &StatsDb, champion_id: i64, assigned: &str, rank: &str, patch: &str) -> (role:
    String)
    ensures
        role@ == resolved_role(db@, champion_id, assigned@, rank@, patch@),
{
    let assigned = lcu_role_to_stats(assigned);
    if !assigned.as_str().is_empty() {
        return assigned;
    }
    match db.primary_role(champion_id, rank, patch) {
        Some(role) => role,
        None => String::new(),
    }
}

/// The champion of a seat that counts: of an enemy the one that is locked, of an
/// ally other than the player the one that is shown; 0 where there is none.
pub open spec fn counted(slot: PlayerSlot, enemies: bool) -> i64 {
    if enemies {
        slot.champion_id
    } else if slot.is_local {
        0
    } else {
        slot.display_champion_id
    }
}

/// The champions of a side that count, each with its role.
pub open spec fn side(
    cache: Cache,
    slots: Seq<PlayerSlot>,
    enemies: bool,
    rank: Seq<char>,
    patch: Seq<char>,
) -> Seq<(i64, Seq<char>)>
    decreases slots.len(),
{
    if slots.len() == 0 {
        Seq::empty()
    } else {
        let before = side(cache, slots.drop_last(), enemies, rank, patch);
        let id = counted(slots.last(), enemies);
        if id > 0 {
            before.push(
                (id, resolved_role(cache, id, slots.last().assigned_position@, rank, patch)),
            )
        } else {
            before
        }
    }
}

/// The champions with their roles, mathematically.
pub open spec fn roles_view(list: Seq<(i64, String)>) -> Seq<(i64, Seq<char>)> {
    Seq::new(list.len(), |i: int| (list[i].0, list[i].1@))
}

fn side_of(db: &StatsDb, slots: &Vec<PlayerSlot>, enemies: bool, rank: &str, patch: &str) -> (list: Vec<
    (i64, String),
>)
    ensures
        roles_view(list@) == side(db@, slots@, enemies, rank@, patch@),
{
    let mut list: Vec<(i64, String)> = Vec::new();
    assert(roles_view(list@) =~= side(db@, slots@.take(0), enemies, rank@, patch@));
    for i in 0..slots.len()
        invariant
            roles_view(list@) == side(db@, slots@.take(i as int), enemies, rank@, patch@),
    {
        let slot = &slots[i];
        assert(slots@.take(i + 1).drop_last() =~= slots@.take(i as int));
        let id = if enemies {
            slot.champion_id
        } else if slot.is_local {
            0
        } else {
            slot.display_champion_id
        };
        if id > 0 {
            let role = resolve_role(db, id, &slot.assigned_position, rank, patch);
            let ghost before = roles_view(list@);
            list.push((id, role));
            assert(roles_view(list@) =~= before.push((id, role@)));
        }
    }
    assert(slots@.take(slots@.len() as int) =~= slots@);
    list
}

/// The champions that play a role.
pub open spec fn plays(role: Seq<char>) -> spec_fn((i64, Seq<char>)) -> bool {
    |entry: (i64, Seq<char>)| entry.1 == role
}

/// The opponent in the lane: the one that the draft names, else the first enemy
/// that plays the role.
pub open spec fn opponent(
    draft: DraftView,
    enemies: Seq<(i64, Seq<char>)>,
    role: Seq<char>,
) -> Option<i64> {
    match draft.lane_enemy_id {
        Some(id) => Some(id),
        None => match find(enemies, plays(role)) {
            Some(entry) => Some(entry.0),
            None => None,
        },
    }
}

fn find_opponent(draft: &DraftView, enemies: &Vec<(i64, String)>, role: &str) -> (id: Option<i64>)
    ensures
        id == opponent(*draft, roles_view(enemies@), role@),
{
    if let Some(id) = draft.lane_enemy_id {
        return Some(id);
    }
    let ghost view = roles_view(enemies@);
    let ghost wanted = plays(role@);
    for i in 0..enemies.len()
        invariant
            draft.lane_enemy_id is None,
            view == roles_view(enemies@),
            wanted == plays(role@),
            forall|j: int| 0 <= j < i ==> !wanted(#[trigger] view[j]),
    {
        assert(view[i as int].1 == enemies@[i as int].1@);
        if same(&enemies[i].1, role) {
            proof {
                lemma_place_is(view, wanted, i as int);
            }
            return Some(enemies[i].0);
        }
    }
    proof {
        lemma_place_is(view, wanted, view.len() as int);
    }
    None
}

// ------------------------------------------------------- what is weighed

/// How a candidate does against or beside one champion of the draft, and how much
/// that counts, in hundredths.
#[derive(Debug, Clone, Copy)]
pub struct Pairing {
    pub id: i64,
    pub weight: u32,
    pub stat: MatchupStat,
}

/// How a champion does against the enemies other than the lane opponent.
pub open spec fn team_pairings(
    cache: Cache,
    champion_id: i64,
    enemies: Seq<(i64, Seq<char>)>,
    lane_enemy: Option<i64>,
    role: Seq<char>,
    rank: Seq<char>,
    patch: Seq<char>,
) -> Seq<Pairing>
    decreases enemies.len(),
{
    if enemies.len() == 0 {
        Seq::empty()
    } else {
        let before = team_pairings(
            cache,
            champion_id,
            enemies.drop_last(),
            lane_enemy,
            role,
            rank,
            patch,
        );
        let (id, vs_role) = enemies.last();
        match cache.matchup(champion_id, id, role, vs_role, rank, patch) {
            Some(stat) => if lane_enemy == Some(id) {
                before
            } else {
                before.push(Pairing { id, weight: enemy_weight(role, vs_role), stat })
            },
            None => before,
        }
    }
}

/// How a champion does beside the allies.
pub open spec fn ally_pairings(
    cache: Cache,
    champion_id: i64,
    allies: Seq<(i64, Seq<char>)>,
    role: Seq<char>,
    rank: Seq<char>,
    patch: Seq<char>,
) -> Seq<Pairing>
    decreases allies.len(),
{
    if allies.len() == 0 {
        Seq::empty()
    } else {
        let before = ally_pairings(cache, champion_id, allies.drop_last(), role, rank, patch);
        let (id, ally_role) = allies.last();
        match cache.synergy(champion_id, id, rank, patch) {
            Some(stat) => before.push(Pairing { id, weight: ally_weight(role, ally_role), stat }),
            None => before,
        }
    }
}

/// A champion that can be recommended, with all that its score is made of.
#[derive(Debug)]
pub struct Candidate {
    pub champion_id: i64,
    pub info: ChampionInfo,
    pub meta: RoleMeta,
    /// How it does against the lane opponent.
    pub lane: Option<MatchupStat>,
    /// How it does against the other enemies.
    pub team: Vec<Pairing>,
    /// How it does beside the allies.
    pub synergies: Vec<Pairing>,
    /// How it does in the lane against anyone.
    pub lane_winrates: Vec<Real>,
    /// Mastery level and points, where they are to count.
    pub mastery: Option<(i64, i64)>,
}

/// What a recommendation starts from: the sides, the weights and the candidates.
#[derive(Debug)]
pub struct Plan {
    pub role: String,
    /// The rank and patch that the statistics are of.
    pub rank: String,
    pub patch: String,
    pub enemies: Vec<(i64, String)>,
    pub allies: Vec<(i64, String)>,
    pub lane_enemy: Option<i64>,
    pub weights: Weights,
    /// Everyone who is played in the role, for the role's mean win rate.
    pub pool: Vec<(i64, RoleMeta)>,
    pub candidates: Vec<Candidate>,
}

impl Plan {
    /// The sides, the weights and the pool are those of the draft.
    pub open spec fn sets_out(self, cache: Cache, draft: DraftView, ctx: ScoreContext) -> bool {
        &&& cache.stands_in(ctx.rank@, ctx.patch@, (self.rank@, self.patch@))
        &&& self.role@ == role_name(draft.role@)
        &&& roles_view(self.enemies@) == side(
            cache,
            draft.enemies@,
            true,
            self.rank@,
            self.patch@,
        )
        &&& roles_view(self.allies@) == side(cache, draft.allies@, false, self.rank@, self.patch@)
        &&& self.lane_enemy == opponent(draft, roles_view(self.enemies@), self.role@)
        &&& self.weights == weights_for(self.lane_enemy is Some, self.enemies@.len())
        &&& pool_view(self.pool@) == cache.champions_in_role(self.role@, self.rank@, self.patch@)
    }

    /// The champion can be recommended.
    pub open spec fn eligible(
        self,
        cache: Cache,
        draft: DraftView,
        catalog: Catalog,
        ctx: ScoreContext,
        id: i64,
    ) -> bool {
        &&& choices(pool_ids(pool_view(self.pool@)), draft, catalog, ctx).contains(id)
        &&& lockable(draft, catalog, id)
        &&& cache.role_meta(id, self.role@, self.rank@, self.patch@) is Some
    }

    /// The candidate holds what there is to know of its champion.
    pub open spec fn describes(
        self,
        cache: Cache,
        catalog: Catalog,
        ctx: ScoreContext,
        c: Candidate,
    ) -> bool {
        let id = c.champion_id;
        let enemies = roles_view(self.enemies@);
        let allies = roles_view(self.allies@);
        &&& c.info == catalog.by_id@[id]
        &&& cache.role_meta(id, self.role@, self.rank@, self.patch@) == Some(c.meta@)
        &&& c.lane == (match self.lane_enemy {
            Some(enemy) => cache.matchup(
                id,
                enemy,
                self.role@,
                self.role@,
                self.rank@,
                self.patch@,
            ),
            None => None,
        })
        &&& c.team@ == team_pairings(
            cache,
            id,
            enemies,
            self.lane_enemy,
            self.role@,
            self.rank@,
            self.patch@,
        )
        &&& c.synergies@ == ally_pairings(cache, id, allies, self.role@, self.rank@, self.patch@)
        &&& c.lane_winrates@ == cache.lane_winrates(id, self.role@, self.rank@, self.patch@)
        &&& c.mastery == (if ctx.comfort_weighting && ctx.mastery@.contains_key(id) {
            Some(ctx.mastery@[id])
        } else {
            None
        })
    }

    /// The plan is the one for the draft: its candidates are the champions that
    /// can be recommended, each once.
    pub open spec fn fits(
        self,
        cache: Cache,
        draft: DraftView,
        catalog: Catalog,
        ctx: ScoreContext,
    ) -> bool {
        &&& self.sets_out(cache, draft, ctx)
        &&& forall|i: int|
            0 <= i < self.candidates@.len() ==> self.describes(
                cache,
                catalog,
                ctx,
                #[trigger] self.candidates@[i],
            )
        &&& distinct(self.candidates@)
        &&& forall|id: i64|
            self.eligible(cache, draft, catalog, ctx, id) <==> #[trigger] among(
                self.candidates@,
                id,
            )
    }
}

/// No two of the candidates are the same champion.
pub open spec fn distinct(candidates: Seq<Candidate>) -> bool {
    forall|i: int, j: int|
        0 <= i < j < candidates.len() ==> (#[trigger] candidates[i]).champion_id != (
        #[trigger] candidates[j]).champion_id
}

/// The champion is one of the candidates.
pub open spec fn among(candidates: Seq<Candidate>, id: i64) -> bool {
    exists|i: int| 0 <= i < candidates.len() && (#[trigger] candidates[i]).champion_id == id
}

fn pair_enemies(db: &StatsDb, champion_id: i64, plan: &Plan) -> (team: Vec<Pairing>)
    ensures
        team@ == team_pairings(
            db@,
            champion_id,
            roles_view(plan.enemies@),
            plan.lane_enemy,
            plan.role@,
            plan.rank@,
            plan.patch@,
        ),
{
    let ghost view = roles_view(plan.enemies@);
    let mut team: Vec<Pairing> = Vec::new();
    for i in 0..plan.enemies.len()
        invariant
            view == roles_view(plan.enemies@),
            team@ == team_pairings(
                db@,
                champion_id,
                view.take(i as int),
                plan.lane_enemy,
                plan.role@,
                plan.rank@,
                plan.patch@,
            ),
    {
        let id = plan.enemies[i].0;
        let vs_role = &plan.enemies[i].1;
        assert(view.take(i + 1).drop_last() =~= view.take(i as int));
        assert(view.take(i + 1).last() == (id, vs_role@));
        let is_lane = match plan.lane_enemy {
            Some(enemy) => enemy == id,
            None => false,
        };
        if !is_lane {
            if let Some(stat) = db.matchup(
                champion_id,
                id,
                &plan.role,
                vs_role,
                &plan.rank,
                &plan.patch,
            ) {
                team.push(Pairing { id, weight: vs_role_weight(&plan.role, vs_role), stat });
            }
        }
    }
    assert(view.take(view.len() as int) =~= view);
    team
}

fn pair_allies(db: &StatsDb, champion_id: i64, plan: &Plan) -> (synergies: Vec<Pairing>)
    ensures
        synergies@ == ally_pairings(
            db@,
            champion_id,
            roles_view(plan.allies@),
            plan.role@,
            plan.rank@,
            plan.patch@,
        ),
{
    let ghost view = roles_view(plan.allies@);
    let mut synergies: Vec<Pairing> = Vec::new();
    for i in 0..plan.allies.len()
        invariant
            view == roles_view(plan.allies@),
            synergies@ == ally_pairings(
                db@,
                champion_id,
                view.take(i as int),
                plan.role@,
                plan.rank@,
                plan.patch@,
            ),
    {
        let id = plan.allies[i].0;
        let ally_role = &plan.allies[i].1;
        assert(view.take(i + 1).drop_last() =~= view.take(i as int));
        assert(view.take(i + 1).last() == (id, ally_role@));
        if let Some(stat) = db.synergy(champion_id, id, &plan.rank, &plan.patch) {
            synergies.push(Pairing { id, weight: ally_role_weight(&plan.role, ally_role), stat });
        }
    }
    assert(view.take(view.len() as int) =~= view);
    synergies
}

fn describe(
    db: &StatsDb,
    catalog: &Catalog,
    ctx: &ScoreContext,
    plan: &Plan,
    champion_id: i64,
) -> (candidate: Option<Candidate>)
    requires
        catalog.by_id@.contains_key(champion_id),
    ensures
        match candidate {
            Some(c) => c.champion_id == champion_id && plan.describes(db@, *catalog, *ctx, c),
            None => db@.role_meta(champion_id, plan.role@, plan.rank@, plan.patch@) is None,
        },
{
    let meta = match db.role_meta(champion_id, &plan.role, &plan.rank, &plan.patch) {
        Some(meta) => meta,
        None => {
            return None;
        },
    };
    let info = match catalog.by_id.get(&champion_id) {
        Some(info) => info.clone(),
        None => {
            return None;
        },
    };
    let lane = match plan.lane_enemy {
        Some(enemy) => db.matchup(
            champion_id,
            enemy,
            &plan.role,
            &plan.role,
            &plan.rank,
            &plan.patch,
        ),
        None => None,
    };
    let mastery = if ctx.comfort_weighting {
        match ctx.mastery.get(&champion_id) {
            Some(known) => Some(*known),
            None => None,
        }
    } else {
        None
    };
    Some(
        Candidate {
            champion_id,
            info,
            meta,
            lane,
            team: pair_enemies(db, champion_id, plan),
            synergies: pair_allies(db, champion_id, plan),
            lane_winrates: db.flexibility(champion_id, &plan.role, &plan.rank, &plan.patch),
            mastery,
        },
    )
}

/// Lays out what a recommendation for the draft starts from.
pub fn plan(db: &StatsDb, catalog: &Catalog, draft: &DraftView, ctx: &ScoreContext) -> (plan: Plan)
    ensures
        plan.fits(db@, *draft, *catalog, *ctx),
{
    let role = lcu_role_to_stats(&draft.role);
    let (rank, patch) = db.stats_key(&ctx.rank, &ctx.patch);
    let enemies = side_of(db, &draft.enemies, true, &rank, &patch);
    let allies = side_of(db, &draft.allies, false, &rank, &patch);
    let lane_enemy = find_opponent(draft, &enemies, &role);
    let weights = weights(lane_enemy.is_some(), enemies.len());
    let pool = db.champions_in_role(&role, &rank, &patch);
    let mut ids = distinct_ids(&pool);
    if !ctx.pickable.is_empty() {
        ids = soft_filter(&ids, &ctx.pickable, draft, catalog);
    }
    if ctx.owned_only && !ctx.owned.is_empty() {
        ids = soft_filter(&ids, &ctx.owned, draft, catalog);
    }
    let ghost chosen = choices(pool_ids(pool_view(pool@)), *draft, *catalog, *ctx);
    assert(ids@.to_set() == chosen);
    let mut plan = Plan {
        role,
        rank,
        patch,
        enemies,
        allies,
        lane_enemy,
        weights,
        pool,
        candidates: Vec::new(),
    };
    for i in 0..ids.len()
        invariant
            plan.sets_out(db@, *draft, *ctx),
            ids@.no_duplicates(),
            chosen == choices(pool_ids(pool_view(plan.pool@)), *draft, *catalog, *ctx),
            ids@.to_set() == chosen,
            forall|k: int|
                0 <= k < plan.candidates@.len() ==> plan.describes(
                    db@,
                    *catalog,
                    *ctx,
                    #[trigger] plan.candidates@[k],
                ),
            distinct(plan.candidates@),
            forall|id: i64|
                #[trigger] among(plan.candidates@, id) <==> (exists|k: int|
                    0 <= k < i && #[trigger] ids@[k] == id) && plan.eligible(
                    db@,
                    *draft,
                    *catalog,
                    *ctx,
                    id,
                ),
    {
        let id = ids[i];
        assert(ids@.to_set().contains(id));
        let ghost before = plan;
        if still_lockable(draft, catalog, id) {
            if let Some(candidate) = describe(db, catalog, ctx, &plan, id) {
                assert(!among(before.candidates@, id));
                plan.candidates.push(candidate);
                assert(plan.candidates@[before.candidates@.len() as int].champion_id == id);
            }
        }
        assert forall|other: i64|
            #[trigger] among(plan.candidates@, other) <==> (exists|k: int|
                0 <= k < i + 1 && #[trigger] ids@[k] == other) && plan.eligible(
                db@,
                *draft,
                *catalog,
                *ctx,
                other,
            ) by {
            if among(plan.candidates@, other) {
                let k = choose|k: int|
                    0 <= k < plan.candidates@.len() && (
                    #[trigger] plan.candidates@[k]).champion_id == other;
                if k < before.candidates@.len() {
                    assert(before.candidates@[k].champion_id == other);
                    assert(among(before.candidates@, other));
                } else {
                    assert(ids@[i as int] == other);
                }
            }
            if among(before.candidates@, other) {
                let k = choose|k: int|
                    0 <= k < before.candidates@.len() && (
                    #[trigger] before.candidates@[k]).champion_id == other;
                assert(plan.candidates@[k].champion_id == other);
            }
        }
    }
    assert forall|id: i64|
        plan.eligible(db@, *draft, *catalog, *ctx, id) <==> #[trigger] among(
            plan.candidates@,
            id,
        ) by {
        if plan.eligible(db@, *draft, *catalog, *ctx, id) {
            assert(ids@.to_set().contains(id));
            let k = choose|k: int| 0 <= k < ids@.len() && ids@[k] == id;
            assert(ids@[k] == id);
        }
    }
    plan
}

} // verus!
