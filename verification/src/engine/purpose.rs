//! What the ranking is for, told of the draft, the statistics and the cards alone.
use crate::catalog::Catalog;
use crate::engine::cards::{
    best_ally, highest, leads, lemma_numbers_order, reason_parts, Appraisal,
};
use crate::engine::plan::{
    ally_pairings, among, counted, plays, resolved_role, roles_view, side, team_pairings,
    Candidate, Pairing, Plan,
};
use crate::engine::pool::{
    ally_takes, choices, enemy_takes, lockable, some_lockable, taken, ScoreContext,
};
use crate::engine::weights::{ally_weight, enemy_weight, label_of, weights_for, Weights};
use crate::engine::{recommended, recommended_by};
use crate::lists::lemma_place;
use crate::models::{role_name, DraftView, PlayerSlot, Recommendation};
use crate::number::{law_key_orders, Real};
use crate::stats::cache::Cache;
use crate::text::joined;
use vstd::prelude::*;

verus! {

// ------------------------------------------------------------ the weights

/// The parts of a score, whatever unit they are in.
pub struct Parts {
    pub lane: int,
    pub team: int,
    pub syn: int,
    pub meta: int,
    pub flex: int,
    pub comfort: int,
}

/// What the parts come to, each by its weight.
pub open spec fn weighed(w: Weights, p: Parts) -> int {
    w.lane * p.lane + w.team * p.team + w.syn * p.syn + w.meta * p.meta + w.flex * p.flex
        + w.comfort * p.comfort
}

/// Part by part: the lane counts 45 hundredths once the opponent is known and nothing
/// before; the other enemies 20 beside the lane, 40 without it and 10 while none is
/// known; the allies 25 with any enemy known and 20 before; the win rate 10, 25 and 50;
/// how a champion does in general 0, 5 and 15; and mastery 5 until the lane is known.
pub proof fn law_each_weight(lane_known: bool, enemies: nat)
    ensures
        ({
            let w = weights_for(lane_known, enemies);
            let open = !lane_known && enemies == 0;
            &&& w.lane as int == (if lane_known { 45int } else { 0 })
            &&& w.team as int == (if lane_known { 20int } else if open { 10 } else { 40 })
            &&& w.syn as int == (if open { 20int } else { 25 })
            &&& w.meta as int == (if lane_known { 10int } else if open { 50 } else { 25 })
            &&& w.flex as int == (if lane_known { 0int } else if open { 15 } else { 5 })
            &&& w.comfort as int == (if lane_known { 0int } else { 5 })
        }),
{
}

/// A better synergy, a better edge against the other enemies and a better win rate
/// always lift the score; a better lane edge does once the opponent is known, and
/// mastery and how a champion does in general until then.
pub proof fn law_parts_lift_the_score(lane_known: bool, enemies: nat, p: Parts, more: int)
    requires
        more > 0,
    ensures
        ({
            let w = weights_for(lane_known, enemies);
            &&& weighed(w, Parts { syn: p.syn + more, ..p }) > weighed(w, p)
            &&& weighed(w, Parts { team: p.team + more, ..p }) > weighed(w, p)
            &&& weighed(w, Parts { meta: p.meta + more, ..p }) > weighed(w, p)
            &&& lane_known ==> weighed(w, Parts { lane: p.lane + more, ..p }) > weighed(w, p)
            &&& !lane_known ==> weighed(w, Parts { comfort: p.comfort + more, ..p }) > weighed(w, p)
            &&& !lane_known ==> weighed(w, Parts { flex: p.flex + more, ..p }) > weighed(w, p)
            &&& !lane_known ==> weighed(w, Parts { lane: p.lane + more, ..p }) == weighed(w, p)
        }),
{
    let w = weights_for(lane_known, enemies);
    lemma_times(w.syn as int, p.syn, more);
    lemma_times(w.team as int, p.team, more);
    lemma_times(w.meta as int, p.meta, more);
    lemma_times(w.lane as int, p.lane, more);
    lemma_times(w.comfort as int, p.comfort, more);
    lemma_times(w.flex as int, p.flex, more);
}

proof fn lemma_times(w: int, x: int, more: int)
    requires
        w >= 0,
        more > 0,
    ensures
        w > 0 ==> w * (x + more) > w * x,
        w == 0 ==> w * (x + more) == w * x,
{
    assert(w * (x + more) == w * x + w * more) by (nonlinear_arith);
    assert(w > 0 ==> w * more > 0) by (nonlinear_arith)
        requires
            more > 0,
    ;
    assert(w == 0 ==> w * more == 0) by (nonlinear_arith);
}

/// Against the other enemies the opponent in the own role counts in full, the other
/// half of the bottom lane 45 hundredths, and everyone else, known or not, 20. It is the
/// same from either side.
pub proof fn law_enemy_weights(ours: Seq<char>, theirs: Seq<char>)
    ensures
        ours.len() > 0 ==> enemy_weight(ours, ours) == 100,
        enemy_weight("bottom"@, "support"@) == 45,
        enemy_weight("support"@, "bottom"@) == 45,
        enemy_weight(ours, Seq::empty()) == 20,
        ours != theirs && !(ours == "bottom"@ && theirs == "support"@) && !(ours == "support"@
            && theirs == "bottom"@) ==> enemy_weight(ours, theirs) == 20,
        ours.len() > 0 && theirs.len() > 0 ==> enemy_weight(ours, theirs) == enemy_weight(
            theirs,
            ours,
        ),
{
    reveal_strlit("bottom");
    reveal_strlit("support");
    assert("bottom"@[0] != "support"@[0]);
}

/// Of the allies the other half of the bottom lane counts in full, the jungler 35
/// hundredths, and everyone else, known or not, 25.
pub proof fn law_ally_weights(ours: Seq<char>, theirs: Seq<char>)
    ensures
        ally_weight("bottom"@, "support"@) == 100,
        ally_weight("support"@, "bottom"@) == 100,
        ally_weight(ours, "jungle"@) == 35,
        theirs != "jungle"@ && !(ours == "bottom"@ && theirs == "support"@) && !(ours
            == "support"@ && theirs == "bottom"@) ==> ally_weight(ours, theirs) == 25,
{
    reveal_strlit("bottom");
    reveal_strlit("support");
    reveal_strlit("jungle");
    assert("jungle"@[0] != "support"@[0]);
    assert("jungle"@[0] != "bottom"@[0]);
}

/// On a card the middle is `mid` and the bottom lane `ADC`; any other role goes by its
/// own name.
pub proof fn law_labels(role: Seq<char>)
    ensures
        label_of("middle"@) == "mid"@,
        label_of("bottom"@) == "ADC"@,
        role != "middle"@ && role != "bottom"@ ==> label_of(role) == role,
{
    reveal_strlit("middle");
    reveal_strlit("bottom");
    assert("middle"@[0] != "bottom"@[0]);
}

// ------------------------------------------------------------ who can be locked

/// The champion is free: the catalog has it, nobody has banned it, no enemy has locked
/// it, no ally shows it, and the player has not locked it.
pub open spec fn is_free(draft: DraftView, catalog: Catalog, id: i64) -> bool {
    &&& id > 0
    &&& catalog.by_id@.contains_key(id)
    &&& forall|i: int| 0 <= i < draft.bans@.len() ==> #[trigger] draft.bans@[i] != id
    &&& forall|i: int|
        0 <= i < draft.enemies@.len() ==> (#[trigger] draft.enemies@[i]).champion_id != id
    &&& forall|i: int|
        0 <= i < draft.allies@.len() && !draft.allies@[i].is_local ==> (
        #[trigger] draft.allies@[i]).display_champion_id != id
    &&& forall|i: int|
        0 <= i < draft.allies@.len() && draft.allies@[i].is_local ==> (
        #[trigger] draft.allies@[i]).champion_id != id
}

/// Exactly the free champions can be locked.
pub proof fn law_free_can_be_locked(draft: DraftView, catalog: Catalog, id: i64)
    ensures
        lockable(draft, catalog, id) <==> is_free(draft, catalog, id),
{
    if lockable(draft, catalog, id) {
        assert forall|i: int| 0 <= i < draft.bans@.len() implies #[trigger] draft.bans@[i] != id by {
            if draft.bans@[i] == id {
                assert(draft.bans@.contains(id));
            }
        }
    }
}

/// A champion is taken where an enemy or the player has locked it or another ally shows it,
/// and nowhere else.
pub proof fn law_taken(draft: DraftView, id: i64)
    ensures
        id <= 0 ==> !taken(draft, id),
        id > 0 ==> (taken(draft, id) <==> (exists|i: int|
            0 <= i < draft.enemies@.len() && (#[trigger] draft.enemies@[i]).champion_id == id) || (
        exists|i: int|
            0 <= i < draft.allies@.len() && draft.allies@[i].is_local && (
            #[trigger] draft.allies@[i]).champion_id == id) || (exists|i: int|
            0 <= i < draft.allies@.len() && !draft.allies@[i].is_local && (
            #[trigger] draft.allies@[i]).display_champion_id == id)),
{
    assert forall|i: int| 0 <= i < draft.enemies@.len() && id > 0 implies (enemy_takes(
        #[trigger] draft.enemies@[i],
        id,
    ) <==> draft.enemies@[i].champion_id == id) by {}
    assert forall|i: int| 0 <= i < draft.allies@.len() && id > 0 implies (ally_takes(
        #[trigger] draft.allies@[i],
        id,
    ) <==> (draft.allies@[i].is_local && draft.allies@[i].champion_id == id) || (
    !draft.allies@[i].is_local && draft.allies@[i].display_champion_id == id)) by {}
}

/// Every card is of a free champion that is played in the role.
pub proof fn law_cards_are_free<F: Fn(&Plan, &Candidate) -> Appraisal>(
    recs: Seq<Recommendation>,
    cache: Cache,
    catalog: Catalog,
    draft: DraftView,
    ctx: ScoreContext,
    appraise: F,
    i: int,
)
    requires
        recommended(recs, cache, catalog, draft, ctx, appraise),
        0 <= i < recs.len(),
    ensures
        is_free(draft, catalog, recs[i].champion_id),
        recs.len() <= 5,
{
    let (plan, appraisals, order) = choose|
        plan: Plan,
        appraisals: Seq<Appraisal>,
        order: Seq<int>,
    | #[trigger]
        recommended_by(recs, cache, catalog, draft, ctx, appraise, plan, appraisals, order);
    let id = recs[i].champion_id;
    assert(among(plan.candidates@, plan.candidates@[order[i]].champion_id));
    law_free_can_be_locked(draft, catalog, id);
}

/// What is left of a pool by the filters is of the pool. With no filter it is the whole
/// pool; a filter that no free champion of the pool passes steps aside; and one that a
/// free champion passes keeps exactly those who pass it.
pub proof fn law_filters(pool: Set<i64>, draft: DraftView, catalog: Catalog, ctx: ScoreContext)
    ensures
        ({
            let left = choices(pool, draft, catalog, ctx);
            let pickable = Set::new(|id: i64| pool.contains(id) && ctx.pickable@.contains(id));
            let owned = Set::new(|id: i64| pool.contains(id) && ctx.owned@.contains(id));
            let both = Set::new(|id: i64| pickable.contains(id) && ctx.owned@.contains(id));
            let some_free = |ids: Set<i64>|
                exists|id: i64| #[trigger] ids.contains(id) && is_free(draft, catalog, id);
            &&& left.subset_of(pool)
            &&& !ctx.owned_only && !some_free(pickable) ==> left =~= pool
            &&& !ctx.owned_only && some_free(pickable) ==> left =~= pickable
            &&& ctx.owned_only && some_free(both) ==> left =~= both
            &&& ctx.owned_only && some_free(pickable) && !some_free(both) ==> left =~= pickable
            &&& ctx.owned_only && !some_free(pickable) && some_free(owned) ==> left =~= owned
            &&& ctx.owned_only && !some_free(pickable) && !some_free(owned) ==> left =~= pool
        }),
{
    let pickable = Set::new(|id: i64| pool.contains(id) && ctx.pickable@.contains(id));
    let owned = Set::new(|id: i64| pool.contains(id) && ctx.owned@.contains(id));
    let both = Set::new(|id: i64| pickable.contains(id) && ctx.owned@.contains(id));
    assert(pickable =~= pool.intersect(ctx.pickable@));
    assert(owned =~= pool.intersect(ctx.owned@));
    assert(both =~= pickable.intersect(ctx.owned@));
    lemma_some_free(pickable, draft, catalog);
    lemma_some_free(owned, draft, catalog);
    lemma_some_free(both, draft, catalog);
}

proof fn lemma_some_free(ids: Set<i64>, draft: DraftView, catalog: Catalog)
    ensures
        some_lockable(ids, draft, catalog) <==> exists|id: i64| #[trigger] ids.contains(id)
            && is_free(draft, catalog, id),
{
    if some_lockable(ids, draft, catalog) {
        let id = choose|id: i64| #[trigger] ids.contains(id) && lockable(draft, catalog, id);
        law_free_can_be_locked(draft, catalog, id);
    }
    if exists|id: i64| #[trigger] ids.contains(id) && is_free(draft, catalog, id) {
        let id = choose|id: i64| #[trigger] ids.contains(id) && is_free(draft, catalog, id);
        law_free_can_be_locked(draft, catalog, id);
    }
}

// ------------------------------------------------------------ the two sides

/// A side is told champion by champion, each with its role.
pub proof fn law_side_view(list: Seq<(i64, String)>, i: int)
    ensures
        roles_view(list).len() == list.len(),
        0 <= i < list.len() ==> roles_view(list)[i].0 == list[i].0,
        0 <= i < list.len() ==> roles_view(list)[i].1 == list[i].1@,
{
}

proof fn lemma_side_from(
    cache: Cache,
    slots: Seq<PlayerSlot>,
    enemies: bool,
    rank: Seq<char>,
    patch: Seq<char>,
    k: int,
) -> (i: int)
    requires
        0 <= k < side(cache, slots, enemies, rank, patch).len(),
    ensures
        0 <= i < slots.len(),
        counted(slots[i], enemies) > 0,
        side(cache, slots, enemies, rank, patch)[k] == (
            counted(slots[i], enemies),
            resolved_role(
                cache,
                counted(slots[i], enemies),
                slots[i].assigned_position@,
                rank,
                patch,
            ),
        ),
    decreases slots.len(),
{
    let rest = slots.drop_last();
    if k < side(cache, rest, enemies, rank, patch).len() {
        lemma_side_from(cache, rest, enemies, rank, patch, k)
    } else {
        slots.len() - 1
    }
}

proof fn lemma_side_has(
    cache: Cache,
    slots: Seq<PlayerSlot>,
    enemies: bool,
    rank: Seq<char>,
    patch: Seq<char>,
    i: int,
) -> (k: int)
    requires
        0 <= i < slots.len(),
        counted(slots[i], enemies) > 0,
    ensures
        0 <= k < side(cache, slots, enemies, rank, patch).len(),
        side(cache, slots, enemies, rank, patch)[k] == (
            counted(slots[i], enemies),
            resolved_role(
                cache,
                counted(slots[i], enemies),
                slots[i].assigned_position@,
                rank,
                patch,
            ),
        ),
    decreases slots.len(),
{
    let rest = slots.drop_last();
    if i < rest.len() {
        lemma_side_has(cache, rest, enemies, rank, patch, i)
    } else {
        side(cache, rest, enemies, rank, patch).len() as int
    }
}

proof fn lemma_side_len(
    cache: Cache,
    slots: Seq<PlayerSlot>,
    enemies: bool,
    rank: Seq<char>,
    patch: Seq<char>,
    counts: spec_fn(PlayerSlot) -> bool,
)
    requires
        forall|slot: PlayerSlot| #[trigger] counts(slot) <==> counted(slot, enemies) > 0,
    ensures
        side(cache, slots, enemies, rank, patch).len() == slots.filter(counts).len(),
    decreases slots.len(),
{
    reveal(Seq::filter);
    if slots.len() > 0 {
        lemma_side_len(cache, slots.drop_last(), enemies, rank, patch, counts);
    }
}

/// Each side counts every one of its seats at most once.
pub proof fn law_each_counts_once(cache: Cache, draft: DraftView, ctx: ScoreContext, plan: Plan)
    requires
        plan.sets_out(cache, draft, ctx),
    ensures
        plan.enemies@.len() == draft.enemies@.filter(|slot: PlayerSlot| slot.champion_id > 0).len(),
        plan.allies@.len() == draft.allies@.filter(
            |slot: PlayerSlot| !slot.is_local && slot.display_champion_id > 0,
        ).len(),
{
    lemma_side_len(
        cache,
        draft.enemies@,
        true,
        plan.rank@,
        plan.patch@,
        |slot: PlayerSlot| slot.champion_id > 0,
    );
    lemma_side_len(
        cache,
        draft.allies@,
        false,
        plan.rank@,
        plan.patch@,
        |slot: PlayerSlot| !slot.is_local && slot.display_champion_id > 0,
    );
    assert(roles_view(plan.enemies@).len() == plan.enemies@.len());
    assert(roles_view(plan.allies@).len() == plan.allies@.len());
}

/// The champion plays the role that the client names for the seat or, where it names none,
/// the one that the champion is played in most; none where that is not known either.
pub open spec fn in_own_role(
    cache: Cache,
    rank: Seq<char>,
    patch: Seq<char>,
    slot: PlayerSlot,
    entry: (i64, Seq<char>),
) -> bool {
    let named = role_name(slot.assigned_position@);
    let usual = cache.primary_role(entry.0, rank, patch);
    if named.len() > 0 {
        entry.1 == named
    } else if usual is Some {
        entry.1 == usual->0
    } else {
        entry.1.len() == 0
    }
}

/// Every enemy who has locked a champion counts, in the role that the client names or,
/// where it names none, the one that the champion is played in most.
pub proof fn law_locked_enemies_count(
    cache: Cache,
    draft: DraftView,
    ctx: ScoreContext,
    plan: Plan,
    i: int,
)
    requires
        plan.sets_out(cache, draft, ctx),
        0 <= i < draft.enemies@.len(),
        draft.enemies@[i].champion_id > 0,
    ensures
        exists|k: int|
            0 <= k < roles_view(plan.enemies@).len() && (#[trigger] roles_view(plan.enemies@)[k]).0
                == draft.enemies@[i].champion_id && in_own_role(
                cache,
                plan.rank@,
                plan.patch@,
                draft.enemies@[i],
                roles_view(plan.enemies@)[k],
            ),
{
    let slot = draft.enemies@[i];
    assert(counted(slot, true) == slot.champion_id);
    let k = lemma_side_has(cache, draft.enemies@, true, plan.rank@, plan.patch@, i);
    assert(in_own_role(cache, plan.rank@, plan.patch@, slot, roles_view(plan.enemies@)[k]));
}

/// Nobody else of the enemies counts.
pub proof fn law_only_locked_enemies_count(
    cache: Cache,
    draft: DraftView,
    ctx: ScoreContext,
    plan: Plan,
    k: int,
)
    requires
        plan.sets_out(cache, draft, ctx),
        0 <= k < roles_view(plan.enemies@).len(),
    ensures
        roles_view(plan.enemies@)[k].0 > 0,
        exists|i: int|
            0 <= i < draft.enemies@.len() && (#[trigger] draft.enemies@[i]).champion_id == roles_view(
                plan.enemies@,
            )[k].0 && in_own_role(
                cache,
                plan.rank@,
                plan.patch@,
                draft.enemies@[i],
                roles_view(plan.enemies@)[k],
            ),
{
    let i = lemma_side_from(cache, draft.enemies@, true, plan.rank@, plan.patch@, k);
    let slot = draft.enemies@[i];
    assert(in_own_role(cache, plan.rank@, plan.patch@, slot, roles_view(plan.enemies@)[k]));
}

/// Every ally but the player who has locked a champion or hovers over one counts, likewise.
pub proof fn law_shown_allies_count(
    cache: Cache,
    draft: DraftView,
    ctx: ScoreContext,
    plan: Plan,
    i: int,
)
    requires
        plan.sets_out(cache, draft, ctx),
        0 <= i < draft.allies@.len(),
        !draft.allies@[i].is_local,
        draft.allies@[i].display_champion_id > 0,
    ensures
        exists|k: int|
            0 <= k < roles_view(plan.allies@).len() && (#[trigger] roles_view(plan.allies@)[k]).0
                == draft.allies@[i].display_champion_id && in_own_role(
                cache,
                plan.rank@,
                plan.patch@,
                draft.allies@[i],
                roles_view(plan.allies@)[k],
            ),
{
    let slot = draft.allies@[i];
    assert(counted(slot, false) == slot.display_champion_id);
    let k = lemma_side_has(cache, draft.allies@, false, plan.rank@, plan.patch@, i);
    assert(in_own_role(cache, plan.rank@, plan.patch@, slot, roles_view(plan.allies@)[k]));
}

/// Nobody else of the allies counts, and the player does not.
pub proof fn law_only_shown_allies_count(
    cache: Cache,
    draft: DraftView,
    ctx: ScoreContext,
    plan: Plan,
    k: int,
)
    requires
        plan.sets_out(cache, draft, ctx),
        0 <= k < roles_view(plan.allies@).len(),
    ensures
        roles_view(plan.allies@)[k].0 > 0,
        exists|i: int|
            0 <= i < draft.allies@.len() && (#[trigger] draft.allies@[i]).display_champion_id == roles_view(
                plan.allies@,
            )[k].0 && !draft.allies@[i].is_local && in_own_role(
                cache,
                plan.rank@,
                plan.patch@,
                draft.allies@[i],
                roles_view(plan.allies@)[k],
            ),
{
    let i = lemma_side_from(cache, draft.allies@, false, plan.rank@, plan.patch@, k);
    let slot = draft.allies@[i];
    assert(in_own_role(cache, plan.rank@, plan.patch@, slot, roles_view(plan.allies@)[k]));
}

/// The lane opponent is the one that the draft names. Where it names none, it is the
/// first of the enemies who play the player's role, and there is none exactly where
/// nobody does.
pub proof fn law_lane_opponent(cache: Cache, draft: DraftView, ctx: ScoreContext, plan: Plan)
    requires
        plan.sets_out(cache, draft, ctx),
    ensures
        draft.lane_enemy_id is Some ==> plan.lane_enemy == draft.lane_enemy_id,
        draft.lane_enemy_id is None ==> match plan.lane_enemy {
            Some(id) => exists|k: int|
                0 <= k < plan.enemies@.len() && (#[trigger] plan.enemies@[k]).0 == id
                    && plan.enemies@[k].1@ == role_name(draft.role@) && forall|j: int|
                    0 <= j < k ==> (#[trigger] plan.enemies@[j]).1@ != role_name(draft.role@),
            None => forall|k: int|
                0 <= k < plan.enemies@.len() ==> (#[trigger] plan.enemies@[k]).1@ != role_name(
                    draft.role@,
                ),
        },
{
    let list = roles_view(plan.enemies@);
    let wanted = plays(plan.role@);
    lemma_place(list, wanted);
    if draft.lane_enemy_id is None {
        assert forall|j: int| 0 <= j < plan.enemies@.len() implies (wanted(list[j]) <==> (
        #[trigger] plan.enemies@[j]).1@ == role_name(draft.role@)) by {}
        let at = crate::lists::place(list, wanted);
        if at < list.len() {
            assert(plan.enemies@[at].0 == list[at].0);
            assert forall|j: int| 0 <= j < at implies (#[trigger] plan.enemies@[j]).1@ != role_name(
                draft.role@,
            ) by {
                assert(!wanted(list[j]));
            }
        } else {
            assert forall|k: int| 0 <= k < plan.enemies@.len() implies (
            #[trigger] plan.enemies@[k]).1@ != role_name(draft.role@) by {
                assert(!wanted(list[k]));
            }
        }
    }
}

/// The statistics are those of the rank and patch that are asked for, as long as there
/// are any, and the weights go by what is known of the enemies.
pub proof fn law_plan_goes_by(cache: Cache, draft: DraftView, ctx: ScoreContext, plan: Plan)
    requires
        plan.sets_out(cache, draft, ctx),
    ensures
        cache.role_rows(ctx.rank@, ctx.patch@) > 0 ==> plan.rank@ == ctx.rank@ && plan.patch@
            == ctx.patch@,
        plan.weights.lane > 0 <==> plan.lane_enemy is Some,
        plan.weights.meta == 50 <==> plan.lane_enemy is None && plan.enemies@.len() == 0,
{
}

// ------------------------------------------------------------ what a candidate is weighed by

proof fn lemma_team_pairings(
    cache: Cache,
    id: i64,
    enemies: Seq<(i64, Seq<char>)>,
    lane_enemy: Option<i64>,
    role: Seq<char>,
    rank: Seq<char>,
    patch: Seq<char>,
)
    ensures
        ({
            let list = team_pairings(cache, id, enemies, lane_enemy, role, rank, patch);
            &&& forall|k: int|
                0 <= k < list.len() ==> exists|i: int|
                    0 <= i < enemies.len() && is_pairing_with(
                        cache,
                        id,
                        #[trigger] enemies[i],
                        role,
                        rank,
                        patch,
                        #[trigger] list[k],
                    ) && lane_enemy != Some(list[k].id)
            &&& forall|i: int|
                0 <= i < enemies.len() && lane_enemy != Some(enemies[i].0) && cache.matchup(
                    id,
                    enemies[i].0,
                    role,
                    enemies[i].1,
                    rank,
                    patch,
                ) is Some ==> exists|k: int|
                    0 <= k < list.len() && is_pairing_with(
                        cache,
                        id,
                        #[trigger] enemies[i],
                        role,
                        rank,
                        patch,
                        #[trigger] list[k],
                    )
        }),
    decreases enemies.len(),
{
    if enemies.len() > 0 {
        let rest = enemies.drop_last();
        lemma_team_pairings(cache, id, rest, lane_enemy, role, rank, patch);
        let before = team_pairings(cache, id, rest, lane_enemy, role, rank, patch);
        let list = team_pairings(cache, id, enemies, lane_enemy, role, rank, patch);
        assert forall|k: int| 0 <= k < list.len() implies exists|i: int|
            0 <= i < enemies.len() && is_pairing_with(
                cache,
                id,
                #[trigger] enemies[i],
                role,
                rank,
                patch,
                #[trigger] list[k],
            ) && lane_enemy != Some(list[k].id) by {
            if k < before.len() {
                assert(list[k] == before[k]);
                let i = choose|i: int|
                    0 <= i < rest.len() && is_pairing_with(
                        cache,
                        id,
                        #[trigger] rest[i],
                        role,
                        rank,
                        patch,
                        before[k],
                    ) && lane_enemy != Some(before[k].id);
                assert(enemies[i] == rest[i]);
            } else {
                assert(is_pairing_with(
                    cache,
                    id,
                    enemies[enemies.len() - 1],
                    role,
                    rank,
                    patch,
                    list[k],
                ));
            }
        }
        assert forall|i: int|
            0 <= i < enemies.len() && lane_enemy != Some(enemies[i].0) && cache.matchup(
                id,
                enemies[i].0,
                role,
                enemies[i].1,
                rank,
                patch,
            ) is Some implies exists|k: int|
            0 <= k < list.len() && is_pairing_with(
                cache,
                id,
                #[trigger] enemies[i],
                role,
                rank,
                patch,
                #[trigger] list[k],
            ) by {
            if i < rest.len() {
                assert(rest[i] == enemies[i]);
                let k = choose|k: int|
                    0 <= k < before.len() && is_pairing_with(
                        cache,
                        id,
                        rest[i],
                        role,
                        rank,
                        patch,
                        #[trigger] before[k],
                    );
                assert(list[k] == before[k]);
            } else {
                assert(is_pairing_with(
                    cache,
                    id,
                    enemies[i],
                    role,
                    rank,
                    patch,
                    list[before.len() as int],
                ));
            }
        }
    }
}

/// The pairing is the matchup of a champion in a role against one enemy in theirs.
pub open spec fn is_pairing_with(
    cache: Cache,
    id: i64,
    enemy: (i64, Seq<char>),
    role: Seq<char>,
    rank: Seq<char>,
    patch: Seq<char>,
    pairing: Pairing,
) -> bool {
    &&& pairing.id == enemy.0
    &&& cache.matchup(id, enemy.0, role, enemy.1, rank, patch) == Some(pairing.stat)
    &&& pairing.weight == enemy_weight(role, enemy.1)
}

/// The pairing is the synergy of a champion with one ally.
pub open spec fn is_pairing_beside(
    cache: Cache,
    id: i64,
    ally: (i64, Seq<char>),
    role: Seq<char>,
    rank: Seq<char>,
    patch: Seq<char>,
    pairing: Pairing,
) -> bool {
    &&& pairing.id == ally.0
    &&& cache.synergy(id, ally.0, rank, patch) == Some(pairing.stat)
    &&& pairing.weight == ally_weight(role, ally.1)
}

/// A candidate is weighed against the lane opponent by its matchup in the role, and
/// against every other enemy that there is a matchup for, each once by the matchup in
/// that enemy's role: the lane opponent does not count a second time.
pub proof fn law_weighed_against(
    cache: Cache,
    catalog: Catalog,
    ctx: ScoreContext,
    plan: Plan,
    c: Candidate,
)
    requires
        plan.describes(cache, catalog, ctx, c),
    ensures
        plan.lane_enemy is None ==> c.lane is None,
        plan.lane_enemy matches Some(enemy) ==> c.lane == cache.matchup(
            c.champion_id,
            enemy,
            plan.role@,
            plan.role@,
            plan.rank@,
            plan.patch@,
        ),
        forall|k: int|
            0 <= k < c.team@.len() ==> plan.lane_enemy != Some((#[trigger] c.team@[k]).id)
                && exists|i: int|
                0 <= i < plan.enemies@.len() && is_pairing_with(
                    cache,
                    c.champion_id,
                    #[trigger] roles_view(plan.enemies@)[i],
                    plan.role@,
                    plan.rank@,
                    plan.patch@,
                    c.team@[k],
                ),
        forall|i: int|
            0 <= i < plan.enemies@.len() && plan.lane_enemy != Some(plan.enemies@[i].0)
                && cache.matchup(
                c.champion_id,
                plan.enemies@[i].0,
                plan.role@,
                plan.enemies@[i].1@,
                plan.rank@,
                plan.patch@,
            ) is Some ==> exists|k: int|
                0 <= k < c.team@.len() && (#[trigger] c.team@[k]).id == (
                #[trigger] plan.enemies@[i]).0 && is_pairing_with(
                    cache,
                    c.champion_id,
                    roles_view(plan.enemies@)[i],
                    plan.role@,
                    plan.rank@,
                    plan.patch@,
                    c.team@[k],
                ),
{
    let enemies = roles_view(plan.enemies@);
    lemma_team_pairings(
        cache,
        c.champion_id,
        enemies,
        plan.lane_enemy,
        plan.role@,
        plan.rank@,
        plan.patch@,
    );
    assert forall|k: int| 0 <= k < c.team@.len() implies plan.lane_enemy != Some(
        (#[trigger] c.team@[k]).id,
    ) && exists|i: int|
        0 <= i < plan.enemies@.len() && is_pairing_with(
            cache,
            c.champion_id,
            #[trigger] roles_view(plan.enemies@)[i],
            plan.role@,
            plan.rank@,
            plan.patch@,
            c.team@[k],
        ) by {}
    assert forall|i: int|
        0 <= i < plan.enemies@.len() && plan.lane_enemy != Some(plan.enemies@[i].0)
            && cache.matchup(
            c.champion_id,
            plan.enemies@[i].0,
            plan.role@,
            plan.enemies@[i].1@,
            plan.rank@,
            plan.patch@,
        ) is Some implies exists|k: int|
        0 <= k < c.team@.len() && (#[trigger] c.team@[k]).id == (#[trigger] plan.enemies@[i]).0
            && is_pairing_with(
            cache,
            c.champion_id,
            roles_view(plan.enemies@)[i],
            plan.role@,
            plan.rank@,
            plan.patch@,
            c.team@[k],
        ) by {
        assert(enemies[i] == (plan.enemies@[i].0, plan.enemies@[i].1@));
        let k = choose|k: int|
            0 <= k < c.team@.len() && is_pairing_with(
                cache,
                c.champion_id,
                enemies[i],
                plan.role@,
                plan.rank@,
                plan.patch@,
                #[trigger] c.team@[k],
            );
        assert(c.team@[k].id == plan.enemies@[i].0);
    }
}

proof fn lemma_ally_pairings(
    cache: Cache,
    id: i64,
    allies: Seq<(i64, Seq<char>)>,
    role: Seq<char>,
    rank: Seq<char>,
    patch: Seq<char>,
)
    ensures
        ({
            let list = ally_pairings(cache, id, allies, role, rank, patch);
            &&& forall|k: int|
                0 <= k < list.len() ==> exists|i: int|
                    0 <= i < allies.len() && is_pairing_beside(
                        cache,
                        id,
                        #[trigger] allies[i],
                        role,
                        rank,
                        patch,
                        #[trigger] list[k],
                    )
            &&& forall|i: int|
                0 <= i < allies.len() && cache.synergy(id, allies[i].0, rank, patch) is Some
                    ==> exists|k: int|
                    0 <= k < list.len() && is_pairing_beside(
                        cache,
                        id,
                        #[trigger] allies[i],
                        role,
                        rank,
                        patch,
                        #[trigger] list[k],
                    )
        }),
    decreases allies.len(),
{
    if allies.len() > 0 {
        let rest = allies.drop_last();
        lemma_ally_pairings(cache, id, rest, role, rank, patch);
        let before = ally_pairings(cache, id, rest, role, rank, patch);
        let list = ally_pairings(cache, id, allies, role, rank, patch);
        assert forall|k: int| 0 <= k < list.len() implies exists|i: int|
            0 <= i < allies.len() && is_pairing_beside(
                cache,
                id,
                #[trigger] allies[i],
                role,
                rank,
                patch,
                #[trigger] list[k],
            ) by {
            if k < before.len() {
                assert(list[k] == before[k]);
                let i = choose|i: int|
                    0 <= i < rest.len() && is_pairing_beside(
                        cache,
                        id,
                        #[trigger] rest[i],
                        role,
                        rank,
                        patch,
                        before[k],
                    );
                assert(allies[i] == rest[i]);
            } else {
                assert(is_pairing_beside(
                    cache,
                    id,
                    allies[allies.len() - 1],
                    role,
                    rank,
                    patch,
                    list[k],
                ));
            }
        }
        assert forall|i: int|
            0 <= i < allies.len() && cache.synergy(id, allies[i].0, rank, patch) is Some
            implies exists|k: int|
            0 <= k < list.len() && is_pairing_beside(
                cache,
                id,
                #[trigger] allies[i],
                role,
                rank,
                patch,
                #[trigger] list[k],
            ) by {
            if i < rest.len() {
                assert(rest[i] == allies[i]);
                let k = choose|k: int|
                    0 <= k < before.len() && is_pairing_beside(
                        cache,
                        id,
                        rest[i],
                        role,
                        rank,
                        patch,
                        #[trigger] before[k],
                    );
                assert(list[k] == before[k]);
            } else {
                assert(is_pairing_beside(
                    cache,
                    id,
                    allies[i],
                    role,
                    rank,
                    patch,
                    list[before.len() as int],
                ));
            }
        }
    }
}

/// A candidate is weighed beside every ally that there is a synergy for, and no one
/// else; and what is known of it by itself are its win rate in the role, how it does
/// in the lane and, where that is wanted, the player's mastery.
pub proof fn law_weighed_beside(
    cache: Cache,
    catalog: Catalog,
    ctx: ScoreContext,
    plan: Plan,
    c: Candidate,
)
    requires
        plan.describes(cache, catalog, ctx, c),
    ensures
        forall|k: int|
            0 <= k < c.synergies@.len() ==> exists|i: int|
                0 <= i < plan.allies@.len() && is_pairing_beside(
                    cache,
                    c.champion_id,
                    #[trigger] roles_view(plan.allies@)[i],
                    plan.role@,
                    plan.rank@,
                    plan.patch@,
                    #[trigger] c.synergies@[k],
                ),
        forall|i: int|
            0 <= i < plan.allies@.len() && cache.synergy(
                c.champion_id,
                plan.allies@[i].0,
                plan.rank@,
                plan.patch@,
            ) is Some ==> exists|k: int|
                0 <= k < c.synergies@.len() && (#[trigger] c.synergies@[k]).id == (
                #[trigger] plan.allies@[i]).0,
        Some(c.meta@) == cache.role_meta(c.champion_id, plan.role@, plan.rank@, plan.patch@),
        c.lane_winrates@ == cache.lane_winrates(
            c.champion_id,
            plan.role@,
            plan.rank@,
            plan.patch@,
        ),
        c.mastery is Some ==> ctx.comfort_weighting && ctx.mastery@.contains_key(c.champion_id)
            && ctx.mastery@[c.champion_id] == c.mastery->0,
        ctx.comfort_weighting && ctx.mastery@.contains_key(c.champion_id) ==> c.mastery is Some,
{
    let allies = roles_view(plan.allies@);
    lemma_ally_pairings(cache, c.champion_id, allies, plan.role@, plan.rank@, plan.patch@);
    assert forall|i: int|
        0 <= i < plan.allies@.len() && cache.synergy(
            c.champion_id,
            plan.allies@[i].0,
            plan.rank@,
            plan.patch@,
        ) is Some implies exists|k: int|
        0 <= k < c.synergies@.len() && (#[trigger] c.synergies@[k]).id == (
        #[trigger] plan.allies@[i]).0 by {
        assert(allies[i] == (plan.allies@[i].0, plan.allies@[i].1@));
        let k = choose|k: int|
            0 <= k < c.synergies@.len() && is_pairing_beside(
                cache,
                c.champion_id,
                allies[i],
                plan.role@,
                plan.rank@,
                plan.patch@,
                #[trigger] c.synergies@[k],
            );
        assert(c.synergies@[k].id == plan.allies@[i].0);
    }
}

// ------------------------------------------------------------ what a card says

/// The place holds the highest of the edges, and is the first that does.
pub open spec fn is_first_highest(deltas: Seq<Real>, at: int) -> bool {
    &&& 0 <= at < deltas.len()
    &&& forall|i: int| 0 <= i < deltas.len() ==> deltas[at].scaled() >= (#[trigger] deltas[i]).scaled()
    &&& forall|i: int| 0 <= i < at ==> deltas[at].scaled() > (#[trigger] deltas[i]).scaled()
}

/// As long as the edges are numbers, the ally that is named is the one with the highest
/// edge, and of several such the first. There is one wherever there is an ally.
pub proof fn law_best_ally(synergies: Seq<Pairing>, deltas: Seq<Real>)
    requires
        synergies.len() == deltas.len(),
        forall|i: int| 0 <= i < deltas.len() ==> !(#[trigger] deltas[i]).is_nan(),
    ensures
        deltas.len() == 0 ==> best_ally(synergies, deltas) is None,
        deltas.len() > 0 ==> exists|at: int| #[trigger]
            is_first_highest(deltas, at) && best_ally(synergies, deltas) == Some(synergies[at].id),
{
    lemma_highest(deltas);
    if deltas.len() > 0 {
        let at = highest(deltas)->0;
        assert(is_first_highest(deltas, at));
    }
}

proof fn lemma_highest(deltas: Seq<Real>)
    requires
        forall|i: int| 0 <= i < deltas.len() ==> !(#[trigger] deltas[i]).is_nan(),
    ensures
        match highest(deltas) {
            Some(at) => is_first_highest(deltas, at),
            None => deltas.len() == 0,
        },
    decreases deltas.len(),
{
    if deltas.len() > 0 {
        let rest = deltas.drop_last();
        assert forall|i: int| 0 <= i < rest.len() implies !(#[trigger] rest[i]).is_nan() by {
            assert(rest[i] == deltas[i]);
        }
        lemma_highest(rest);
        let at = highest(deltas)->0;
        let last = deltas.len() - 1;
        assert(!deltas[last].is_nan());
        assert forall|i: int| 0 <= i < deltas.len() implies deltas[at].scaled() >= (
        #[trigger] deltas[i]).scaled() by {
            if i < last {
                assert(rest[i] == deltas[i]);
            }
        }
        assert forall|i: int| 0 <= i < at implies deltas[at].scaled() > (
        #[trigger] deltas[i]).scaled() by {
            if i < last {
                assert(rest[i] == deltas[i]);
            }
        }
    }
}

/// The edges of an appraisal are numbers, one for each ally of the candidate.
pub open spec fn appraised(c: Candidate, a: Appraisal) -> bool {
    &&& a.ally_deltas@.len() == c.synergies@.len()
    &&& forall|i: int| 0 <= i < a.ally_deltas@.len() ==> !(#[trigger] a.ally_deltas@[i]).is_nan()
    &&& !a.synergy_delta.is_nan()
    &&& !a.skew.is_nan()
}

/// What a card says comes in this order: the edge against the lane opponent by name,
/// where there is a matchup and the opponent is known by name; the edge against the
/// others, where there is one and more than one enemy has locked; the ally with the
/// highest edge, where the synergy comes to 0.4 or more; where none of these is said the
/// win rate in the role; and that it is a niche pick, where the skew is a half or more.
pub proof fn law_reason(catalog: Catalog, plan: Plan, c: Candidate, a: Appraisal, at: int)
    requires
        appraised(c, a),
        c.synergies@.len() > 0 ==> is_first_highest(a.ally_deltas@, at),
    ensures
        ({
            let parts = reason_parts(catalog, plan, c, a);
            let lane = c.lane is Some && plan.lane_enemy is Some && catalog.by_id@.contains_key(
                plan.lane_enemy->0,
            );
            let team = c.team@.len() > 0 && plan.enemies@.len() >= 2;
            let ally = c.synergies@.len() > 0 && a.synergy_delta.scaled() >= (Real {
                bits: 0x3fd9_9999_9999_999a,
            }).scaled() && catalog.by_id@.contains_key(c.synergies@[at].id);
            let niche = a.skew.scaled() >= (Real { bits: 0x3fe0_0000_0000_0000 }).scaled();
            let at_team = if lane { 1int } else { 0 };
            let at_ally = at_team + if team { 1int } else { 0 };
            let told = at_ally + if ally { 1int } else { 0 };
            let said = if told == 0 { 1int } else { told };
            &&& parts.len() == said + if niche { 1int } else { 0 }
            &&& lane ==> parts[0] == a.lane_text@ + "% vs "@
                + catalog.by_id@[plan.lane_enemy->0].name@
            &&& team ==> parts[at_team] == a.team_text@ + "% vs locked enemies"@
            &&& ally ==> parts[at_ally] == "synergizes with "@
                + catalog.by_id@[c.synergies@[at].id].name@
            &&& told == 0 && plan.enemies@.len() == 0 ==> parts[0] == "safe "@ + a.meta_text@
                + "% WR pick while the draft is still open"@
            &&& told == 0 && plan.enemies@.len() > 0 ==> parts[0] == a.meta_text@
                + "% role win rate this patch"@
            &&& niche && plan.role@ == "middle"@ ==> parts.last() == "niche "@ + "mid"@
                + " pick, mostly one-tricks"@
            &&& niche && plan.role@ == "bottom"@ ==> parts.last() == "niche "@ + "ADC"@
                + " pick, mostly one-tricks"@
            &&& niche && plan.role@ != "middle"@ && plan.role@ != "bottom"@ ==> parts.last()
                == "niche "@ + plan.role@ + " pick, mostly one-tricks"@
        }),
{
    law_labels(plan.role@);
    lemma_highest(a.ally_deltas@);
    if c.synergies@.len() > 0 {
        let best = highest(a.ally_deltas@)->0;
        assert(a.ally_deltas@[at].scaled() >= a.ally_deltas@[best].scaled());
        assert(a.ally_deltas@[best].scaled() >= a.ally_deltas@[at].scaled());
        assert(best == at);
    }
    assert(!(Real { bits: 0x3fd9_9999_9999_999a }).is_nan());
    assert(!(Real { bits: 0x3fe0_0000_0000_0000 }).is_nan());
}

/// A card names its champion as the catalog has it, gives the win rate, the games and
/// the pick rate in the role, the last only where it is above zero, and an edge of each
/// kind exactly where there is a statistic behind it.
pub proof fn law_card_tells<F: Fn(&Plan, &Candidate) -> Appraisal>(
    recs: Seq<Recommendation>,
    cache: Cache,
    catalog: Catalog,
    draft: DraftView,
    ctx: ScoreContext,
    appraise: F,
    plan: Plan,
    appraisals: Seq<Appraisal>,
    order: Seq<int>,
    i: int,
)
    requires
        recommended_by(recs, cache, catalog, draft, ctx, appraise, plan, appraisals, order),
        0 <= i < recs.len(),
    ensures
        ({
            let rec = recs[i];
            let meta = cache.role_meta(
                rec.champion_id,
                role_name(draft.role@),
                plan.rank@,
                plan.patch@,
            );
            let a = appraisals[order[i]];
            &&& catalog.by_id@.contains_key(rec.champion_id)
            &&& rec.name@ == catalog.by_id@[rec.champion_id].name@
            &&& rec.slug@ == catalog.by_id@[rec.champion_id].slug@
            &&& rec.icon_url@ == catalog.by_id@[rec.champion_id].icon_url@
            &&& meta is Some
            &&& rec.meta_wr == Some(meta->0.winrate)
            &&& rec.meta_games == Some(meta->0.games)
            &&& !meta->0.pickrate.is_nan() && meta->0.pickrate.scaled() > 0 ==> rec.meta_pickrate
                == Some(meta->0.pickrate)
            &&& meta->0.pickrate.is_nan() || meta->0.pickrate.scaled() <= 0 ==> rec.meta_pickrate
                is None
            &&& plan.candidates@[order[i]].champion_id == rec.champion_id
            &&& rec.score == a.score
            &&& rec.reason@ == joined(
                reason_parts(catalog, plan, plan.candidates@[order[i]], a),
                " \u{b7} "@,
            )
            &&& rec.lane_delta is Some ==> rec.lane_delta == Some(a.lane_delta)
            &&& rec.team_delta is Some ==> rec.team_delta == Some(a.team_delta)
            &&& rec.synergy_delta is Some ==> rec.synergy_delta == Some(a.synergy_delta)
            &&& rec.lane_delta is Some <==> plan.lane_enemy is Some && cache.matchup(
                rec.champion_id,
                plan.lane_enemy->0,
                role_name(draft.role@),
                role_name(draft.role@),
                plan.rank@,
                plan.patch@,
            ) is Some
            &&& rec.team_delta is Some <==> exists|k: int|
                0 <= k < plan.enemies@.len() && plan.lane_enemy != Some(
                    (#[trigger] plan.enemies@[k]).0,
                ) && cache.matchup(
                    rec.champion_id,
                    plan.enemies@[k].0,
                    role_name(draft.role@),
                    plan.enemies@[k].1@,
                    plan.rank@,
                    plan.patch@,
                ) is Some
            &&& rec.synergy_delta is Some <==> exists|k: int|
                0 <= k < plan.allies@.len() && cache.synergy(
                    rec.champion_id,
                    (#[trigger] plan.allies@[k]).0,
                    plan.rank@,
                    plan.patch@,
                ) is Some
        }),
{
    let rec = recs[i];
    let c = plan.candidates@[order[i]];
    assert(plan.describes(cache, catalog, ctx, c));
    assert(among(plan.candidates@, c.champion_id));
    assert(plan.eligible(cache, draft, catalog, ctx, c.champion_id));
    law_free_can_be_locked(draft, catalog, c.champion_id);
    law_weighed_against(cache, catalog, ctx, plan, c);
    law_weighed_beside(cache, catalog, ctx, plan, c);
    assert((Real { bits: 0 }).scaled() == 0);
    if rec.team_delta is Some {
        assert(plan.lane_enemy != Some(c.team@[0].id));
        let k = choose|k: int|
            0 <= k < plan.enemies@.len() && is_pairing_with(
                cache,
                c.champion_id,
                #[trigger] roles_view(plan.enemies@)[k],
                plan.role@,
                plan.rank@,
                plan.patch@,
                c.team@[0],
            );
        assert(roles_view(plan.enemies@)[k] == (plan.enemies@[k].0, plan.enemies@[k].1@));
    }
    if rec.synergy_delta is Some {
        let pairing = c.synergies@[0];
        let k = choose|k: int|
            0 <= k < plan.allies@.len() && is_pairing_beside(
                cache,
                c.champion_id,
                #[trigger] roles_view(plan.allies@)[k],
                plan.role@,
                plan.rank@,
                plan.patch@,
                pairing,
            );
        assert(roles_view(plan.allies@)[k] == (plan.allies@[k].0, plan.allies@[k].1@));
    }
}

/// As long as the scores are numbers, the cards are the five best of all candidates: no
/// candidate without a card has a higher score than one with, nor more games at the same
/// score; and the cards come from the highest score to the lowest.
pub proof fn law_five_best<F: Fn(&Plan, &Candidate) -> Appraisal>(
    recs: Seq<Recommendation>,
    cache: Cache,
    catalog: Catalog,
    draft: DraftView,
    ctx: ScoreContext,
    appraise: F,
    plan: Plan,
    appraisals: Seq<Appraisal>,
    order: Seq<int>,
)
    requires
        recommended_by(recs, cache, catalog, draft, ctx, appraise, plan, appraisals, order),
        forall|k: int| 0 <= k < appraisals.len() ==> !(#[trigger] appraisals[k]).score.is_nan(),
    ensures
        plan.candidates@.len() >= 5 ==> recs.len() == 5,
        plan.candidates@.len() < 5 ==> recs.len() == plan.candidates@.len(),
        forall|i: int, j: int|
            0 <= i < j < recs.len() ==> (#[trigger] recs[i]).score.scaled() >= (
            #[trigger] recs[j]).score.scaled(),
        forall|i: int, j: int|
            0 <= i < j < recs.len() && (#[trigger] recs[i]).score.scaled() == (
            #[trigger] recs[j]).score.scaled() ==> recs[i].meta_games->0 > recs[j].meta_games->0 || (
            recs[i].meta_games->0 == recs[j].meta_games->0 && recs[i].champion_id
                < recs[j].champion_id),
        forall|i: int, k: int|
            0 <= i < recs.len() && 0 <= k < plan.candidates@.len() && !order.contains(k) ==> (
            #[trigger] recs[i]).score.scaled() >= (#[trigger] appraisals[k]).score.scaled() && (
            recs[i].score.scaled() == appraisals[k].score.scaled() ==> recs[i].meta_games->0
                >= plan.candidates@[k].meta.games),
{
    let cs = plan.candidates@;
    lemma_numbers_order(cs, appraisals);
    assert forall|i: int, k: int|
        0 <= i < recs.len() && 0 <= k < cs.len() && !order.take(i).contains(k) implies (
    #[trigger] recs[i]).score.scaled() >= (#[trigger] appraisals[k]).score.scaled() && (
    recs[i].score.scaled() == appraisals[k].score.scaled() ==> recs[i].meta_games->0
        >= cs[k].meta.games && (recs[i].meta_games->0 == cs[k].meta.games ==> recs[i].champion_id
        <= cs[k].champion_id)) by {
        let p = order[i];
        assert(!appraisals[p].score.is_nan());
        assert(!leads(cs[k], appraisals[k], cs[order[i]], appraisals[order[i]]));
        law_key_orders(appraisals[p].score, appraisals[k].score);
        law_key_orders(appraisals[k].score, appraisals[p].score);
    }
    assert forall|i: int, j: int| 0 <= i < j < recs.len() implies !#[trigger] order.take(
        i,
    ).contains(#[trigger] order[j]) by {
        if order.take(i).contains(order[j]) {
            let k = choose|k: int| 0 <= k < order.take(i).len() && order.take(i)[k] == order[j];
            assert(order[k] == order[j]);
        }
    }
    assert forall|i: int, j: int| 0 <= i < j < recs.len() implies (
    #[trigger] recs[i]).score.scaled() >= (#[trigger] recs[j]).score.scaled() && (
    recs[i].score.scaled() == recs[j].score.scaled() ==> recs[i].meta_games->0
        > recs[j].meta_games->0 || (recs[i].meta_games->0 == recs[j].meta_games->0
        && recs[i].champion_id < recs[j].champion_id)) by {
        let (p, q) = (order[i], order[j]);
        assert(p != q);
        assert(!order.take(i).contains(q));
        assert(recs[j].score == appraisals[q].score);
        if p < q {
            assert(cs[p].champion_id != cs[q].champion_id);
        } else {
            assert(cs[q].champion_id != cs[p].champion_id);
        }
    }
    assert forall|i: int, k: int|
        0 <= i < recs.len() && 0 <= k < cs.len() && !order.contains(k) implies !#[trigger] order.take(
        i,
    ).contains(k) by {
        if order.take(i).contains(k) {
            let j = choose|j: int| 0 <= j < order.take(i).len() && order.take(i)[j] == k;
            assert(order[j] == k);
        }
    }
    assert forall|i: int, k: int|
        0 <= i < recs.len() && 0 <= k < cs.len() && !order.contains(k) implies (
    #[trigger] recs[i]).score.scaled() >= (#[trigger] appraisals[k]).score.scaled() && (
    recs[i].score.scaled() == appraisals[k].score.scaled() ==> recs[i].meta_games->0
        >= cs[k].meta.games) by {
        assert(!order.take(i).contains(k));
    }
}

} // verus!
