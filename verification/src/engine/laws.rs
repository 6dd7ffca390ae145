//! What can be relied on of the cards.
use crate::catalog::Catalog;
use crate::engine::cards::{
    in_order, is_order, is_ranking, leads, lemma_numbers_order, reason_parts, Appraisal,
};
use crate::engine::plan::{among, distinct, roles_view, Candidate, Pairing, Plan};
use crate::engine::pool::{choices, lockable, pool_ids, some_lockable, ScoreContext};
use crate::engine::weights::Weights;
use crate::engine::{recommended, recommended_by};
use crate::models::{role_name, ChampionInfo, DraftView, Recommendation};
use crate::number::Real;
use crate::stats::cache::{law_one_stand_in, law_pool_has_meta, Cache};
use crate::stats::rows::{pool_view, MatchupStat, RoleMetaView};
use vstd::prelude::*;

verus! {

/// Those who are played in the player's role, by the statistics of a rank and
/// patch.
pub open spec fn role_pool(cache: Cache, draft: DraftView, key: (Seq<char>, Seq<char>)) -> Set<
    i64,
> {
    pool_ids(cache.champions_in_role(role_name(draft.role@), key.0, key.1))
}

/// The plan, the appraisals and the order behind the cards.
proof fn lemma_behind<F: Fn(&Plan, &Candidate) -> Appraisal>(
    recs: Seq<Recommendation>,
    cache: Cache,
    catalog: Catalog,
    draft: DraftView,
    ctx: ScoreContext,
    appraise: F,
    key: (Seq<char>, Seq<char>),
) -> (found: (Plan, Seq<Appraisal>, Seq<int>))
    requires
        recommended(recs, cache, catalog, draft, ctx, appraise),
        cache.stands_in(ctx.rank@, ctx.patch@, key),
    ensures
        recommended_by(
            recs,
            cache,
            catalog,
            draft,
            ctx,
            appraise,
            found.0,
            found.1,
            found.2,
        ),
        pool_ids(pool_view(found.0.pool@)) == role_pool(cache, draft, key),
{
    let (plan, appraisals, order) = choose|
        plan: Plan,
        appraisals: Seq<Appraisal>,
        order: Seq<int>,
    | #[trigger]
        recommended_by(recs, cache, catalog, draft, ctx, appraise, plan, appraisals, order);
    law_one_stand_in(cache, ctx.rank@, ctx.patch@, (plan.rank@, plan.patch@), key);
    (plan, appraisals, order)
}

/// Whatever is recommended can still be locked and is played in the role, no
/// champion is recommended twice, and there are at most five cards.
pub proof fn law_cards_can_be_locked<F: Fn(&Plan, &Candidate) -> Appraisal>(
    recs: Seq<Recommendation>,
    cache: Cache,
    catalog: Catalog,
    draft: DraftView,
    ctx: ScoreContext,
    appraise: F,
    key: (Seq<char>, Seq<char>),
)
    requires
        recommended(recs, cache, catalog, draft, ctx, appraise),
        cache.stands_in(ctx.rank@, ctx.patch@, key),
    ensures
        recs.len() <= 5,
        forall|i: int|
            0 <= i < recs.len() ==> lockable(draft, catalog, (#[trigger] recs[i]).champion_id)
                && role_pool(cache, draft, key).contains(recs[i].champion_id),
        forall|i: int, j: int|
            0 <= i < j < recs.len() ==> (#[trigger] recs[i]).champion_id != (
            #[trigger] recs[j]).champion_id,
{
    let (plan, appraisals, order) = lemma_behind(recs, cache, catalog, draft, ctx, appraise, key);
    assert forall|i: int| 0 <= i < recs.len() implies lockable(
        draft,
        catalog,
        (#[trigger] recs[i]).champion_id,
    ) && role_pool(cache, draft, key).contains(recs[i].champion_id) by {
        assert(among(plan.candidates@, plan.candidates@[order[i]].champion_id));
    }
    assert forall|i: int, j: int| 0 <= i < j < recs.len() implies (
    #[trigger] recs[i]).champion_id != (#[trigger] recs[j]).champion_id by {
        assert(order[i] != order[j]);
        let (p, q) = (order[i], order[j]);
        if p < q {
            assert(plan.candidates@[p].champion_id != plan.candidates@[q].champion_id);
        } else {
            assert(plan.candidates@[q].champion_id != plan.candidates@[p].champion_id);
        }
    }
}

/// As long as the arithmetic gives numbers, the cards stand in order: by score, then
/// by games, then by number.
pub proof fn law_cards_in_order<F: Fn(&Plan, &Candidate) -> Appraisal>(
    recs: Seq<Recommendation>,
    cache: Cache,
    catalog: Catalog,
    draft: DraftView,
    ctx: ScoreContext,
    appraise: F,
)
    requires
        recommended(recs, cache, catalog, draft, ctx, appraise),
        forall|p: &Plan, c: &Candidate, a: Appraisal| #[trigger]
            call_ensures(appraise, (p, c), a) ==> !a.score.is_nan(),
    ensures
        forall|i: int| 0 <= i < recs.len() ==> (#[trigger] recs[i]).meta_games is Some,
        forall|i: int, j: int|
            0 <= i < j < recs.len() ==> {
                let (a, b) = (#[trigger] recs[i], #[trigger] recs[j]);
                ||| a.score.key() > b.score.key()
                ||| a.score.key() == b.score.key() && a.meta_games->0 > b.meta_games->0
                ||| a.score.key() == b.score.key() && a.meta_games->0 == b.meta_games->0
                    && a.champion_id < b.champion_id
            },
{
    let (plan, appraisals, order) = choose|
        plan: Plan,
        appraisals: Seq<Appraisal>,
        order: Seq<int>,
    | #[trigger]
        recommended_by(recs, cache, catalog, draft, ctx, appraise, plan, appraisals, order);
    let cs = plan.candidates@;
    assert forall|i: int| 0 <= i < appraisals.len() implies !(
    #[trigger] appraisals[i]).score.is_nan() by {
        assert(call_ensures(appraise, (&plan, &cs[i]), appraisals[i]));
    }
    lemma_numbers_order(cs, appraisals);
    assert forall|i: int, j: int| 0 <= i < j < recs.len() implies {
        let (a, b) = (#[trigger] recs[i], #[trigger] recs[j]);
        ||| a.score.key() > b.score.key()
        ||| a.score.key() == b.score.key() && a.meta_games->0 > b.meta_games->0
        ||| a.score.key() == b.score.key() && a.meta_games->0 == b.meta_games->0 && a.champion_id
            < b.champion_id
    } by {
        let (p, q) = (order[i], order[j]);
        assert(p != q);
        assert(!appraisals[p].score.is_nan() && !appraisals[q].score.is_nan());
        assert(!order.take(i).contains(q)) by {
            if order.take(i).contains(q) {
                let k = choose|k: int| 0 <= k < order.take(i).len() && order.take(i)[k] == q;
                assert(order[k] == order[j]);
            }
        }
        assert(!leads(cs[q], appraisals[q], cs[order[i]], appraisals[order[i]]));
        if p < q {
            assert(cs[p].champion_id != cs[q].champion_id);
        } else {
            assert(cs[q].champion_id != cs[p].champion_id);
        }
    }
}

/// Nobody who is left out comes before one who is on a card.
pub proof fn law_best_are_shown(
    recs: Seq<Recommendation>,
    catalog: Catalog,
    plan: Plan,
    appraisals: Seq<Appraisal>,
    order: Seq<int>,
)
    requires
        is_ranking(recs, catalog, plan, appraisals, order),
        in_order(plan.candidates@, appraisals),
    ensures
        forall|i: int, k: int|
            0 <= i < recs.len() && 0 <= k < plan.candidates@.len() && !order.contains(k) ==> !leads(
                #[trigger] plan.candidates@[k],
                appraisals[k],
                plan.candidates@[#[trigger] order[i]],
                appraisals[order[i]],
            ),
{
    let cs = plan.candidates@;
    assert forall|i: int, k: int|
        0 <= i < recs.len() && 0 <= k < cs.len() && !order.contains(k) implies !leads(
        #[trigger] cs[k],
        appraisals[k],
        cs[#[trigger] order[i]],
        appraisals[order[i]],
    ) by {
        if order.take(i).contains(k) {
            let j = choose|j: int| 0 <= j < order.take(i).len() && order.take(i)[j] == k;
            assert(order[j] == k);
            assert(order.contains(k));
        }
    }
}

/// As long as someone who is played in the role can be locked, someone is
/// recommended, whatever the filters leave.
pub proof fn law_never_left_empty<F: Fn(&Plan, &Candidate) -> Appraisal>(
    recs: Seq<Recommendation>,
    cache: Cache,
    catalog: Catalog,
    draft: DraftView,
    ctx: ScoreContext,
    appraise: F,
    key: (Seq<char>, Seq<char>),
)
    requires
        cache.tidy(),
        recommended(recs, cache, catalog, draft, ctx, appraise),
        cache.stands_in(ctx.rank@, ctx.patch@, key),
        some_lockable(role_pool(cache, draft, key), draft, catalog),
    ensures
        recs.len() > 0,
{
    let (plan, appraisals, order) = lemma_behind(recs, cache, catalog, draft, ctx, appraise, key);
    let pool = role_pool(cache, draft, key);
    let kept = choices(pool, draft, catalog, ctx);
    assert(some_lockable(kept, draft, catalog));
    let id = choose|id: i64| #[trigger] kept.contains(id) && lockable(draft, catalog, id);
    let entries = cache.champions_in_role(plan.role@, plan.rank@, plan.patch@);
    let i = choose|i: int| 0 <= i < entries.len() && (#[trigger] entries[i]).0 == id;
    law_pool_has_meta(cache, plan.role@, plan.rank@, plan.patch@, i);
    assert(plan.eligible(cache, draft, catalog, ctx, id));
    assert(among(plan.candidates@, id));
}

/// Where the player wants only champions that they own, and one of those is
/// played in the role and can be picked and locked, all the cards are of owned
/// champions; so they are where none that can be picked could be locked, but an owned
/// one could. Likewise for those that can be picked.
pub proof fn law_filters_hold<F: Fn(&Plan, &Candidate) -> Appraisal>(
    recs: Seq<Recommendation>,
    cache: Cache,
    catalog: Catalog,
    draft: DraftView,
    ctx: ScoreContext,
    appraise: F,
    key: (Seq<char>, Seq<char>),
    i: int,
)
    requires
        recommended(recs, cache, catalog, draft, ctx, appraise),
        cache.stands_in(ctx.rank@, ctx.patch@, key),
        0 <= i < recs.len(),
    ensures
        ({
            let pool = role_pool(cache, draft, key);
            let pickable = pool.intersect(ctx.pickable@);
            &&& some_lockable(pickable, draft, catalog) ==> ctx.pickable@.contains(
                recs[i].champion_id,
            )
            &&& ctx.owned_only && some_lockable(
                pickable.intersect(ctx.owned@),
                draft,
                catalog,
            ) ==> ctx.owned@.contains(recs[i].champion_id)
            &&& ctx.owned_only && !some_lockable(pickable, draft, catalog) && some_lockable(
                pool.intersect(ctx.owned@),
                draft,
                catalog,
            ) ==> ctx.owned@.contains(recs[i].champion_id)
        }),
{
    let (plan, appraisals, order) = lemma_behind(recs, cache, catalog, draft, ctx, appraise, key);
    let id = recs[i].champion_id;
    assert(among(plan.candidates@, plan.candidates@[order[i]].champion_id));
    assert(plan.eligible(cache, draft, catalog, ctx, id));
    let pool = role_pool(cache, draft, key);
    let pickable = pool.intersect(ctx.pickable@);
    if some_lockable(pickable, draft, catalog) {
        let x = choose|x: i64| #[trigger] pickable.contains(x) && lockable(draft, catalog, x);
        assert(ctx.pickable@.contains(x));
        assert(!ctx.pickable@.is_empty());
    }
    let both = pickable.intersect(ctx.owned@);
    if some_lockable(both, draft, catalog) {
        let x = choose|x: i64| #[trigger] both.contains(x) && lockable(draft, catalog, x);
        assert(pickable.contains(x));
        assert(ctx.owned@.contains(x));
        assert(!ctx.owned@.is_empty());
    }
    let own = pool.intersect(ctx.owned@);
    if some_lockable(own, draft, catalog) {
        let x = choose|x: i64| #[trigger] own.contains(x) && lockable(draft, catalog, x);
        assert(ctx.owned@.contains(x));
        assert(!ctx.owned@.is_empty());
    }
}

/// A card always says something.
pub proof fn law_reason_says_something(catalog: Catalog, plan: Plan, c: Candidate, a: Appraisal)
    ensures
        reason_parts(catalog, plan, c, a).len() > 0,
{
}

// ------------------------------------------------------------ what the cards depend on

/// The two contexts differ in nothing but the player's masteries.
pub open spec fn differ_in_mastery(a: ScoreContext, b: ScoreContext) -> bool {
    b == (ScoreContext { mastery: b.mastery, ..a })
}

/// Mastery counts only where the player wants it to: with the setting off, the cards
/// for a draft are the same whatever the masteries are, and so is what they are made
/// from.
pub proof fn law_mastery_counts_where_wanted<F: Fn(&Plan, &Candidate) -> Appraisal>(
    recs: Seq<Recommendation>,
    cache: Cache,
    catalog: Catalog,
    draft: DraftView,
    a: ScoreContext,
    b: ScoreContext,
    appraise: F,
    plan: Plan,
)
    requires
        differ_in_mastery(a, b),
        !a.comfort_weighting,
    ensures
        plan.fits(cache, draft, catalog, a) <==> plan.fits(cache, draft, catalog, b),
        recommended(recs, cache, catalog, draft, a, appraise) <==> recommended(
            recs,
            cache,
            catalog,
            draft,
            b,
            appraise,
        ),
{
    lemma_unwanted(cache, catalog, draft, a, b, plan);
    lemma_unwanted(cache, catalog, draft, b, a, plan);
    lemma_recommended_alike(recs, cache, catalog, draft, a, b, appraise);
    lemma_recommended_alike(recs, cache, catalog, draft, b, a, appraise);
}

proof fn lemma_unwanted(
    cache: Cache,
    catalog: Catalog,
    draft: DraftView,
    a: ScoreContext,
    b: ScoreContext,
    plan: Plan,
)
    requires
        differ_in_mastery(a, b),
        !a.comfort_weighting,
    ensures
        plan.fits(cache, draft, catalog, a) ==> plan.fits(cache, draft, catalog, b),
{
    if plan.fits(cache, draft, catalog, a) {
        let cs = plan.candidates@;
        assert forall|i: int| 0 <= i < cs.len() implies plan.describes(
            cache,
            catalog,
            b,
            #[trigger] cs[i],
        ) by {
            assert(plan.describes(cache, catalog, a, cs[i]));
        }
        assert forall|id: i64| plan.eligible(cache, draft, catalog, b, id) <==> #[trigger] among(
            cs,
            id,
        ) by {
            assert(plan.eligible(cache, draft, catalog, a, id) == plan.eligible(
                cache,
                draft,
                catalog,
                b,
                id,
            ));
        }
    }
}

proof fn lemma_recommended_alike<F: Fn(&Plan, &Candidate) -> Appraisal>(
    recs: Seq<Recommendation>,
    cache: Cache,
    catalog: Catalog,
    draft: DraftView,
    a: ScoreContext,
    b: ScoreContext,
    appraise: F,
)
    requires
        differ_in_mastery(a, b),
        !a.comfort_weighting,
    ensures
        recommended(recs, cache, catalog, draft, a, appraise) ==> recommended(
            recs,
            cache,
            catalog,
            draft,
            b,
            appraise,
        ),
{
    if recommended(recs, cache, catalog, draft, a, appraise) {
        let (plan, appraisals, order) = choose|
            plan: Plan,
            appraisals: Seq<Appraisal>,
            order: Seq<int>,
        | #[trigger]
            recommended_by(recs, cache, catalog, draft, a, appraise, plan, appraisals, order);
        lemma_unwanted(cache, catalog, draft, a, b, plan);
        assert(recommended_by(
            recs,
            cache,
            catalog,
            draft,
            b,
            appraise,
            plan,
            appraisals,
            order,
        ));
    }
}

/// What a plan says besides its candidates.
pub struct Outline {
    pub role: Seq<char>,
    pub rank: Seq<char>,
    pub patch: Seq<char>,
    pub enemies: Seq<(i64, Seq<char>)>,
    pub allies: Seq<(i64, Seq<char>)>,
    pub lane_enemy: Option<i64>,
    pub weights: Weights,
    pub pool: Seq<(i64, RoleMetaView)>,
}

/// What a plan says besides its candidates.
pub open spec fn outline(plan: Plan) -> Outline {
    Outline {
        role: plan.role@,
        rank: plan.rank@,
        patch: plan.patch@,
        enemies: roles_view(plan.enemies@),
        allies: roles_view(plan.allies@),
        lane_enemy: plan.lane_enemy,
        weights: plan.weights,
        pool: pool_view(plan.pool@),
    }
}

/// What a candidate says.
pub struct Sketch {
    pub champion_id: i64,
    pub info: ChampionInfo,
    pub meta: RoleMetaView,
    pub lane: Option<MatchupStat>,
    pub team: Seq<Pairing>,
    pub synergies: Seq<Pairing>,
    pub lane_winrates: Seq<Real>,
    pub mastery: Option<(i64, i64)>,
}

/// What a candidate says.
pub open spec fn sketch(c: Candidate) -> Sketch {
    Sketch {
        champion_id: c.champion_id,
        info: c.info,
        meta: c.meta@,
        lane: c.lane,
        team: c.team@,
        synergies: c.synergies@,
        lane_winrates: c.lane_winrates@,
        mastery: c.mastery,
    }
}

/// The arithmetic scores each candidate by what the plan and the candidate say, with
/// no regard to the other candidates.
pub open spec fn scores_by<F: Fn(&Plan, &Candidate) -> Appraisal>(
    appraise: F,
    score: spec_fn(Outline, Sketch) -> Real,
) -> bool {
    forall|p: &Plan, c: &Candidate, a: Appraisal| #[trigger]
        call_ensures(appraise, (p, c), a) ==> a.score == score(outline(*p), sketch(*c))
}

/// The mastery of a champion counts the same in both contexts.
pub open spec fn same_mastery(a: ScoreContext, b: ScoreContext, id: i64) -> bool {
    !a.comfort_weighting || (a.mastery@.contains_key(id) == b.mastery@.contains_key(id) && (
    a.mastery@.contains_key(id) ==> a.mastery@[id] == b.mastery@[id]))
}

proof fn lemma_same_outline(
    cache: Cache,
    catalog: Catalog,
    draft: DraftView,
    a: ScoreContext,
    b: ScoreContext,
    p: Plan,
    q: Plan,
)
    requires
        differ_in_mastery(a, b),
        p.fits(cache, draft, catalog, a),
        q.fits(cache, draft, catalog, b),
    ensures
        outline(p) == outline(q),
        forall|i: int, j: int|
            0 <= i < p.candidates@.len() && 0 <= j < q.candidates@.len() && (
            #[trigger] p.candidates@[i]).champion_id == (#[trigger] q.candidates@[j]).champion_id
                && same_mastery(a, b, p.candidates@[i].champion_id) ==> sketch(p.candidates@[i])
                == sketch(q.candidates@[j]),
        forall|id: i64| #[trigger] among(p.candidates@, id) <==> among(q.candidates@, id),
{
    law_one_stand_in(cache, a.rank@, a.patch@, (p.rank@, p.patch@), (q.rank@, q.patch@));
    assert(outline(p) == outline(q));
    assert forall|i: int, j: int|
        0 <= i < p.candidates@.len() && 0 <= j < q.candidates@.len() && (
        #[trigger] p.candidates@[i]).champion_id == (#[trigger] q.candidates@[j]).champion_id
            && same_mastery(a, b, p.candidates@[i].champion_id) implies sketch(p.candidates@[i])
        == sketch(q.candidates@[j]) by {
        assert(p.describes(cache, catalog, a, p.candidates@[i]));
        assert(q.describes(cache, catalog, b, q.candidates@[j]));
    }
    assert forall|id: i64| #[trigger] among(p.candidates@, id) <==> among(q.candidates@, id) by {
        assert(p.eligible(cache, draft, catalog, a, id) == q.eligible(
            cache,
            draft,
            catalog,
            b,
            id,
        ));
    }
}

/// The mastery of one champion moves no other: whoever's mastery counts the same in
/// two contexts has the same score on both cards, as long as the arithmetic looks at
/// each candidate by itself.
pub proof fn law_mastery_moves_no_other<F: Fn(&Plan, &Candidate) -> Appraisal>(
    first: Seq<Recommendation>,
    second: Seq<Recommendation>,
    cache: Cache,
    catalog: Catalog,
    draft: DraftView,
    a: ScoreContext,
    b: ScoreContext,
    appraise: F,
    score: spec_fn(Outline, Sketch) -> Real,
    i: int,
    j: int,
)
    requires
        differ_in_mastery(a, b),
        scores_by(appraise, score),
        recommended(first, cache, catalog, draft, a, appraise),
        recommended(second, cache, catalog, draft, b, appraise),
        0 <= i < first.len(),
        0 <= j < second.len(),
        first[i].champion_id == second[j].champion_id,
        same_mastery(a, b, first[i].champion_id),
    ensures
        first[i].score == second[j].score,
{
    let (p, pa, po) = choose|p: Plan, pa: Seq<Appraisal>, po: Seq<int>| #[trigger]
        recommended_by(first, cache, catalog, draft, a, appraise, p, pa, po);
    let (q, qa, qo) = choose|q: Plan, qa: Seq<Appraisal>, qo: Seq<int>| #[trigger]
        recommended_by(second, cache, catalog, draft, b, appraise, q, qa, qo);
    lemma_same_outline(cache, catalog, draft, a, b, p, q);
    let (x, y) = (po[i], qo[j]);
    assert(call_ensures(appraise, (&p, &p.candidates@[x]), pa[x]));
    assert(call_ensures(appraise, (&q, &q.candidates@[y]), qa[y]));
    assert(p.candidates@[x].champion_id == q.candidates@[y].champion_id);
}

/// The champion numbers of the candidates.
spec fn ids_of(cs: Seq<Candidate>) -> Seq<i64> {
    Seq::new(cs.len(), |i: int| cs[i].champion_id)
}

proof fn lemma_as_many(p: Seq<Candidate>, q: Seq<Candidate>)
    requires
        distinct(p),
        distinct(q),
        forall|id: i64| #[trigger] among(p, id) <==> among(q, id),
    ensures
        p.len() == q.len(),
{
    let (a, b) = (ids_of(p), ids_of(q));
    assert(a.no_duplicates());
    assert(b.no_duplicates());
    a.unique_seq_to_set();
    b.unique_seq_to_set();
    assert(a.to_set() =~= b.to_set()) by {
        assert forall|id: i64| #[trigger] a.to_set().contains(id) <==> b.to_set().contains(id) by {
            assert(among(p, id) <==> among(q, id));
            if a.contains(id) {
                let i = choose|i: int| 0 <= i < a.len() && a[i] == id;
                assert(p[i].champion_id == id);
                assert(among(p, id));
                let j = choose|j: int| 0 <= j < q.len() && (#[trigger] q[j]).champion_id == id;
                assert(b[j] == id);
            }
            if b.contains(id) {
                let j = choose|j: int| 0 <= j < b.len() && b[j] == id;
                assert(q[j].champion_id == id);
                assert(among(q, id));
                let i = choose|i: int| 0 <= i < p.len() && (#[trigger] p[i]).champion_id == id;
                assert(a[i] == id);
            }
        }
    }
}

/// Where the masteries count the same, as they do with the setting off or for one and
/// the same context, the cards are of the same champions in the same order with the
/// same scores, as long as the arithmetic gives numbers and looks at each candidate by
/// itself.
pub proof fn law_same_cards<F: Fn(&Plan, &Candidate) -> Appraisal>(
    first: Seq<Recommendation>,
    second: Seq<Recommendation>,
    cache: Cache,
    catalog: Catalog,
    draft: DraftView,
    a: ScoreContext,
    b: ScoreContext,
    appraise: F,
    score: spec_fn(Outline, Sketch) -> Real,
)
    requires
        differ_in_mastery(a, b),
        forall|id: i64| #[trigger] same_mastery(a, b, id),
        scores_by(appraise, score),
        forall|p: &Plan, c: &Candidate, x: Appraisal| #[trigger]
            call_ensures(appraise, (p, c), x) ==> !x.score.is_nan(),
        recommended(first, cache, catalog, draft, a, appraise),
        recommended(second, cache, catalog, draft, b, appraise),
    ensures
        first.len() == second.len(),
        forall|i: int|
            0 <= i < first.len() ==> (#[trigger] first[i]).champion_id == second[i].champion_id
                && first[i].score == second[i].score,
{
    let (p, pa, po) = choose|p: Plan, pa: Seq<Appraisal>, po: Seq<int>| #[trigger]
        recommended_by(first, cache, catalog, draft, a, appraise, p, pa, po);
    let (q, qa, qo) = choose|q: Plan, qa: Seq<Appraisal>, qo: Seq<int>| #[trigger]
        recommended_by(second, cache, catalog, draft, b, appraise, q, qa, qo);
    lemma_same_outline(cache, catalog, draft, a, b, p, q);
    let (cs, ds) = (p.candidates@, q.candidates@);
    lemma_as_many(cs, ds);
    assert forall|k: int| 0 <= k < pa.len() implies !(#[trigger] pa[k]).score.is_nan() by {
        assert(call_ensures(appraise, (&p, &cs[k]), pa[k]));
    }
    assert forall|k: int| 0 <= k < qa.len() implies !(#[trigger] qa[k]).score.is_nan() by {
        assert(call_ensures(appraise, (&q, &ds[k]), qa[k]));
    }
    lemma_numbers_order(cs, pa);
    lemma_numbers_order(ds, qa);
    assert forall|k: int, l: int|
        0 <= k < cs.len() && 0 <= l < ds.len() && (#[trigger] cs[k]).champion_id == (
        #[trigger] ds[l]).champion_id implies pa[k].score == qa[l].score && cs[k].meta.games
        == ds[l].meta.games by {
        assert(same_mastery(a, b, cs[k].champion_id));
        assert(sketch(cs[k]) == sketch(ds[l]));
        assert(cs[k].meta@.games == ds[l].meta@.games);
        assert(call_ensures(appraise, (&p, &cs[k]), pa[k]));
        assert(call_ensures(appraise, (&q, &ds[l]), qa[l]));
    }
    lemma_same_order(cs, pa, po, ds, qa, qo, po.len() as int);
    assert forall|i: int| 0 <= i < first.len() implies (#[trigger] first[i]).champion_id
        == second[i].champion_id && first[i].score == second[i].score by {
        assert(cs[po[i]].champion_id == ds[qo[i]].champion_id);
        assert(pa[po[i]].score == qa[qo[i]].score);
    }
}

/// The same candidates with the same scores come in the same order.
proof fn lemma_same_order(
    cs: Seq<Candidate>,
    pa: Seq<Appraisal>,
    po: Seq<int>,
    ds: Seq<Candidate>,
    qa: Seq<Appraisal>,
    qo: Seq<int>,
    n: int,
)
    requires
        is_order(po, cs, pa),
        is_order(qo, ds, qa),
        in_order(cs, pa),
        in_order(ds, qa),
        distinct(cs),
        distinct(ds),
        po.len() == qo.len(),
        0 <= n <= po.len(),
        pa.len() == cs.len(),
        qa.len() == ds.len(),
        forall|k: int| 0 <= k < pa.len() ==> !(#[trigger] pa[k]).score.is_nan(),
        forall|k: int| 0 <= k < qa.len() ==> !(#[trigger] qa[k]).score.is_nan(),
        forall|id: i64| #[trigger] among(cs, id) <==> among(ds, id),
        forall|k: int, l: int|
            0 <= k < cs.len() && 0 <= l < ds.len() && (#[trigger] cs[k]).champion_id == (
            #[trigger] ds[l]).champion_id ==> pa[k].score == qa[l].score && cs[k].meta.games
                == ds[l].meta.games,
    ensures
        forall|i: int|
            0 <= i < n ==> cs[#[trigger] po[i]].champion_id == ds[qo[i]].champion_id,
    decreases n,
{
    if n > 0 {
        lemma_same_order(cs, pa, po, ds, qa, qo, n - 1);
        let i = n - 1;
        let (x, y) = (po[i], qo[i]);
        let (c, d) = (cs[x].champion_id, ds[y].champion_id);
        if c != d {
            assert(among(cs, c));
            assert(among(ds, d));
            assert(among(ds, c));
            assert(among(cs, d));
            let k = choose|k: int| 0 <= k < cs.len() && (#[trigger] cs[k]).champion_id == d;
            let l = choose|l: int| 0 <= l < ds.len() && (#[trigger] ds[l]).champion_id == c;
            assert(!po.take(i).contains(k)) by {
                if po.take(i).contains(k) {
                    let m = choose|m: int| 0 <= m < po.take(i).len() && po.take(i)[m] == k;
                    assert(po[m] == k);
                    assert(ds[qo[m]].champion_id == d);
                    lemma_told_apart(ds, qo[m], y);
                    assert(qo[m] == qo[i]);
                }
            }
            assert(!qo.take(i).contains(l)) by {
                if qo.take(i).contains(l) {
                    let m = choose|m: int| 0 <= m < qo.take(i).len() && qo.take(i)[m] == l;
                    assert(qo[m] == l);
                    assert(cs[po[m]].champion_id == c);
                    lemma_told_apart(cs, po[m], x);
                    assert(po[m] == po[i]);
                }
            }
            assert(!leads(cs[k], pa[k], cs[po[i]], pa[po[i]]));
            assert(!leads(ds[l], qa[l], ds[qo[i]], qa[qo[i]]));
            assert(pa[k].score == qa[y].score && cs[k].meta.games == ds[y].meta.games);
            assert(pa[x].score == qa[l].score && cs[x].meta.games == ds[l].meta.games);
        }
    }
}

proof fn lemma_told_apart(cs: Seq<Candidate>, i: int, j: int)
    requires
        distinct(cs),
        0 <= i < cs.len(),
        0 <= j < cs.len(),
        cs[i].champion_id == cs[j].champion_id,
    ensures
        i == j,
{
}

} // verus!
