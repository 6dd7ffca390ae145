//! The ranking: which champions can be recommended, what is weighed for each, and
//! how the cards are ordered and explained.
//!
//! The arithmetic on win rates is supplied by the caller as a function from a
//! candidate to its [`Appraisal`]; everything that is decided around it is
//! decided here.
pub mod cards;
pub mod laws;
pub mod plan;
pub mod pool;
pub mod purpose;
pub mod weights;

use crate::catalog::Catalog;
use crate::engine::cards::is_ranking;
use crate::models::{DraftView, Recommendation};
use crate::stats::cache::Cache;
use crate::stats::store::StatsDb;
use vstd::prelude::*;

pub use crate::engine::cards::{build_reason, rank, Appraisal};
pub use crate::engine::plan::{plan, resolve_role, Candidate, Pairing, Plan};
pub use crate::engine::pool::{is_taken, soft_filter, still_lockable, ScoreContext};
pub use crate::engine::weights::{
    ally_role_weight, is_duo_lane, role_label, vs_role_weight, weights, Weights,
};

verus! {

/// The cards are those for a draft by this plan, these appraisals of its candidates
/// and this order.
pub open spec fn recommended_by<F: Fn(&Plan, &Candidate) -> Appraisal>(
    recs: Seq<Recommendation>,
    cache: Cache,
    catalog: Catalog,
    draft: DraftView,
    ctx: ScoreContext,
    appraise: F,
    plan: Plan,
    appraisals: Seq<Appraisal>,
    order: Seq<int>,
) -> bool {
    &&& plan.fits(cache, draft, catalog, ctx)
    &&& appraisals.len() == plan.candidates@.len()
    &&& forall|i: int|
        0 <= i < appraisals.len() ==> call_ensures(
            appraise,
            (&plan, &plan.candidates@[i]),
            #[trigger] appraisals[i],
        )
    &&& is_ranking(recs, catalog, plan, appraisals, order)
}

/// The cards are those for a draft: what [`plan`] lays out, each candidate
/// appraised by the arithmetic that is handed in, and ranked.
pub open spec fn recommended<F: Fn(&Plan, &Candidate) -> Appraisal>(
    recs: Seq<Recommendation>,
    cache: Cache,
    catalog: Catalog,
    draft: DraftView,
    ctx: ScoreContext,
    appraise: F,
) -> bool {
    exists|plan: Plan, appraisals: Seq<Appraisal>, order: Seq<int>| #[trigger]
        recommended_by(recs, cache, catalog, draft, ctx, appraise, plan, appraisals, order)
}

/// The cards for a draft, best first.
pub fn recommend<F: Fn(&Plan, &Candidate) -> Appraisal>(
    db: &StatsDb,
    catalog: &Catalog,
    draft: &DraftView,
    ctx: &ScoreContext,
    appraise: F,
) -> (recs: Vec<Recommendation>)
    requires
        forall|p: &Plan, c: &Candidate| call_requires(appraise, (p, c)),
    ensures
        recommended(recs@, db@, *catalog, *draft, *ctx, appraise),
{
    let plan = plan(db, catalog, draft, ctx);
    let mut appraisals: Vec<Appraisal> = Vec::new();
    for i in 0..plan.candidates.len()
        invariant
            forall|p: &Plan, c: &Candidate| call_requires(appraise, (p, c)),
            appraisals@.len() == i,
            forall|k: int|
                0 <= k < i ==> call_ensures(
                    appraise,
                    (&plan, &plan.candidates@[k]),
                    #[trigger] appraisals@[k],
                ),
    {
        let appraisal = appraise(&plan, &plan.candidates[i]);
        appraisals.push(appraisal);
    }
    let recs = rank(catalog, &plan, &appraisals);
    proof {
        let order = choose|order: Seq<int>| #[trigger]
            is_ranking(recs@, *catalog, plan, appraisals@, order);
        assert(recommended_by(
            recs@,
            db@,
            *catalog,
            *draft,
            *ctx,
            appraise,
            plan,
            appraisals@,
            order,
        ));
    }
    recs
}

} // verus!
