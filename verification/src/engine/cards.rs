//! The cards: what they say, and in which order they come.
use crate::catalog::Catalog;
use crate::engine::plan::{Candidate, Pairing, Plan};
use crate::engine::weights::{label_of, role_label};
use crate::models::Recommendation;
use crate::number::{Real, HALF, TWO_FIFTHS, ZERO};
use crate::text::{concat, join, joined, push_text, texts};
use vstd::prelude::*;

verus! {

broadcast use vstd::std_specs::hash::group_hash_axioms;

/// What the arithmetic makes of a candidate.
#[derive(Debug)]
pub struct Appraisal {
    pub score: Real,
    /// The edge against the lane opponent; means nothing without a lane matchup.
    pub lane_delta: Real,
    /// The edge against the other enemies; means nothing without a pairing.
    pub team_delta: Real,
    /// The edge beside the allies; means nothing without a pairing.
    pub synergy_delta: Real,
    /// The edge beside each ally of the pairings, in their order.
    pub ally_deltas: Vec<Real>,
    /// How much of the win rate is likely to come from specialists, from 0 to 1.
    pub skew: Real,
    /// The edge against the lane opponent, written out with its sign.
    pub lane_text: String,
    /// The edge against the other enemies, written out with its sign.
    pub team_text: String,
    /// The win rate in the role, written out.
    pub meta_text: String,
}

/// Where the first of the highest edges stands.
pub open spec fn highest(deltas: Seq<Real>) -> Option<int>
    decreases deltas.len(),
{
    if deltas.len() == 0 {
        None
    } else {
        match highest(deltas.drop_last()) {
            Some(i) => if deltas.last().gt(deltas[i]) {
                Some(deltas.len() - 1)
            } else {
                Some(i)
            },
            None => Some(deltas.len() - 1),
        }
    }
}

/// The ally that the candidate goes best with.
pub open spec fn best_ally(synergies: Seq<Pairing>, deltas: Seq<Real>) -> Option<i64> {
    match highest(deltas) {
        Some(i) => if i < synergies.len() {
            Some(synergies[i].id)
        } else {
            None
        },
        None => None,
    }
}

fn find_best_ally(synergies: &Vec<Pairing>, deltas: &Vec<Real>) -> (ally: Option<i64>)
    ensures
        ally == best_ally(synergies@, deltas@),
{
    let mut best: Option<usize> = None;
    for i in 0..deltas.len()
        invariant
            match best {
                Some(at) => at < i && highest(deltas@.take(i as int)) == Some(at as int),
                None => highest(deltas@.take(i as int)) is None,
            },
    {
        assert(deltas@.take(i + 1).drop_last() =~= deltas@.take(i as int));
        match best {
            Some(at) => {
                if deltas[i].above(deltas[at]) {
                    best = Some(i);
                }
            },
            None => {
                best = Some(i);
            },
        }
    }
    assert(deltas@.take(deltas@.len() as int) =~= deltas@);
    match best {
        Some(at) => if at < synergies.len() {
            Some(synergies[at].id)
        } else {
            None
        },
        None => None,
    }
}

/// The name of a champion, where the catalog has it.
pub open spec fn name_of(catalog: Catalog, id: Option<i64>) -> Option<Seq<char>> {
    match id {
        Some(id) => if catalog.by_id@.contains_key(id) {
            Some(catalog.by_id@[id].name@)
        } else {
            None
        },
        None => None,
    }
}

fn find_name(catalog: &Catalog, id: Option<i64>) -> (name: Option<String>)
    ensures
        match name {
            Some(text) => name_of(*catalog, id) == Some(text@),
            None => name_of(*catalog, id) is None,
        },
{
    match id {
        Some(id) => match catalog.by_id.get(&id) {
            Some(info) => Some(info.name.clone()),
            None => None,
        },
        None => None,
    }
}

/// What a card says of the draft: the lane opponent, the other enemies where
/// there is more than one enemy, and an ally that the champion goes well with.
pub open spec fn draft_parts(catalog: Catalog, plan: Plan, c: Candidate, a: Appraisal) -> Seq<
    Seq<char>,
> {
    let lane = match name_of(catalog, plan.lane_enemy) {
        Some(name) => if c.lane is Some {
            seq![a.lane_text@ + "% vs "@ + name]
        } else {
            Seq::empty()
        },
        None => Seq::empty(),
    };
    let team = if c.team@.len() > 0 && plan.enemies@.len() > 1 {
        seq![a.team_text@ + "% vs locked enemies"@]
    } else {
        Seq::empty()
    };
    let ally = match name_of(catalog, best_ally(c.synergies@, a.ally_deltas@)) {
        Some(name) => if c.synergies@.len() > 0 && a.synergy_delta.ge(Real { bits: TWO_FIFTHS }) {
            seq!["synergizes with "@ + name]
        } else {
            Seq::empty()
        },
        None => Seq::empty(),
    };
    lane + team + ally
}

/// What a card says: of the draft, or where there is nothing to say of it the win
/// rate, and whether it is a pick of specialists.
pub open spec fn reason_parts(catalog: Catalog, plan: Plan, c: Candidate, a: Appraisal) -> Seq<
    Seq<char>,
> {
    let told = draft_parts(catalog, plan, c, a);
    let said = if told.len() > 0 {
        told
    } else if plan.enemies@.len() == 0 {
        seq!["safe "@ + a.meta_text@ + "% WR pick while the draft is still open"@]
    } else {
        seq![a.meta_text@ + "% role win rate this patch"@]
    };
    if a.skew.ge(Real { bits: HALF }) {
        said.push("niche "@ + label_of(plan.role@) + " pick, mostly one-tricks"@)
    } else {
        said
    }
}

/// What a card says of its champion.
pub fn build_reason(catalog: &Catalog, plan: &Plan, c: &Candidate, a: &Appraisal) -> (reason: String)
    ensures
        reason@ == joined(reason_parts(*catalog, *plan, *c, *a), " \u{b7} "@),
{
    let mut parts: Vec<String> = Vec::new();
    assert(texts(parts@) =~= Seq::empty());
    if c.lane.is_some() {
        if let Some(name) = find_name(catalog, plan.lane_enemy) {
            push_text(&mut parts, concat(&concat(&a.lane_text, "% vs "), &name));
        }
    }
    if c.team.len() > 0 && plan.enemies.len() > 1 {
        push_text(&mut parts, concat(&a.team_text, "% vs locked enemies"));
    }
    if c.synergies.len() > 0 && a.synergy_delta.at_least(Real { bits: TWO_FIFTHS }) {
        if let Some(name) = find_name(catalog, find_best_ally(&c.synergies, &a.ally_deltas)) {
            push_text(&mut parts, concat("synergizes with ", &name));
        }
    }
    assert(texts(parts@) =~= draft_parts(*catalog, *plan, *c, *a));
    assert(texts(parts@).len() == parts@.len());
    if parts.len() == 0 {
        if plan.enemies.len() == 0 {
            push_text(
                &mut parts,
                concat(
                    &concat("safe ", &a.meta_text),
                    "% WR pick while the draft is still open",
                ),
            );
        } else {
            push_text(&mut parts, concat(&a.meta_text, "% role win rate this patch"));
        }
    }
    if a.skew.at_least(Real { bits: HALF }) {
        push_text(
            &mut parts,
            concat(&concat("niche ", &role_label(&plan.role)), " pick, mostly one-tricks"),
        );
    }
    assert(texts(parts@) =~= reason_parts(*catalog, *plan, *c, *a));
    join(&parts, " \u{b7} ")
}

/// `rec` is the card of a candidate.
pub open spec fn is_card(
    rec: Recommendation,
    catalog: Catalog,
    plan: Plan,
    c: Candidate,
    a: Appraisal,
) -> bool {
    &&& rec.champion_id == c.champion_id
    &&& rec.name@ == c.info.name@
    &&& rec.slug@ == c.info.slug@
    &&& rec.icon_url@ == c.info.icon_url@
    &&& rec.score == a.score
    &&& rec.reason@ == joined(reason_parts(catalog, plan, c, a), " \u{b7} "@)
    &&& rec.lane_delta == (if c.lane is Some {
        Some(a.lane_delta)
    } else {
        None
    })
    &&& rec.team_delta == (if c.team@.len() > 0 {
        Some(a.team_delta)
    } else {
        None
    })
    &&& rec.synergy_delta == (if c.synergies@.len() > 0 {
        Some(a.synergy_delta)
    } else {
        None
    })
    &&& rec.meta_wr == Some(c.meta.winrate)
    &&& rec.meta_games == Some(c.meta.games)
    &&& rec.meta_pickrate == (if c.meta.pickrate.gt(Real { bits: ZERO }) {
        Some(c.meta.pickrate)
    } else {
        None
    })
}

fn card(catalog: &Catalog, plan: &Plan, c: &Candidate, a: &Appraisal) -> (rec: Recommendation)
    ensures
        is_card(rec, *catalog, *plan, *c, *a),
{
    Recommendation {
        champion_id: c.champion_id,
        name: c.info.name.clone(),
        slug: c.info.slug.clone(),
        icon_url: c.info.icon_url.clone(),
        score: a.score,
        reason: build_reason(catalog, plan, c, a),
        lane_delta: if c.lane.is_some() {
            Some(a.lane_delta)
        } else {
            None
        },
        team_delta: if c.team.len() > 0 {
            Some(a.team_delta)
        } else {
            None
        },
        synergy_delta: if c.synergies.len() > 0 {
            Some(a.synergy_delta)
        } else {
            None
        },
        meta_wr: Some(c.meta.winrate),
        meta_games: Some(c.meta.games),
        meta_pickrate: if c.meta.pickrate.above(Real { bits: ZERO }) {
            Some(c.meta.pickrate)
        } else {
            None
        },
    }
}

// ------------------------------------------------------- the order

/// How many cards there are at most.
pub const CARDS: usize = 5;

/// The scores do not tell which comes first: they are the same, or one of them is
/// not a number.
pub open spec fn tied(a: Real, b: Real) -> bool {
    a.is_nan() || b.is_nan() || a.key() == b.key()
}

/// The first of the two candidates comes before the second: by the higher score,
/// else by the more games, else by the lower number.
pub open spec fn leads(c: Candidate, a: Appraisal, d: Candidate, b: Appraisal) -> bool {
    ||| !tied(a.score, b.score) && a.score.key() > b.score.key()
    ||| tied(a.score, b.score) && c.meta.games > d.meta.games
    ||| tied(a.score, b.score) && c.meta.games == d.meta.games && c.champion_id < d.champion_id
}

/// The candidate at `i` comes before the one at `j`.
pub open spec fn ahead(cs: Seq<Candidate>, appraisals: Seq<Appraisal>, i: int, j: int) -> bool {
    leads(cs[i], appraisals[i], cs[j], appraisals[j])
}

/// Who comes before whom makes an order. It may fail to where a score is not a
/// number: such a one ties with scores that do not tie with each other.
pub open spec fn in_order(cs: Seq<Candidate>, appraisals: Seq<Appraisal>) -> bool {
    forall|i: int, j: int, k: int|
        0 <= i < cs.len() && 0 <= j < cs.len() && 0 <= k < cs.len() && #[trigger] ahead(
            cs,
            appraisals,
            i,
            j,
        ) && #[trigger] ahead(cs, appraisals, j, k) ==> ahead(cs, appraisals, i, k)
}

/// Scores that are all numbers make an order.
pub proof fn lemma_numbers_order(cs: Seq<Candidate>, appraisals: Seq<Appraisal>)
    requires
        appraisals.len() == cs.len(),
        forall|i: int| 0 <= i < appraisals.len() ==> !(#[trigger] appraisals[i]).score.is_nan(),
    ensures
        in_order(cs, appraisals),
{
    assert forall|i: int, j: int, k: int|
        0 <= i < cs.len() && 0 <= j < cs.len() && 0 <= k < cs.len() && #[trigger] ahead(
            cs,
            appraisals,
            i,
            j,
        ) && #[trigger] ahead(cs, appraisals, j, k) implies ahead(cs, appraisals, i, k) by {
        assert(!appraisals[i].score.is_nan());
        assert(!appraisals[j].score.is_nan());
        assert(!appraisals[k].score.is_nan());
    }
}

/// `order` names the candidates of the cards: each once, as many as there are up to
/// the number of cards; and where who comes before whom makes an order, at each
/// place one that none of those left over comes before.
pub open spec fn is_order(order: Seq<int>, cs: Seq<Candidate>, appraisals: Seq<Appraisal>) -> bool {
    &&& order.len() == (if cs.len() < CARDS {
        cs.len()
    } else {
        CARDS as nat
    })
    &&& order.no_duplicates()
    &&& forall|i: int| 0 <= i < order.len() ==> 0 <= #[trigger] order[i] < cs.len()
    &&& in_order(cs, appraisals) ==> forall|i: int, k: int|
        0 <= i < order.len() && 0 <= k < cs.len() && !order.take(i).contains(k) ==> !leads(
            #[trigger] cs[k],
            appraisals[k],
            cs[#[trigger] order[i]],
            appraisals[order[i]],
        )
}

/// The cards are those of the candidates in their order.
pub open spec fn is_ranking(
    recs: Seq<Recommendation>,
    catalog: Catalog,
    plan: Plan,
    appraisals: Seq<Appraisal>,
    order: Seq<int>,
) -> bool {
    &&& is_order(order, plan.candidates@, appraisals)
    &&& recs.len() == order.len()
    &&& forall|i: int|
        0 <= i < recs.len() ==> is_card(
            #[trigger] recs[i],
            catalog,
            plan,
            plan.candidates@[order[i]],
            appraisals[order[i]],
        )
}

fn goes_before(c: &Candidate, a: &Appraisal, d: &Candidate, b: &Appraisal) -> (r: bool)
    ensures
        r == leads(*c, *a, *d, *b),
{
    let x = a.score.order_key();
    let y = b.score.order_key();
    let tie = a.score.not_a_number() || b.score.not_a_number() || x == y;
    (!tie && x > y) || (tie && (c.meta.games > d.meta.games || (c.meta.games == d.meta.games
        && c.champion_id < d.champion_id)))
}

spec fn places(order: Seq<usize>) -> Seq<int> {
    Seq::new(order.len(), |i: int| order[i] as int)
}

fn is_used(order: &Vec<usize>, k: usize) -> (r: bool)
    ensures
        r == places(order@).contains(k as int),
{
    for i in 0..order.len()
        invariant
            forall|j: int| 0 <= j < i ==> order@[j] != k,
    {
        if order[i] == k {
            assert(places(order@)[i as int] == k);
            return true;
        }
    }
    false
}

/// The best of the candidates that are not used yet.
fn next_best(cs: &Vec<Candidate>, appraisals: &Vec<Appraisal>, used: &Vec<usize>) -> (best: Option<
    usize,
>)
    requires
        appraisals@.len() == cs@.len(),
    ensures
        match best {
            Some(at) => {
                &&& at < cs@.len()
                &&& !places(used@).contains(at as int)
                &&& in_order(cs@, appraisals@) ==> forall|k: int|
                    0 <= k < cs@.len() && !places(used@).contains(k) ==> !leads(
                        #[trigger] cs@[k],
                        appraisals@[k],
                        cs@[at as int],
                        appraisals@[at as int],
                    )
            },
            None => forall|k: int| 0 <= k < cs@.len() ==> places(used@).contains(k),
        },
{
    let mut best: Option<usize> = None;
    for i in 0..cs.len()
        invariant
            appraisals@.len() == cs@.len(),
            match best {
                Some(at) => {
                    &&& at < i
                    &&& !places(used@).contains(at as int)
                    &&& in_order(cs@, appraisals@) ==> forall|k: int|
                        0 <= k < i && !places(used@).contains(k) ==> !leads(
                            #[trigger] cs@[k],
                            appraisals@[k],
                            cs@[at as int],
                            appraisals@[at as int],
                        )
                },
                None => forall|k: int| 0 <= k < i ==> places(used@).contains(k),
            },
    {
        if !is_used(used, i) {
            match best {
                Some(at) => {
                    if goes_before(&cs[i], &appraisals[i], &cs[at], &appraisals[at]) {
                        proof {
                            if in_order(cs@, appraisals@) {
                                assert(ahead(cs@, appraisals@, i as int, at as int));
                                assert forall|k: int|
                                    0 <= k < i && !places(used@).contains(k) implies !leads(
                                    #[trigger] cs@[k],
                                    appraisals@[k],
                                    cs@[i as int],
                                    appraisals@[i as int],
                                ) by {
                                    if ahead(cs@, appraisals@, k, i as int) {
                                        assert(ahead(cs@, appraisals@, k, at as int));
                                    }
                                }
                            }
                        }
                        best = Some(i);
                    }
                },
                None => {
                    best = Some(i);
                },
            }
        }
    }
    best
}

/// The cards of the candidates, best first.
pub fn rank(catalog: &Catalog, plan: &Plan, appraisals: &Vec<Appraisal>) -> (recs: Vec<
    Recommendation,
>)
    requires
        appraisals@.len() == plan.candidates@.len(),
    ensures
        exists|order: Seq<int>|
            #[trigger] is_ranking(recs@, *catalog, *plan, appraisals@, order),
{
    let cs = &plan.candidates;
    let mut order: Vec<usize> = Vec::new();
    let mut recs: Vec<Recommendation> = Vec::new();
    let count = if cs.len() < CARDS {
        cs.len()
    } else {
        CARDS
    };
    for n in 0..count
        invariant
            cs == &plan.candidates,
            appraisals@.len() == cs@.len(),
            count <= cs@.len(),
            order@.len() == n,
            recs@.len() == n,
            places(order@).no_duplicates(),
            forall|i: int| 0 <= i < n ==> 0 <= #[trigger] places(order@)[i] < cs@.len(),
            in_order(cs@, appraisals@) ==> forall|i: int, k: int|
                0 <= i < n && 0 <= k < cs@.len() && !places(order@).take(i).contains(k) ==> !leads(
                    #[trigger] cs@[k],
                    appraisals@[k],
                    cs@[#[trigger] places(order@)[i]],
                    appraisals@[places(order@)[i]],
                ),
            forall|i: int|
                0 <= i < n ==> is_card(
                    #[trigger] recs@[i],
                    *catalog,
                    *plan,
                    cs@[places(order@)[i]],
                    appraisals@[places(order@)[i]],
                ),
    {
        let ghost before = places(order@);
        match next_best(cs, appraisals, &order) {
            Some(at) => {
                recs.push(card(catalog, plan, &cs[at], &appraisals[at]));
                order.push(at);
                let ghost now = places(order@);
                assert(now =~= before.push(at as int));
                assert(now.take(n as int) =~= before);
                proof {
                    if in_order(cs@, appraisals@) {
                        assert forall|i: int, k: int|
                            0 <= i < n + 1 && 0 <= k < cs@.len() && !now.take(i).contains(
                                k,
                            ) implies !leads(
                            #[trigger] cs@[k],
                            appraisals@[k],
                            cs@[#[trigger] now[i]],
                            appraisals@[now[i]],
                        ) by {
                            if i < n {
                                assert(now.take(i) =~= before.take(i));
                                assert(before[i] == now[i]);
                            }
                        }
                    }
                }
            },
            None => {
                proof {
                    lemma_not_all_used(before, cs@.len() as int);
                }
            },
        }
    }
    proof {
        assert(is_ranking(recs@, *catalog, *plan, appraisals@, places(order@)));
    }
    recs
}

/// Fewer than `n` places cannot be all of the first `n`.
proof fn lemma_not_all_used(used: Seq<int>, n: int)
    requires
        used.len() < n,
    ensures
        exists|k: int| 0 <= k < n && !used.contains(k),
{
    if forall|k: int| 0 <= k < n ==> used.contains(k) {
        lemma_all_used(used, n);
    }
}

/// Places that are all of the first `n` are at least `n`.
proof fn lemma_all_used(used: Seq<int>, n: int)
    requires
        0 <= n,
        forall|k: int| 0 <= k < n ==> used.contains(k),
    ensures
        used.len() >= n,
{
    let all = Seq::new(n as nat, |i: int| i);
    assert(all.no_duplicates());
    all.unique_seq_to_set();
    used.lemma_cardinality_of_set();
    assert(all.to_set().subset_of(used.to_set())) by {
        assert forall|k: int| all.to_set().contains(k) implies used.to_set().contains(k) by {
            let i = choose|i: int| 0 <= i < all.len() && all[i] == k;
            assert(used.contains(k));
        }
    }
    vstd::set_lib::lemma_len_subset(all.to_set(), used.to_set());
}

} // verus!
