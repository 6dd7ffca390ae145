//! How much each part of a score counts.
use crate::text::same;
use vstd::prelude::*;

verus! {

/// How much each part of a score counts, in hundredths.
#[derive(Debug, Clone, Copy, PartialEq, Eq, Structural)]
pub struct Weights {
    pub lane: u32,
    pub team: u32,
    pub syn: u32,
    pub meta: u32,
    pub flex: u32,
    pub comfort: u32,
}

/// The weights while the lane opponent is known, while some enemy is, and while
/// the draft is still open.
pub open spec fn weights_for(lane_known: bool, enemies_known: nat) -> Weights {
    if lane_known {
        Weights { lane: 45, team: 20, syn: 25, meta: 10, flex: 0, comfort: 0 }
    } else if enemies_known > 0 {
        Weights { lane: 0, team: 40, syn: 25, meta: 25, flex: 5, comfort: 5 }
    } else {
        Weights { lane: 0, team: 10, syn: 20, meta: 50, flex: 15, comfort: 5 }
    }
}

/// The weights for what is known of the enemies.
pub fn weights(lane_known: bool, enemies_known: usize) -> (w: Weights)
    ensures
        w == weights_for(lane_known, enemies_known as nat),
{
    if lane_known {
        Weights { lane: 45, team: 20, syn: 25, meta: 10, flex: 0, comfort: 0 }
    } else if enemies_known > 0 {
        Weights { lane: 0, team: 40, syn: 25, meta: 25, flex: 5, comfort: 5 }
    } else {
        Weights { lane: 0, team: 10, syn: 20, meta: 50, flex: 15, comfort: 5 }
    }
}

/// The two roles share the bottom lane.
pub open spec fn duo(a: Seq<char>, b: Seq<char>) -> bool {
    (a == "bottom"@ && b == "support"@) || (a == "support"@ && b == "bottom"@)
}

/// Whether the two roles share the bottom lane.
pub fn is_duo_lane(a: &str, b: &str) -> (r: bool)
    ensures
        r == duo(a@, b@),
{
    (same(a, "bottom") && same(b, "support")) || (same(a, "support") && same(b, "bottom"))
}

/// How much a matchup counts against an enemy in `vs_role`, in hundredths.
pub open spec fn enemy_weight(our_role: Seq<char>, vs_role: Seq<char>) -> u32 {
    if vs_role.len() == 0 {
        20
    } else if our_role == vs_role {
        100
    } else if duo(our_role, vs_role) {
        45
    } else {
        20
    }
}

/// How much a matchup counts against an enemy in `vs_role`, in hundredths.
pub fn vs_role_weight(our_role: &str, vs_role: &str) -> (w: u32)
    ensures
        w == enemy_weight(our_role@, vs_role@),
{
    if vs_role.is_empty() {
        20
    } else if same(our_role, vs_role) {
        100
    } else if is_duo_lane(our_role, vs_role) {
        45
    } else {
        20
    }
}

/// How much a synergy counts with an ally in `ally_role`, in hundredths.
pub open spec fn ally_weight(our_role: Seq<char>, ally_role: Seq<char>) -> u32 {
    if duo(our_role, ally_role) {
        100
    } else if ally_role == "jungle"@ {
        35
    } else {
        25
    }
}

/// How much a synergy counts with an ally in `ally_role`, in hundredths.
pub fn ally_role_weight(our_role: &str, ally_role: &str) -> (w: u32)
    ensures
        w == ally_weight(our_role@, ally_role@),
{
    if is_duo_lane(our_role, ally_role) {
        100
    } else if same(ally_role, "jungle") {
        35
    } else {
        25
    }
}

/// What a role is called on a card.
pub open spec fn label_of(role: Seq<char>) -> Seq<char> {
    if role == "middle"@ {
        "mid"@
    } else if role == "bottom"@ {
        "ADC"@
    } else {
        role
    }
}

/// What a role is called on a card.
pub fn role_label(role: &str) -> (label: String)
    ensures
        label@ == label_of(role@),
{
    if same(role, "middle") {
        "mid".to_string()
    } else if same(role, "bottom") {
        "ADC".to_string()
    } else {
        role.to_string()
    }
}

/// The weights make up the whole; the lane counts most once it is known, the
/// enemy team most while only some of it is, and the win rate most before that;
/// how well the player knows a champion never counts for much.
pub proof fn law_weights(lane_known: bool, enemies_known: nat)
    ensures
        ({
            let w = weights_for(lane_known, enemies_known);
            &&& w.lane + w.team + w.syn + w.meta + w.flex + w.comfort == 100
            &&& w.comfort <= 5
            &&& w.comfort < w.team
            &&& lane_known ==> w.lane > w.team && w.lane > w.syn && w.lane > w.meta && w.comfort
                == 0
            &&& !lane_known && enemies_known > 0 ==> w.team > w.syn && w.team > w.meta
            &&& !lane_known && enemies_known == 0 ==> w.meta > w.lane && w.meta > w.team && w.meta
                > w.syn && w.flex > w.lane
        }),
{
}

} // verus!
