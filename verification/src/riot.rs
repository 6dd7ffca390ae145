//! The player's profile as Riot's own service has it.
use crate::settings::bracket_of;
use crate::text::{concat, is_same};
use std::collections::HashMap;
use vstd::prelude::*;

verus! {

broadcast use vstd::std_specs::hash::group_hash_axioms;

/// The tier and the mastery of a player.
#[derive(Debug)]
pub struct RiotProfile {
    pub tier: Option<String>,
    pub mastery: HashMap<i64, (i64, i64)>,
}

impl Clone for RiotProfile {
    fn clone(&self) -> (copy: Self)
        ensures
            copy.tier == self.tier,
            copy.mastery@ == self.mastery@,
    {
        RiotProfile { tier: self.tier.clone(), mastery: self.mastery.clone() }
    }
}

impl Default for RiotProfile {
    fn default() -> (profile: Self)
        ensures
            profile.tier is None,
            profile.mastery@ == Map::<i64, (i64, i64)>::empty(),
    {
        RiotProfile { tier: None, mastery: HashMap::new() }
    }
}

/// One rank of a player.
#[derive(Debug)]
pub struct LeagueEntry {
    pub queue_type: Option<String>,
    pub tier: Option<String>,
}

/// How well a player knows a champion.
#[derive(Debug)]
pub struct MasteryEntry {
    pub champion_id: Option<i64>,
    pub champion_level: Option<i64>,
    pub champion_points: Option<i64>,
}

/// Why a profile is not asked for.
#[derive(Debug, PartialEq, Eq)]
pub enum ProfileError {
    /// There is no key, or nobody to ask about.
    MissingCredentials,
}

/// The two addresses that make up a profile.
#[derive(Debug)]
pub struct ProfileRequest {
    pub league_url: String,
    pub mastery_url: String,
}

/// Where a player's ranks and mastery are.
pub fn profile_request(api_key: &str, platform: &str, puuid: &str) -> (request: Result<
    ProfileRequest,
    ProfileError,
>)
    ensures
        match request {
            Ok(r) => {
                &&& api_key@.len() > 0 && puuid@.len() > 0
                &&& r.league_url@ == "https://"@ + platform@
                    + ".api.riotgames.com/lol/league/v4/entries/by-puuid/"@ + puuid@
                &&& r.mastery_url@ == "https://"@ + platform@
                    + ".api.riotgames.com/lol/champion-mastery/v4/champion-masteries/by-puuid/"@
                    + puuid@
            },
            Err(ProfileError::MissingCredentials) => api_key@.len() == 0 || puuid@.len() == 0,
        },
{
    if api_key.is_empty() || puuid.is_empty() {
        return Err(ProfileError::MissingCredentials);
    }
    let host = concat("https://", platform);
    Ok(
        ProfileRequest {
            league_url: concat(
                &concat(&host, ".api.riotgames.com/lol/league/v4/entries/by-puuid/"),
                puuid,
            ),
            mastery_url: concat(
                &concat(
                    &host,
                    ".api.riotgames.com/lol/champion-mastery/v4/champion-masteries/by-puuid/",
                ),
                puuid,
            ),
        },
    )
}

/// The entry is of the ranked queue for one player or two.
pub open spec fn is_solo(entry: LeagueEntry) -> bool {
    entry.queue_type matches Some(queue) && queue@ == "RANKED_SOLO_5x5"@
}

/// The first entry of that queue.
pub open spec fn first_solo(entries: Seq<LeagueEntry>) -> Option<LeagueEntry>
    decreases entries.len(),
{
    if entries.len() == 0 {
        None
    } else if is_solo(entries[0]) {
        Some(entries[0])
    } else {
        first_solo(entries.drop_first())
    }
}

/// The tier of a player: by the entry of that queue, else by the first of any.
pub open spec fn tier_of(entries: Seq<LeagueEntry>) -> Option<String> {
    match first_solo(entries) {
        Some(entry) => entry.tier,
        None => if entries.len() > 0 {
            entries[0].tier
        } else {
            None
        },
    }
}

/// The tier of a player.
pub fn profile_tier(entries: &Vec<LeagueEntry>) -> (tier: Option<String>)
    ensures
        tier == tier_of(entries@),
{
    assert(entries@.subrange(0, entries@.len() as int) =~= entries@);
    for i in 0..entries.len()
        invariant
            first_solo(entries@) == first_solo(
                entries@.subrange(i as int, entries@.len() as int),
            ),
    {
        let ghost rest = entries@.subrange(i as int, entries@.len() as int);
        assert(rest.drop_first() =~= entries@.subrange(i + 1, entries@.len() as int));
        if is_same(&entries[i].queue_type, "RANKED_SOLO_5x5") {
            return entries[i].tier.clone();
        }
    }
    if entries.len() > 0 {
        entries[0].tier.clone()
    } else {
        None
    }
}

/// Level and points by champion, by the entries that give all three numbers; the
/// last entry of a champion counts.
pub open spec fn mastery_of(entries: Seq<MasteryEntry>) -> Map<i64, (i64, i64)>
    decreases entries.len(),
{
    if entries.len() == 0 {
        Map::empty()
    } else {
        let before = mastery_of(entries.drop_last());
        let e = entries.last();
        match (e.champion_id, e.champion_level, e.champion_points) {
            (Some(id), Some(level), Some(points)) => before.insert(id, (level, points)),
            _ => before,
        }
    }
}

/// Level and points by champion.
pub fn profile_mastery(entries: &Vec<MasteryEntry>) -> (mastery: HashMap<i64, (i64, i64)>)
    ensures
        mastery@ == mastery_of(entries@),
{
    let mut mastery: HashMap<i64, (i64, i64)> = HashMap::new();
    for i in 0..entries.len()
        invariant
            mastery@ == mastery_of(entries@.take(i as int)),
    {
        assert(entries@.take(i + 1).drop_last() =~= entries@.take(i as int));
        let e = &entries[i];
        if let (Some(id), Some(level), Some(points)) = (
            e.champion_id,
            e.champion_level,
            e.champion_points,
        ) {
            mastery.insert(id, (level, points));
        }
    }
    assert(entries@.take(entries@.len() as int) =~= entries@);
    mastery
}

/// The bracket that a tier falls into.
pub fn tier_to_bracket(tier: &str) -> (bracket: String)
    ensures
        bracket@ == bracket_of(tier@),
{
    crate::settings::tier_to_bracket(tier)
}

// ------------------------------------------------------------------ laws

/// The tier is that of the first entry of the queue for one player or two, whatever stands
/// before it; where there is none, that of the first entry; and there is none only where
/// that entry has none or there is no entry.
pub proof fn law_solo_tier(entries: Seq<LeagueEntry>, at: int)
    ensures
        0 <= at < entries.len() && is_solo(entries[at]) && (forall|j: int|
            0 <= j < at ==> !is_solo(#[trigger] entries[j])) ==> tier_of(entries)
            == entries[at].tier,
        entries.len() > 0 && (forall|j: int|
            0 <= j < entries.len() ==> !is_solo(#[trigger] entries[j])) ==> tier_of(entries)
            == entries[0].tier,
        entries.len() == 0 ==> tier_of(entries) is None,
        is_solo(entries[at]) <==> entries[at].queue_type is Some && entries[at].queue_type->0@
            == "RANKED_SOLO_5x5"@,
{
    lemma_first_solo(entries);
    if let Some(entry) = first_solo(entries) {
        let i = choose|i: int|
            0 <= i < entries.len() && #[trigger] entries[i] == entry && is_solo(entry) && forall|
                j: int,
            |
                0 <= j < i ==> !is_solo(#[trigger] entries[j]);
        if 0 <= at < entries.len() && is_solo(entries[at]) && (forall|j: int|
            0 <= j < at ==> !is_solo(#[trigger] entries[j])) {
            if i < at {
                assert(!is_solo(entries[i]));
            }
            assert(i == at);
        }
        assert(is_solo(entries[i]));
    }
}

proof fn lemma_first_solo(entries: Seq<LeagueEntry>)
    ensures
        match first_solo(entries) {
            Some(entry) => exists|i: int|
                0 <= i < entries.len() && #[trigger] entries[i] == entry && is_solo(entry)
                    && forall|j: int| 0 <= j < i ==> !is_solo(#[trigger] entries[j]),
            None => forall|j: int| 0 <= j < entries.len() ==> !is_solo(#[trigger] entries[j]),
        },
    decreases entries.len(),
{
    if entries.len() > 0 {
        let rest = entries.drop_first();
        if is_solo(entries[0]) {
            assert(entries[0] == entries[0]);
        } else {
            lemma_first_solo(rest);
            match first_solo(rest) {
                Some(entry) => {
                    let i = choose|i: int|
                        0 <= i < rest.len() && #[trigger] rest[i] == entry && is_solo(entry)
                            && forall|j: int| 0 <= j < i ==> !is_solo(#[trigger] rest[j]);
                    assert(entries[i + 1] == entry);
                    assert forall|j: int| 0 <= j < i + 1 implies !is_solo(#[trigger] entries[j]) by {
                        if j > 0 {
                            assert(rest[j - 1] == entries[j]);
                        }
                    }
                },
                None => {
                    assert forall|j: int| 0 <= j < entries.len() implies !is_solo(
                        #[trigger] entries[j],
                    ) by {
                        if j > 0 {
                            assert(rest[j - 1] == entries[j]);
                        }
                    }
                },
            }
        }
    }
}

/// One more entry sets the level and the points of its champion, and of no other; one that
/// lacks a number sets nothing.
pub proof fn law_mastery_entry(entries: Seq<MasteryEntry>, entry: MasteryEntry, id: i64)
    ensures
        mastery_of(Seq::empty()) == Map::<i64, (i64, i64)>::empty(),
        ({
            let before = mastery_of(entries);
            let after = mastery_of(entries.push(entry));
            let full = entry.champion_id is Some && entry.champion_level is Some
                && entry.champion_points is Some;
            if full && entry.champion_id == Some(id) {
                after.contains_key(id) && after[id] == (
                    entry.champion_level->0,
                    entry.champion_points->0,
                )
            } else {
                &&& after.contains_key(id) <==> before.contains_key(id)
                &&& before.contains_key(id) ==> after[id] == before[id]
            }
        }),
{
    assert(entries.push(entry).drop_last() =~= entries);
}

} // verus!
