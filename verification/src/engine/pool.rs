//! Who can be recommended at all.
use crate::catalog::Catalog;
use crate::models::{DraftView, PlayerSlot};
use crate::stats::rows::{pool_view, RoleMeta, RoleMetaView};
use std::collections::{HashMap, HashSet};
use vstd::prelude::*;

verus! {

broadcast use vstd::std_specs::hash::group_hash_axioms;

/// What the ranking is to go by besides the draft.
#[derive(Debug)]
pub struct ScoreContext {
    pub rank: String,
    pub patch: String,
    pub owned_only: bool,
    pub comfort_weighting: bool,
    /// The champions that can be picked; where it is empty, that is not known.
    pub pickable: HashSet<i64>,
    /// The champions that the player owns; where it is empty, that is not known.
    pub owned: HashSet<i64>,
    /// Mastery level and points by champion.
    pub mastery: HashMap<i64, (i64, i64)>,
}

/// The champion has been banned.
pub open spec fn banned(draft: DraftView, id: i64) -> bool {
    id > 0 && draft.bans@.contains(id)
}

/// The slot of the player's own team takes the champion: the player's own by
/// locking it, any other already by showing it.
pub open spec fn ally_takes(slot: PlayerSlot, id: i64) -> bool {
    id > 0 && (if slot.is_local {
        slot.champion_id == id
    } else {
        slot.display_champion_id == id
    })
}

/// The slot of the other team takes the champion by locking it.
pub open spec fn enemy_takes(slot: PlayerSlot, id: i64) -> bool {
    id > 0 && slot.champion_id == id
}

/// The champion is taken by one side or the other.
pub open spec fn taken(draft: DraftView, id: i64) -> bool {
    ||| exists|i: int| 0 <= i < draft.allies@.len() && ally_takes(#[trigger] draft.allies@[i], id)
    ||| exists|i: int|
        0 <= i < draft.enemies@.len() && enemy_takes(#[trigger] draft.enemies@[i], id)
}

/// The champion is known and neither banned nor taken.
pub open spec fn lockable(draft: DraftView, catalog: Catalog, id: i64) -> bool {
    id > 0 && !banned(draft, id) && !taken(draft, id) && catalog.by_id@.contains_key(id)
}

/// Whether the champion has been banned.
pub fn is_banned(draft: &DraftView, id: i64) -> (r: bool)
    ensures
        r == banned(*draft, id),
{
    if id <= 0 {
        return false;
    }
    for i in 0..draft.bans.len()
        invariant
            forall|j: int| 0 <= j < i ==> draft.bans@[j] != id,
            id > 0,
    {
        if draft.bans[i] == id {
            assert(draft.bans@.contains(id));
            return true;
        }
    }
    false
}

/// Whether the champion is taken by one side or the other.
pub fn is_taken(draft: &DraftView, id: i64) -> (r: bool)
    ensures
        r == taken(*draft, id),
{
    for i in 0..draft.allies.len()
        invariant
            forall|j: int| 0 <= j < i ==> !ally_takes(#[trigger] draft.allies@[j], id),
    {
        let slot = &draft.allies[i];
        let shown = if slot.is_local {
            slot.champion_id
        } else {
            slot.display_champion_id
        };
        if id > 0 && shown == id {
            assert(ally_takes(draft.allies@[i as int], id));
            return true;
        }
    }
    for i in 0..draft.enemies.len()
        invariant
            forall|j: int| 0 <= j < i ==> !enemy_takes(#[trigger] draft.enemies@[j], id),
    {
        if id > 0 && draft.enemies[i].champion_id == id {
            assert(enemy_takes(draft.enemies@[i as int], id));
            return true;
        }
    }
    false
}

/// Whether the champion is known and neither banned nor taken.
pub fn still_lockable(draft: &DraftView, catalog: &Catalog, id: i64) -> (r: bool)
    ensures
        r == lockable(*draft, *catalog, id),
{
    id > 0 && !is_banned(draft, id) && !is_taken(draft, id) && catalog.by_id.contains_key(&id)
}

// ------------------------------------------------------------ the candidates

/// The champions of a pool.
pub open spec fn pool_ids(pool: Seq<(i64, RoleMetaView)>) -> Set<i64> {
    Set::new(|id: i64| exists|i: int| 0 <= i < pool.len() && (#[trigger] pool[i]).0 == id)
}

/// One of the champions can still be locked.
pub open spec fn some_lockable(ids: Set<i64>, draft: DraftView, catalog: Catalog) -> bool {
    exists|id: i64| #[trigger] ids.contains(id) && lockable(draft, catalog, id)
}

/// Those of the pool that pass the filter, so long as one of them can still be
/// locked; else the whole pool.
pub open spec fn filtered(
    pool: Set<i64>,
    filter: Set<i64>,
    draft: DraftView,
    catalog: Catalog,
) -> Set<i64> {
    if some_lockable(pool.intersect(filter), draft, catalog) {
        pool.intersect(filter)
    } else {
        pool
    }
}

/// The champions of the pool that are left once what can be picked and, if so
/// wanted, what is owned has been taken into account.
pub open spec fn choices(
    pool: Set<i64>,
    draft: DraftView,
    catalog: Catalog,
    ctx: ScoreContext,
) -> Set<i64> {
    let pickable = if ctx.pickable@.is_empty() {
        pool
    } else {
        filtered(pool, ctx.pickable@, draft, catalog)
    };
    if ctx.owned_only && !ctx.owned@.is_empty() {
        filtered(pickable, ctx.owned@, draft, catalog)
    } else {
        pickable
    }
}

pub(crate) fn distinct_ids(pool: &Vec<(i64, RoleMeta)>) -> (ids: Vec<i64>)
    ensures
        ids@.no_duplicates(),
        ids@.to_set() == pool_ids(pool_view(pool@)),
{
    let mut ids: Vec<i64> = Vec::new();
    let ghost view = pool_view(pool@);
    for i in 0..pool.len()
        invariant
            view == pool_view(pool@),
            ids@.no_duplicates(),
            forall|id: i64|
                ids@.contains(id) <==> exists|j: int| 0 <= j < i && (#[trigger] view[j]).0 == id,
    {
        let id = pool[i].0;
        let ghost before = ids@;
        assert(view[i as int].0 == id);
        let known = holds(&ids, id);
        if !known {
            ids.push(id);
            assert(ids@[before.len() as int] == id);
            assert forall|k: int| 0 <= k < before.len() implies ids@[k] == before[k] by {}
        }
        assert forall|other: i64|
            ids@.contains(other) <==> exists|j: int|
                0 <= j < i + 1 && (#[trigger] view[j]).0 == other by {
            if ids@.contains(other) {
                let k = choose|k: int| 0 <= k < ids@.len() && ids@[k] == other;
                if k < before.len() {
                    assert(before[k] == other);
                    assert(before.contains(other));
                } else {
                    assert(view[i as int].0 == other);
                }
            }
            if before.contains(other) {
                let k = choose|k: int| 0 <= k < before.len() && before[k] == other;
                assert(ids@[k] == other);
            }
        }
    }
    assert(ids@.to_set() =~= pool_ids(view));
    ids
}

fn holds(ids: &Vec<i64>, id: i64) -> (r: bool)
    ensures
        r == ids@.contains(id),
{
    for i in 0..ids.len()
        invariant
            forall|j: int| 0 <= j < i ==> ids@[j] != id,
    {
        if ids[i] == id {
            return true;
        }
    }
    false
}

/// Those of the pool that pass the filter, so long as one of them can still be
/// locked; else the whole pool.
pub fn soft_filter(
    pool: &Vec<i64>,
    filter: &HashSet<i64>,
    draft: &DraftView,
    catalog: &Catalog,
) -> (ids: Vec<i64>)
    requires
        pool@.no_duplicates(),
    ensures
        ids@.no_duplicates(),
        ids@.to_set() == filtered(pool@.to_set(), filter@, *draft, *catalog),
{
    let mut kept: Vec<i64> = Vec::new();
    let mut any = false;
    for i in 0..pool.len()
        invariant
            pool@.no_duplicates(),
            kept@.no_duplicates(),
            forall|id: i64|
                kept@.contains(id) <==> exists|j: int|
                    0 <= j < i && #[trigger] pool@[j] == id && filter@.contains(id),
            any <==> exists|j: int|
                0 <= j < i && filter@.contains(#[trigger] pool@[j]) && lockable(
                    *draft,
                    *catalog,
                    pool@[j],
                ),
    {
        let id = pool[i];
        let ghost before = kept@;
        if filter.contains(&id) {
            if still_lockable(draft, catalog, id) {
                any = true;
            }
            assert(!before.contains(id));
            kept.push(id);
            assert(kept@[before.len() as int] == id);
        }
        assert forall|other: i64|
            kept@.contains(other) <==> exists|j: int|
                0 <= j < i + 1 && #[trigger] pool@[j] == other && filter@.contains(other) by {
            if kept@.contains(other) {
                let k = choose|k: int| 0 <= k < kept@.len() && kept@[k] == other;
                if k < before.len() {
                    assert(before[k] == other);
                    assert(before.contains(other));
                } else {
                    assert(pool@[i as int] == other);
                }
            }
            if before.contains(other) {
                let k = choose|k: int| 0 <= k < before.len() && before[k] == other;
                assert(kept@[k] == other);
            }
        }
    }
    let ghost both = pool@.to_set().intersect(filter@);
    assert(kept@.to_set() =~= both);
    proof {
        if any {
            let j = choose|j: int|
                0 <= j < pool@.len() && filter@.contains(#[trigger] pool@[j]) && lockable(
                    *draft,
                    *catalog,
                    pool@[j],
                );
            assert(both.contains(pool@[j]));
        }
        if some_lockable(both, *draft, *catalog) {
            let id = choose|id: i64| #[trigger] both.contains(id) && lockable(*draft, *catalog, id);
            let j = choose|j: int| 0 <= j < pool@.len() && pool@[j] == id;
            assert(filter@.contains(pool@[j]));
        }
    }
    if any {
        kept
    } else {
        let all = pool.clone();
        assert(all@ =~= pool@);
        all
    }
}

} // verus!
