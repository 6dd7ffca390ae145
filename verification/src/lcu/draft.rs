//! From the client's champion-select session to the draft that is shown.
use crate::lcu::types::{ChampSelectAction, ChampSelectPlayer, ChampSelectSession};
use crate::models::{
    law_role_name_settles, lcu_role_to_stats, lemma_plain_name, role_name, DraftView, PlayerSlot,
};
use crate::text::same;
use vstd::prelude::*;

verus! {

// ---------------------------------------------------------------- the actions

/// The actions of all groups, in order.
pub open spec fn all_actions(groups: Seq<Vec<ChampSelectAction>>) -> Seq<ChampSelectAction>
    decreases groups.len(),
{
    if groups.len() == 0 {
        Seq::empty()
    } else {
        all_actions(groups.drop_last()) + groups.last()@
    }
}

/// The champion of the last pick of a seat that names one and is completed, or
/// that names one and is not; 0 where there is none.
pub open spec fn last_pick(actions: Seq<ChampSelectAction>, cell_id: i64, completed: bool) -> i64
    decreases actions.len(),
{
    if actions.len() == 0 {
        0
    } else {
        let a = actions.last();
        if a.actor_cell_id == cell_id && a.action_type@ == "pick"@ && a.champion_id > 0
            && a.completed == completed {
            a.champion_id
        } else {
            last_pick(actions.drop_last(), cell_id, completed)
        }
    }
}

/// A pick of the seat `cell_id` that is under way.
pub open spec fn is_own_turn(a: ChampSelectAction, cell_id: i64) -> bool {
    a.action_type@ == "pick"@ && a.actor_cell_id == cell_id && a.is_in_progress && !a.completed
}

/// A ban that has been made.
pub open spec fn is_ban(a: ChampSelectAction) -> bool {
    a.action_type@ == "ban"@ && a.completed && a.champion_id > 0
}

/// The pick turn to show after `actions`: the highest turn of a pick so far,
/// but the turn of the seat `cell_id` from where its pick is under way.
pub open spec fn turn_after(actions: Seq<ChampSelectAction>, cell_id: i64) -> i64
    decreases actions.len(),
{
    if actions.len() == 0 {
        0
    } else {
        let before = turn_after(actions.drop_last(), cell_id);
        let a = actions.last();
        if a.action_type@ != "pick"@ || a.pick_turn <= 0 {
            before
        } else if is_own_turn(a, cell_id) || a.pick_turn > before {
            a.pick_turn
        } else {
            before
        }
    }
}

/// The completed and the hovered pick of a seat, over all actions.
pub fn action_champions(session: &ChampSelectSession, cell_id: i64) -> (found: (i64, i64))
    ensures
        found.0 == last_pick(all_actions(session.actions@), cell_id, true),
        found.1 == last_pick(all_actions(session.actions@), cell_id, false),
{
    let mut locked: i64 = 0;
    let mut hover: i64 = 0;
    let ghost mut seen: Seq<ChampSelectAction> = Seq::empty();
    assert(session.actions@.take(0) =~= Seq::empty());
    for g in 0..session.actions.len()
        invariant
            seen == all_actions(session.actions@.take(g as int)),
            locked == last_pick(seen, cell_id, true),
            hover == last_pick(seen, cell_id, false),
    {
        let group = &session.actions[g];
        let ghost before = seen;
        assert(group@.take(0) =~= Seq::empty());
        assert(before + group@.take(0) =~= before);
        for i in 0..group.len()
            invariant
                seen == before + group@.take(i as int),
                locked == last_pick(seen, cell_id, true),
                hover == last_pick(seen, cell_id, false),
        {
            let action = &group[i];
            proof {
                let next = before + group@.take(i + 1);
                assert(next.drop_last() =~= seen);
                assert(next.last() == *action);
                seen = next;
            }
            if action.actor_cell_id == cell_id && same(&action.action_type, "pick")
                && action.champion_id > 0 {
                if action.completed {
                    locked = action.champion_id;
                } else {
                    hover = action.champion_id;
                }
            }
        }
        proof {
            assert(group@.take(group@.len() as int) =~= group@);
            assert(session.actions@.take(g + 1).drop_last() =~= session.actions@.take(g as int));
        }
    }
    assert(session.actions@.take(session.actions@.len() as int) =~= session.actions@);
    (locked, hover)
}

// ------------------------------------------------------------------- the seats

/// The champion that a player has locked: the one in the player's own entry, or
/// else the completed pick of the seat.
pub open spec fn locked_champion(session: ChampSelectSession, player: ChampSelectPlayer) -> i64 {
    if player.champion_id > 0 {
        player.champion_id
    } else {
        last_pick(all_actions(session.actions@), player.cell_id, true)
    }
}

/// The champion that a player declares: the one in the player's own entry, or
/// else the open pick of the seat.
pub open spec fn declared_champion(session: ChampSelectSession, player: ChampSelectPlayer) -> i64 {
    if player.champion_pick_intent > 0 {
        player.champion_pick_intent
    } else {
        last_pick(all_actions(session.actions@), player.cell_id, false)
    }
}

/// The champion to show: the locked one, or else, for an ally, the declared one.
pub open spec fn shown_champion(
    session: ChampSelectSession,
    player: ChampSelectPlayer,
    include_intent: bool,
) -> i64 {
    if locked_champion(session, player) > 0 {
        locked_champion(session, player)
    } else if include_intent {
        declared_champion(session, player)
    } else {
        0
    }
}

/// `slot` is the seat of `player`.
pub open spec fn is_seat_of(
    slot: PlayerSlot,
    session: ChampSelectSession,
    player: ChampSelectPlayer,
    is_local: bool,
    include_intent: bool,
) -> bool {
    &&& slot.cell_id == player.cell_id
    &&& slot.champion_id == locked_champion(session, player)
    &&& slot.intent_id == declared_champion(session, player)
    &&& slot.assigned_position@ == role_name(player.assigned_position@)
    &&& slot.display_champion_id == shown_champion(session, player, include_intent)
    &&& slot.is_local == is_local
}

/// The seat of a player.
pub fn slot_from_player(
    session: &ChampSelectSession,
    player: &ChampSelectPlayer,
    is_local: bool,
    include_intent: bool,
) -> (slot: PlayerSlot)
    ensures
        is_seat_of(slot, *session, *player, is_local, include_intent),
{
    let (action_locked, action_hover) = action_champions(session, player.cell_id);
    let champion_id = if player.champion_id > 0 {
        player.champion_id
    } else {
        action_locked
    };
    let intent_id = if player.champion_pick_intent > 0 {
        player.champion_pick_intent
    } else {
        action_hover
    };
    let display = if champion_id > 0 {
        champion_id
    } else if include_intent {
        intent_id
    } else {
        0
    };
    PlayerSlot {
        cell_id: player.cell_id,
        champion_id,
        intent_id,
        assigned_position: lcu_role_to_stats(&player.assigned_position),
        display_champion_id: display,
        is_local,
    }
}

// -------------------------------------------------------------------- the bans

/// `id` is banned: it is a champion and a team's list or a completed ban names it.
pub open spec fn is_banned(session: ChampSelectSession, id: i64) -> bool {
    &&& id > 0
    &&& {
        ||| session.bans.my_team_bans@.contains(id)
        ||| session.bans.their_team_bans@.contains(id)
        ||| exists|i: int|
            0 <= i < all_actions(session.actions@).len() && is_ban(
                #[trigger] all_actions(session.actions@)[i],
            ) && all_actions(session.actions@)[i].champion_id == id
    }
}

/// Each item is above the one before.
pub open spec fn increasing(ids: Seq<i64>) -> bool {
    forall|i: int, j: int| 0 <= i < j < ids.len() ==> ids[i] < ids[j]
}

/// Puts a champion into a list in increasing order, unless it is there or is none.
fn note_ban(ids: &mut Vec<i64>, id: i64)
    requires
        increasing(old(ids)@),
    ensures
        increasing(final(ids)@),
        forall|x: i64| #[trigger]
            final(ids)@.contains(x) <==> old(ids)@.contains(x) || (x == id && id > 0),
{
    if id <= 0 {
        return;
    }
    let ghost before = ids@;
    let mut at: usize = 0;
    while at < ids.len() && ids[at] < id
        invariant
            ids@ == before,
            at <= before.len(),
            forall|j: int| 0 <= j < at ==> before[j] < id,
        decreases before.len() - at,
    {
        at += 1;
    }
    if at < ids.len() && ids[at] == id {
        assert(before[at as int] == id);
        return;
    }
    ids.insert(at, id);
    proof {
        assert(ids@ == before.insert(at as int, id));
        assert forall|x: i64| #[trigger] ids@.contains(x) <==> before.contains(x) || x == id by {
            if before.contains(x) {
                let k = choose|k: int| 0 <= k < before.len() && before[k] == x;
                if k < at {
                    assert(ids@[k] == x);
                } else {
                    assert(ids@[k + 1] == x);
                }
            }
            if ids@.contains(x) && x != id {
                let k = choose|k: int| 0 <= k < ids@.len() && ids@[k] == x;
                if k < at {
                    assert(before[k] == x);
                } else {
                    assert(before[k - 1] == x);
                }
            }
            assert(ids@[at as int] == id);
        }
    }
}

/// The champions that are banned, in increasing order.
fn banned_champions(session: &ChampSelectSession) -> (ids: Vec<i64>)
    ensures
        increasing(ids@),
        forall|id: i64| #[trigger] ids@.contains(id) <==> is_banned(*session, id),
{
    let mut ids: Vec<i64> = Vec::new();
    let mine = &session.bans.my_team_bans;
    let theirs = &session.bans.their_team_bans;
    for i in 0..mine.len()
        invariant
            increasing(ids@),
            forall|x: i64| #[trigger] ids@.contains(x) <==> x > 0 && mine@.take(i as int).contains(x),
    {
        note_ban(&mut ids, mine[i]);
        proof {
            lemma_take_contains(mine@, i as int);
        }
    }
    assert(mine@.take(mine@.len() as int) =~= mine@);
    for i in 0..theirs.len()
        invariant
            increasing(ids@),
            forall|x: i64| #[trigger]
                ids@.contains(x) <==> x > 0 && (mine@.contains(x) || theirs@.take(
                    i as int,
                ).contains(x)),
    {
        note_ban(&mut ids, theirs[i]);
        proof {
            lemma_take_contains(theirs@, i as int);
        }
    }
    assert(theirs@.take(theirs@.len() as int) =~= theirs@);
    let ghost mut seen: Seq<ChampSelectAction> = Seq::empty();
    assert(session.actions@.take(0) =~= Seq::empty());
    for g in 0..session.actions.len()
        invariant
            increasing(ids@),
            seen == all_actions(session.actions@.take(g as int)),
            forall|x: i64| #[trigger]
                ids@.contains(x) <==> x > 0 && (mine@.contains(x) || theirs@.contains(x)
                    || bans_name(seen, x)),
    {
        let group = &session.actions[g];
        let ghost before = seen;
        assert(before + group@.take(0) =~= before);
        for i in 0..group.len()
            invariant
                increasing(ids@),
                seen == before + group@.take(i as int),
                forall|x: i64| #[trigger]
                    ids@.contains(x) <==> x > 0 && (mine@.contains(x) || theirs@.contains(x)
                        || bans_name(seen, x)),
        {
            let action = &group[i];
            proof {
                let next = before + group@.take(i + 1);
                assert(next =~= seen.push(*action));
                lemma_bans_push(seen, *action);
                seen = next;
            }
            if same(&action.action_type, "ban") && action.completed && action.champion_id > 0 {
                note_ban(&mut ids, action.champion_id);
            }
        }
        proof {
            assert(group@.take(group@.len() as int) =~= group@);
            assert(session.actions@.take(g + 1).drop_last() =~= session.actions@.take(g as int));
        }
    }
    assert(session.actions@.take(session.actions@.len() as int) =~= session.actions@);
    ids
}

/// A completed ban among `actions` names `id`.
spec fn bans_name(actions: Seq<ChampSelectAction>, id: i64) -> bool {
    exists|i: int|
        0 <= i < actions.len() && is_ban(#[trigger] actions[i]) && actions[i].champion_id == id
}

proof fn lemma_bans_push(actions: Seq<ChampSelectAction>, a: ChampSelectAction)
    ensures
        forall|id: i64| #[trigger]
            bans_name(actions.push(a), id) <==> bans_name(actions, id) || (is_ban(a)
                && a.champion_id == id),
{
    let more = actions.push(a);
    assert forall|id: i64| #[trigger] bans_name(more, id) <==> bans_name(actions, id) || (is_ban(a)
        && a.champion_id == id) by {
        if bans_name(actions, id) {
            let i = choose|i: int|
                0 <= i < actions.len() && is_ban(#[trigger] actions[i]) && actions[i].champion_id
                    == id;
            assert(more[i] == actions[i]);
        }
        if is_ban(a) && a.champion_id == id {
            assert(more[actions.len() as int] == a);
        }
        if bans_name(more, id) {
            let i = choose|i: int|
                0 <= i < more.len() && is_ban(#[trigger] more[i]) && more[i].champion_id == id;
            if i < actions.len() {
                assert(actions[i] == more[i]);
            }
        }
    }
}

proof fn lemma_take_contains(ids: Seq<i64>, i: int)
    requires
        0 <= i < ids.len(),
    ensures
        forall|x: i64| #[trigger]
            ids.take(i + 1).contains(x) <==> ids.take(i).contains(x) || x == ids[i],
{
    let (short, long) = (ids.take(i), ids.take(i + 1));
    assert forall|x: i64| #[trigger] long.contains(x) <==> short.contains(x) || x == ids[i] by {
        if short.contains(x) {
            let k = choose|k: int| 0 <= k < short.len() && short[k] == x;
            assert(long[k] == x);
        }
        if x == ids[i] {
            assert(long[i] == x);
        }
        if long.contains(x) {
            let k = choose|k: int| 0 <= k < long.len() && long[k] == x;
            if k < i {
                assert(short[k] == x);
            }
        }
    }
}

// ------------------------------------------------------------------- the turn

/// The pick turn to show, and whether the local player is to pick now.
fn turn_of(session: &ChampSelectSession) -> (turn: (i64, bool))
    ensures
        turn.0 == turn_after(all_actions(session.actions@), session.local_player_cell_id),
        turn.1 == has_own_turn(all_actions(session.actions@), session.local_player_cell_id),
{
    let local_id = session.local_player_cell_id;
    let mut pick_turn: i64 = 0;
    let mut is_our_turn: bool = false;
    let ghost mut seen: Seq<ChampSelectAction> = Seq::empty();
    assert(session.actions@.take(0) =~= Seq::empty());
    for g in 0..session.actions.len()
        invariant
            local_id == session.local_player_cell_id,
            seen == all_actions(session.actions@.take(g as int)),
            pick_turn == turn_after(seen, local_id),
            is_our_turn == has_own_turn(seen, local_id),
    {
        let group = &session.actions[g];
        let ghost before = seen;
        assert(before + group@.take(0) =~= before);
        for i in 0..group.len()
            invariant
                seen == before + group@.take(i as int),
                pick_turn == turn_after(seen, local_id),
                is_our_turn == has_own_turn(seen, local_id),
        {
            let action = &group[i];
            proof {
                let next = before + group@.take(i + 1);
                assert(next =~= seen.push(*action));
                assert(next.drop_last() =~= seen);
                lemma_own_turn_push(seen, *action, local_id);
                seen = next;
            }
            if same(&action.action_type, "pick") {
                if action.pick_turn > 0 && action.pick_turn > pick_turn {
                    pick_turn = action.pick_turn;
                }
                if action.actor_cell_id == local_id && action.is_in_progress && !action.completed {
                    is_our_turn = true;
                    if action.pick_turn > 0 {
                        pick_turn = action.pick_turn;
                    }
                }
            }
        }
        proof {
            assert(group@.take(group@.len() as int) =~= group@);
            assert(session.actions@.take(g + 1).drop_last() =~= session.actions@.take(g as int));
        }
    }
    assert(session.actions@.take(session.actions@.len() as int) =~= session.actions@);
    (pick_turn, is_our_turn)
}

/// A pick of the seat `cell_id` is under way.
pub open spec fn has_own_turn(actions: Seq<ChampSelectAction>, cell_id: i64) -> bool {
    exists|i: int| 0 <= i < actions.len() && is_own_turn(#[trigger] actions[i], cell_id)
}

proof fn lemma_own_turn_push(actions: Seq<ChampSelectAction>, a: ChampSelectAction, cell_id: i64)
    ensures
        has_own_turn(actions.push(a), cell_id) <==> has_own_turn(actions, cell_id) || is_own_turn(
            a,
            cell_id,
        ),
{
    let more = actions.push(a);
    if has_own_turn(actions, cell_id) {
        let i = choose|i: int| 0 <= i < actions.len() && is_own_turn(#[trigger] actions[i], cell_id);
        assert(more[i] == actions[i]);
    }
    if is_own_turn(a, cell_id) {
        assert(more[actions.len() as int] == a);
    }
    if has_own_turn(more, cell_id) {
        let i = choose|i: int| 0 <= i < more.len() && is_own_turn(#[trigger] more[i], cell_id);
        if i < actions.len() {
            assert(actions[i] == more[i]);
        }
    }
}

// ------------------------------------------------------------------ the draft

/// The first player of `team` in the seat `cell_id`.
pub open spec fn seated(team: Seq<ChampSelectPlayer>, cell_id: i64) -> Option<ChampSelectPlayer>
    decreases team.len(),
{
    if team.len() == 0 {
        None
    } else if team[0].cell_id == cell_id {
        Some(team[0])
    } else {
        seated(team.drop_first(), cell_id)
    }
}

/// The role that the local player is assigned, or else the one to fall back on;
/// empty where neither names one.
pub open spec fn own_role(session: ChampSelectSession, role_override: Seq<char>) -> Seq<char> {
    match seated(session.my_team@, session.local_player_cell_id) {
        Some(player) => if role_name(player.assigned_position@).len() > 0 {
            role_name(player.assigned_position@)
        } else {
            role_name(role_override)
        },
        None => role_name(role_override),
    }
}

/// The seats of our team.
pub open spec fn are_allies(slots: Seq<PlayerSlot>, session: ChampSelectSession) -> bool {
    &&& slots.len() == session.my_team@.len()
    &&& forall|i: int|
        0 <= i < slots.len() ==> is_seat_of(
            #[trigger] slots[i],
            session,
            session.my_team@[i],
            session.my_team@[i].cell_id == session.local_player_cell_id,
            true,
        )
}

/// The seats of the other team.
pub open spec fn are_enemies(slots: Seq<PlayerSlot>, session: ChampSelectSession) -> bool {
    &&& slots.len() == session.their_team@.len()
    &&& forall|i: int|
        0 <= i < slots.len() ==> is_seat_of(
            #[trigger] slots[i],
            session,
            session.their_team@[i],
            false,
            false,
        )
}

/// How many of `slots` have a champion locked, the local player left out where
/// `others_only` says so.
pub open spec fn locked_count(slots: Seq<PlayerSlot>, others_only: bool) -> nat
    decreases slots.len(),
{
    if slots.len() == 0 {
        0
    } else {
        let s = slots.last();
        locked_count(slots.drop_last(), others_only) + if s.champion_id > 0 && !(others_only
            && s.is_local) {
            1nat
        } else {
            0nat
        }
    }
}

/// The champion of the first enemy in the role `role` who has locked one.
pub open spec fn lane_enemy(slots: Seq<PlayerSlot>, role: Seq<char>) -> Option<i64>
    decreases slots.len(),
{
    if slots.len() == 0 {
        None
    } else if role_name(slots[0].assigned_position@) == role && slots[0].champion_id > 0 {
        Some(slots[0].champion_id)
    } else {
        lane_enemy(slots.drop_first(), role)
    }
}

fn find_seated(team: &Vec<ChampSelectPlayer>, cell_id: i64) -> (found: Option<&ChampSelectPlayer>)
    ensures
        match found {
            Some(player) => seated(team@, cell_id) == Some(*player),
            None => seated(team@, cell_id) is None,
        },
{
    assert(team@.subrange(0, team@.len() as int) =~= team@);
    for i in 0..team.len()
        invariant
            seated(team@, cell_id) == seated(team@.subrange(i as int, team@.len() as int), cell_id),
    {
        if team[i].cell_id == cell_id {
            return Some(&team[i]);
        }
        assert(team@.subrange(i as int, team@.len() as int).drop_first() =~= team@.subrange(
            i + 1,
            team@.len() as int,
        ));
    }
    None
}

fn count_locked(slots: &Vec<PlayerSlot>, others_only: bool) -> (n: usize)
    ensures
        n == locked_count(slots@, others_only),
{
    let mut n: usize = 0;
    assert(slots@.take(0) =~= Seq::empty());
    for i in 0..slots.len()
        invariant
            n <= i,
            n == locked_count(slots@.take(i as int), others_only),
    {
        assert(slots@.take(i + 1).drop_last() =~= slots@.take(i as int));
        if slots[i].champion_id > 0 && !(others_only && slots[i].is_local) {
            n += 1;
        }
    }
    assert(slots@.take(slots@.len() as int) =~= slots@);
    n
}

fn find_lane_enemy(slots: &Vec<PlayerSlot>, role: &str) -> (found: Option<i64>)
    ensures
        found == lane_enemy(slots@, role@),
{
    assert(slots@.subrange(0, slots@.len() as int) =~= slots@);
    for i in 0..slots.len()
        invariant
            lane_enemy(slots@, role@) == lane_enemy(
                slots@.subrange(i as int, slots@.len() as int),
                role@,
            ),
    {
        let position = lcu_role_to_stats(&slots[i].assigned_position);
        if same(&position, role) && slots[i].champion_id > 0 {
            return Some(slots[i].champion_id);
        }
        assert(slots@.subrange(i as int, slots@.len() as int).drop_first() =~= slots@.subrange(
            i + 1,
            slots@.len() as int,
        ));
    }
    None
}

/// `draft` is what `session` says, with `role_override` as the role to fall back
/// on and the middle lane where that names none either.
pub open spec fn is_draft_of(
    draft: DraftView,
    session: ChampSelectSession,
    role_override: Seq<char>,
) -> bool {
    let role = own_role(session, role_override);
    let actions = all_actions(session.actions@);
    &&& draft.role@ == if role.len() == 0 {
        "middle"@
    } else {
        role
    }
    &&& draft.pick_turn == turn_after(actions, session.local_player_cell_id)
    &&& draft.is_our_turn == has_own_turn(actions, session.local_player_cell_id)
    &&& draft.phase@ == session.timer.phase@
    &&& draft.seconds_left == if session.timer.adjusted_time_left_in_phase_in_sec > 0 {
        session.timer.adjusted_time_left_in_phase_in_sec
    } else {
        session.timer.time_left_in_phase_in_sec
    }
    &&& are_allies(draft.allies@, session)
    &&& are_enemies(draft.enemies@, session)
    &&& increasing(draft.bans@)
    &&& forall|id: i64| #[trigger] draft.bans@.contains(id) <==> is_banned(session, id)
    &&& draft.enemies_locked == locked_count(draft.enemies@, false)
    &&& draft.allies_locked == locked_count(draft.allies@, true)
    &&& draft.lane_enemy_id == lane_enemy(draft.enemies@, role)
}

/// The draft that a champion-select session shows.
pub fn draft_from_session(session: &ChampSelectSession, role_override: &str) -> (draft: DraftView)
    ensures
        is_draft_of(draft, *session, role_override@),
{
    let local_id = session.local_player_cell_id;
    let own: String = match find_seated(&session.my_team, local_id) {
        Some(player) => lcu_role_to_stats(&player.assigned_position),
        None => String::new(),
    };
    let assigned: String = if own.as_str().is_empty() {
        lcu_role_to_stats(role_override)
    } else {
        own
    };

    let mut allies: Vec<PlayerSlot> = Vec::new();
    for i in 0..session.my_team.len()
        invariant
            local_id == session.local_player_cell_id,
            allies@.len() == i,
            forall|j: int|
                0 <= j < i ==> is_seat_of(
                    #[trigger] allies@[j],
                    *session,
                    session.my_team@[j],
                    session.my_team@[j].cell_id == local_id,
                    true,
                ),
    {
        let player = &session.my_team[i];
        allies.push(slot_from_player(session, player, player.cell_id == local_id, true));
    }
    let mut enemies: Vec<PlayerSlot> = Vec::new();
    for i in 0..session.their_team.len()
        invariant
            enemies@.len() == i,
            forall|j: int|
                0 <= j < i ==> is_seat_of(
                    #[trigger] enemies@[j],
                    *session,
                    session.their_team@[j],
                    false,
                    false,
                ),
    {
        enemies.push(slot_from_player(session, &session.their_team[i], false, false));
    }

    let bans = banned_champions(session);
    let (pick_turn, is_our_turn) = turn_of(session);
    let enemies_locked = count_locked(&enemies, false);
    let allies_locked = count_locked(&allies, true);
    let lane_enemy_id = find_lane_enemy(&enemies, &assigned);

    DraftView {
        role: if assigned.as_str().is_empty() {
            "middle".to_string()
        } else {
            assigned
        },
        pick_turn,
        is_our_turn,
        phase: session.timer.phase.clone(),
        seconds_left: if session.timer.adjusted_time_left_in_phase_in_sec > 0 {
            session.timer.adjusted_time_left_in_phase_in_sec
        } else {
            session.timer.time_left_in_phase_in_sec
        },
        allies,
        enemies,
        bans,
        enemies_locked,
        allies_locked,
        lane_enemy_id,
    }
}

// ------------------------------------------------------------------------ laws

/// What the other team is only hovering over is not shown: an enemy's seat shows
/// the champion that is locked there, or none.
pub proof fn law_enemy_hovers_are_hidden(
    draft: DraftView,
    session: ChampSelectSession,
    role_override: Seq<char>,
    i: int,
)
    requires
        is_draft_of(draft, session, role_override),
        0 <= i < draft.enemies@.len(),
    ensures
        draft.enemies@[i].display_champion_id == (if draft.enemies@[i].champion_id > 0 {
            draft.enemies@[i].champion_id
        } else {
            0
        }),
{
}

/// The lane opponent is an enemy who has locked a champion.
pub proof fn law_lane_enemy_is_locked(
    draft: DraftView,
    session: ChampSelectSession,
    role_override: Seq<char>,
)
    requires
        is_draft_of(draft, session, role_override),
    ensures
        draft.lane_enemy_id matches Some(id) ==> id > 0 && exists|i: int|
            0 <= i < draft.enemies@.len() && (#[trigger] draft.enemies@[i]).champion_id == id,
{
    lemma_lane_enemy(draft.enemies@, own_role(session, role_override));
}

proof fn lemma_lane_enemy(slots: Seq<PlayerSlot>, role: Seq<char>)
    ensures
        lane_enemy(slots, role) matches Some(id) ==> id > 0 && exists|i: int|
            0 <= i < slots.len() && (#[trigger] slots[i]).champion_id == id,
    decreases slots.len(),
{
    if slots.len() > 0 {
        if role_name(slots[0].assigned_position@) == role && slots[0].champion_id > 0 {
            assert(slots[0].champion_id == slots[0].champion_id);
        } else {
            let rest = slots.drop_first();
            lemma_lane_enemy(rest, role);
            if let Some(id) = lane_enemy(rest, role) {
                let i = choose|i: int|
                    0 <= i < rest.len() && (#[trigger] rest[i]).champion_id == id;
                assert(slots[i + 1].champion_id == id);
            }
        }
    }
}

/// Every draft is for a role that has a name.
pub proof fn law_draft_has_a_role(
    draft: DraftView,
    session: ChampSelectSession,
    role_override: Seq<char>,
)
    requires
        is_draft_of(draft, session, role_override),
    ensures
        draft.role@.len() > 0,
        role_name(draft.role@) == draft.role@,
{
    reveal_strlit("middle");
    lemma_plain_name("middle"@);
    match seated(session.my_team@, session.local_player_cell_id) {
        Some(player) => {
            law_role_name_settles(player.assigned_position@);
        },
        None => {},
    }
    law_role_name_settles(role_override);
}

} // verus!
