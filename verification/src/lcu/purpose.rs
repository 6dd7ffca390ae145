//! What the draft is for, told of the client's session and the draft alone.
use crate::lcu::draft::{
    all_actions, has_own_turn, is_draft_of, is_own_turn, is_seat_of, lane_enemy, last_pick,
    locked_count, own_role, seated, turn_after,
};
use crate::lcu::types::{ChampSelectAction, ChampSelectPlayer, ChampSelectSession};
use crate::models::{law_role_name_settles, role_name, DraftView, PlayerSlot};
use vstd::prelude::*;

verus! {

// ---------------------------------------------------------------- the actions

/// The actions of a session are those of its groups one after the other: another group
/// comes at the end, and without groups there are none.
pub proof fn law_actions_in_order(
    groups: Seq<Vec<ChampSelectAction>>,
    group: Vec<ChampSelectAction>,
)
    ensures
        all_actions(Seq::empty()).len() == 0,
        all_actions(groups.push(group)) == all_actions(groups) + group@,
{
    assert(groups.push(group).drop_last() =~= groups);
}

/// The action is a pick of the seat that names a champion.
pub open spec fn names_pick(a: ChampSelectAction, cell_id: i64) -> bool {
    a.actor_cell_id == cell_id && a.action_type@ == "pick"@ && a.champion_id > 0
}

/// What a seat has picked is the champion of the last of its picks that are completed,
/// and what it hovers over that of the last that are not; nothing where there is none.
pub proof fn law_last_pick(actions: Seq<ChampSelectAction>, cell_id: i64, completed: bool)
    ensures
        last_pick(actions, cell_id, completed) == 0 <==> forall|i: int|
            0 <= i < actions.len() ==> !(names_pick(#[trigger] actions[i], cell_id)
                && actions[i].completed == completed),
        last_pick(actions, cell_id, completed) != 0 ==> exists|i: int|
            0 <= i < actions.len() && names_pick(#[trigger] actions[i], cell_id)
                && actions[i].completed == completed && actions[i].champion_id == last_pick(
                actions,
                cell_id,
                completed,
            ) && forall|j: int|
                i < j < actions.len() ==> !(names_pick(#[trigger] actions[j], cell_id)
                    && actions[j].completed == completed),
        last_pick(actions, cell_id, completed) >= 0,
    decreases actions.len(),
{
    if actions.len() > 0 {
        let rest = actions.drop_last();
        let a = actions.last();
        law_last_pick(rest, cell_id, completed);
        let last = actions.len() - 1;
        if names_pick(a, cell_id) && a.completed == completed {
            assert(actions[last] == a);
        } else {
            let found = last_pick(rest, cell_id, completed);
            if found != 0 {
                let i = choose|i: int|
                    0 <= i < rest.len() && names_pick(#[trigger] rest[i], cell_id)
                        && rest[i].completed == completed && rest[i].champion_id == found
                        && forall|j: int|
                        i < j < rest.len() ==> !(names_pick(#[trigger] rest[j], cell_id)
                            && rest[j].completed == completed);
                assert(actions[i] == rest[i]);
                assert forall|j: int| i < j < actions.len() implies !(names_pick(
                    #[trigger] actions[j],
                    cell_id,
                ) && actions[j].completed == completed) by {
                    if j < last {
                        assert(rest[j] == actions[j]);
                    }
                }
            } else {
                assert forall|i: int| 0 <= i < actions.len() implies !(names_pick(
                    #[trigger] actions[i],
                    cell_id,
                ) && actions[i].completed == completed) by {
                    if i < last {
                        assert(rest[i] == actions[i]);
                    }
                }
            }
        }
    }
}

// ------------------------------------------------------------------- the seats

/// A seat is its player's: where the player's own entry names a champion or an intent,
/// that is the seat's, and else the one that the seat's own actions name. Whoever sits
/// there, a locked champion is the one that is shown; only where none is locked is an
/// intent shown, and only of those whose intents are wanted.
pub proof fn law_seat(
    slot: PlayerSlot,
    session: ChampSelectSession,
    player: ChampSelectPlayer,
    is_local: bool,
    include_intent: bool,
)
    requires
        is_seat_of(slot, session, player, is_local, include_intent),
    ensures
        slot.cell_id == player.cell_id,
        slot.is_local == is_local,
        slot.assigned_position@ == role_name(player.assigned_position@),
        player.champion_id > 0 ==> slot.champion_id == player.champion_id,
        player.champion_id <= 0 ==> slot.champion_id == last_pick(
            all_actions(session.actions@),
            player.cell_id,
            true,
        ),
        player.champion_pick_intent > 0 ==> slot.intent_id == player.champion_pick_intent,
        player.champion_pick_intent <= 0 ==> slot.intent_id == last_pick(
            all_actions(session.actions@),
            player.cell_id,
            false,
        ),
        slot.champion_id > 0 ==> slot.display_champion_id == slot.champion_id,
        slot.champion_id <= 0 && include_intent ==> slot.display_champion_id == slot.intent_id,
        slot.champion_id <= 0 && !include_intent ==> slot.display_champion_id == 0,
        slot.champion_id >= 0,
        slot.intent_id >= 0,
{
    law_last_pick(all_actions(session.actions@), player.cell_id, true);
    law_last_pick(all_actions(session.actions@), player.cell_id, false);
}

/// On both sides a locked champion is shown, whatever else was declared. An ally who has
/// locked none is shown with the declared one, and an enemy with none.
pub proof fn law_locked_is_shown(
    draft: DraftView,
    session: ChampSelectSession,
    role_override: Seq<char>,
)
    requires
        is_draft_of(draft, session, role_override),
    ensures
        forall|i: int|
            0 <= i < draft.allies@.len() && (#[trigger] draft.allies@[i]).champion_id > 0
                ==> draft.allies@[i].display_champion_id == draft.allies@[i].champion_id,
        forall|i: int|
            0 <= i < draft.allies@.len() && (#[trigger] draft.allies@[i]).champion_id == 0
                ==> draft.allies@[i].display_champion_id == draft.allies@[i].intent_id,
        forall|i: int|
            0 <= i < draft.enemies@.len() ==> (#[trigger] draft.enemies@[i]).display_champion_id
                == draft.enemies@[i].champion_id,
        forall|i: int|
            0 <= i < draft.allies@.len() ==> (#[trigger] draft.allies@[i]).champion_id >= 0,
        forall|i: int|
            0 <= i < draft.enemies@.len() ==> (#[trigger] draft.enemies@[i]).champion_id >= 0,
{
    assert forall|i: int| 0 <= i < draft.allies@.len() implies (
    #[trigger] draft.allies@[i]).champion_id >= 0 by {
        let player = session.my_team@[i];
        law_seat(
            draft.allies@[i],
            session,
            player,
            player.cell_id == session.local_player_cell_id,
            true,
        );
    }
    assert forall|i: int| 0 <= i < draft.enemies@.len() implies (
    #[trigger] draft.enemies@[i]).champion_id >= 0 && draft.enemies@[i].display_champion_id
        == draft.enemies@[i].champion_id by {
        law_seat(draft.enemies@[i], session, session.their_team@[i], false, false);
    }
}

/// Our team are the allies and the other one the enemies, seat by seat. The local player
/// is the ally in the local seat, and no enemy.
pub proof fn law_sides(draft: DraftView, session: ChampSelectSession, role_override: Seq<char>)
    requires
        is_draft_of(draft, session, role_override),
    ensures
        draft.allies@.len() == session.my_team@.len(),
        draft.enemies@.len() == session.their_team@.len(),
        forall|i: int|
            0 <= i < draft.allies@.len() ==> {
                let (slot, player) = (#[trigger] draft.allies@[i], session.my_team@[i]);
                &&& slot.cell_id == player.cell_id
                &&& slot.is_local <==> player.cell_id == session.local_player_cell_id
                &&& slot.assigned_position@ == role_name(player.assigned_position@)
                &&& player.champion_id > 0 ==> slot.champion_id == player.champion_id
                &&& player.champion_id <= 0 && player.champion_pick_intent > 0
                    ==> slot.intent_id == player.champion_pick_intent
            },
        forall|i: int|
            0 <= i < draft.enemies@.len() ==> {
                let (slot, player) = (#[trigger] draft.enemies@[i], session.their_team@[i]);
                &&& slot.cell_id == player.cell_id
                &&& !slot.is_local
                &&& slot.assigned_position@ == role_name(player.assigned_position@)
                &&& player.champion_id > 0 ==> slot.champion_id == player.champion_id
            },
{
}

/// A completed pick of a seat counts as locked though the player's own entry names
/// nobody yet.
pub proof fn law_completed_pick_is_locked(
    draft: DraftView,
    session: ChampSelectSession,
    role_override: Seq<char>,
    i: int,
    k: int,
)
    requires
        is_draft_of(draft, session, role_override),
        0 <= i < draft.enemies@.len(),
        0 <= k < all_actions(session.actions@).len(),
        names_pick(all_actions(session.actions@)[k], draft.enemies@[i].cell_id),
        all_actions(session.actions@)[k].completed,
    ensures
        draft.enemies@[i].champion_id > 0,
{
    law_last_pick(all_actions(session.actions@), draft.enemies@[i].cell_id, true);
}

// -------------------------------------------------------------------- the bans

/// Exactly those champions are banned that a team's list or a completed ban names, each
/// once and in increasing order.
pub proof fn law_bans(
    draft: DraftView,
    session: ChampSelectSession,
    role_override: Seq<char>,
    id: i64,
)
    requires
        is_draft_of(draft, session, role_override),
    ensures
        draft.bans@.contains(id) <==> id > 0 && (session.bans.my_team_bans@.contains(id)
            || session.bans.their_team_bans@.contains(id) || exists|i: int|
            0 <= i < all_actions(session.actions@).len() && (
            #[trigger] all_actions(session.actions@)[i]).action_type@ == "ban"@
                && all_actions(session.actions@)[i].completed
                && all_actions(session.actions@)[i].champion_id == id),
        forall|i: int, j: int| 0 <= i < j < draft.bans@.len() ==> draft.bans@[i] < draft.bans@[j],
{
}

// ------------------------------------------------------------------- the turn

/// The action is a pick with a turn.
pub open spec fn has_turn(a: ChampSelectAction) -> bool {
    a.action_type@ == "pick"@ && a.pick_turn > 0
}

/// While no pick of the seat is under way, the turn is the highest of the picks.
pub proof fn law_turn_is_highest(actions: Seq<ChampSelectAction>, cell_id: i64)
    requires
        !has_own_turn(actions, cell_id),
    ensures
        turn_after(actions, cell_id) >= 0,
        forall|i: int|
            0 <= i < actions.len() && has_turn(#[trigger] actions[i]) ==> actions[i].pick_turn
                <= turn_after(actions, cell_id),
        turn_after(actions, cell_id) > 0 ==> exists|i: int|
            0 <= i < actions.len() && has_turn(#[trigger] actions[i]) && actions[i].pick_turn
                == turn_after(actions, cell_id),
    decreases actions.len(),
{
    if actions.len() > 0 {
        let rest = actions.drop_last();
        let last = actions.len() - 1;
        assert forall|i: int| 0 <= i < rest.len() implies !is_own_turn(#[trigger] rest[i], cell_id) by {
            assert(rest[i] == actions[i]);
            assert(!is_own_turn(actions[i], cell_id));
        }
        law_turn_is_highest(rest, cell_id);
        assert(!is_own_turn(actions[last], cell_id));
        let turn = turn_after(actions, cell_id);
        assert forall|i: int| 0 <= i < actions.len() && has_turn(#[trigger] actions[i]) implies
            actions[i].pick_turn <= turn by {
            if i < last {
                assert(rest[i] == actions[i]);
            }
        }
        if turn > 0 {
            if has_turn(actions[last]) && actions[last].pick_turn == turn {
            } else {
                let i = choose|i: int|
                    0 <= i < rest.len() && has_turn(#[trigger] rest[i]) && rest[i].pick_turn
                        == turn_after(rest, cell_id);
                assert(actions[i] == rest[i]);
            }
        }
    }
}

/// A pick of the seat that is under way and has a turn sets the turn, whatever came
/// before it, and a later one of someone else changes that only by a higher turn.
pub proof fn law_own_turn_counts(actions: Seq<ChampSelectAction>, cell_id: i64, at: int)
    requires
        0 <= at < actions.len(),
        is_own_turn(actions[at], cell_id),
        has_turn(actions[at]),
        forall|i: int|
            at < i < actions.len() ==> !is_own_turn(#[trigger] actions[i], cell_id) && (has_turn(
                actions[i],
            ) ==> actions[i].pick_turn <= actions[at].pick_turn),
    ensures
        turn_after(actions, cell_id) == actions[at].pick_turn,
    decreases actions.len(),
{
    let last = actions.len() - 1;
    if at < last {
        let rest = actions.drop_last();
        assert(rest[at] == actions[at]);
        assert forall|i: int| at < i < rest.len() implies !is_own_turn(#[trigger] rest[i], cell_id)
            && (has_turn(rest[i]) ==> rest[i].pick_turn <= rest[at].pick_turn) by {
            assert(rest[i] == actions[i]);
        }
        law_own_turn_counts(rest, cell_id, at);
        assert(!is_own_turn(actions[last], cell_id));
    }
}

/// It is the local player's turn exactly while a pick of the local seat is in progress
/// and not completed.
pub proof fn law_our_turn(draft: DraftView, session: ChampSelectSession, role_override: Seq<char>)
    requires
        is_draft_of(draft, session, role_override),
    ensures
        draft.pick_turn == turn_after(
            all_actions(session.actions@),
            session.local_player_cell_id,
        ),
        draft.is_our_turn <==> exists|i: int|
            0 <= i < all_actions(session.actions@).len() && (
            #[trigger] all_actions(session.actions@)[i]).action_type@ == "pick"@
                && all_actions(session.actions@)[i].actor_cell_id == session.local_player_cell_id
                && all_actions(session.actions@)[i].is_in_progress
                && !all_actions(session.actions@)[i].completed,
{
    let actions = all_actions(session.actions@);
    let cell_id = session.local_player_cell_id;
    if draft.is_our_turn {
        let i = choose|i: int| 0 <= i < actions.len() && is_own_turn(#[trigger] actions[i], cell_id);
        assert(actions[i].action_type@ == "pick"@);
    }
    if exists|i: int|
        0 <= i < actions.len() && (#[trigger] actions[i]).action_type@ == "pick"@
            && actions[i].actor_cell_id == cell_id && actions[i].is_in_progress
            && !actions[i].completed {
        let i = choose|i: int|
            0 <= i < actions.len() && (#[trigger] actions[i]).action_type@ == "pick"@
                && actions[i].actor_cell_id == cell_id && actions[i].is_in_progress
                && !actions[i].completed;
        assert(is_own_turn(actions[i], cell_id));
    }
}

// ------------------------------------------------------------------ the draft

proof fn lemma_locked_count(
    slots: Seq<PlayerSlot>,
    others_only: bool,
    counts: spec_fn(PlayerSlot) -> bool,
)
    requires
        forall|slot: PlayerSlot| #[trigger]
            counts(slot) <==> slot.champion_id > 0 && !(others_only && slot.is_local),
    ensures
        locked_count(slots, others_only) == slots.filter(counts).len(),
    decreases slots.len(),
{
    reveal(Seq::filter);
    if slots.len() > 0 {
        lemma_locked_count(slots.drop_last(), others_only, counts);
    }
}

/// The counts are of the enemies who have locked a champion, and of the allies who have,
/// the local player left out.
pub proof fn law_locked_counts(
    draft: DraftView,
    session: ChampSelectSession,
    role_override: Seq<char>,
)
    requires
        is_draft_of(draft, session, role_override),
    ensures
        draft.enemies_locked == draft.enemies@.filter(
            |slot: PlayerSlot| slot.champion_id > 0,
        ).len(),
        draft.allies_locked == draft.allies@.filter(
            |slot: PlayerSlot| slot.champion_id > 0 && !slot.is_local,
        ).len(),
{
    lemma_locked_count(draft.enemies@, false, |slot: PlayerSlot| slot.champion_id > 0);
    lemma_locked_count(
        draft.allies@,
        true,
        |slot: PlayerSlot| slot.champion_id > 0 && !slot.is_local,
    );
}

/// The first player in a seat is found, and none where nobody sits there.
pub proof fn law_seated(team: Seq<ChampSelectPlayer>, cell_id: i64)
    ensures
        match seated(team, cell_id) {
            Some(player) => exists|i: int|
                0 <= i < team.len() && #[trigger] team[i] == player && player.cell_id == cell_id
                    && forall|j: int| 0 <= j < i ==> (#[trigger] team[j]).cell_id != cell_id,
            None => forall|i: int| 0 <= i < team.len() ==> (#[trigger] team[i]).cell_id != cell_id,
        },
    decreases team.len(),
{
    if team.len() > 0 {
        if team[0].cell_id == cell_id {
            assert(team[0] == team[0]);
        } else {
            let rest = team.drop_first();
            law_seated(rest, cell_id);
            match seated(rest, cell_id) {
                Some(player) => {
                    let i = choose|i: int|
                        0 <= i < rest.len() && #[trigger] rest[i] == player && player.cell_id
                            == cell_id && forall|j: int|
                            0 <= j < i ==> (#[trigger] rest[j]).cell_id != cell_id;
                    assert(team[i + 1] == player);
                    assert forall|j: int| 0 <= j < i + 1 implies (
                    #[trigger] team[j]).cell_id != cell_id by {
                        if j > 0 {
                            assert(rest[j - 1] == team[j]);
                        }
                    }
                },
                None => {
                    assert forall|i: int| 0 <= i < team.len() implies (
                    #[trigger] team[i]).cell_id != cell_id by {
                        if i > 0 {
                            assert(rest[i - 1] == team[i]);
                        }
                    }
                },
            }
        }
    }
}

/// The role is the one that the local player is assigned; where the client names none,
/// the one that the player has chosen; and where that names none either, the middle.
/// The phase is the client's, and so is the time that is left: the adjusted one where it
/// is above zero.
pub proof fn law_role_and_clock(
    draft: DraftView,
    session: ChampSelectSession,
    role_override: Seq<char>,
)
    requires
        is_draft_of(draft, session, role_override),
    ensures
        ({
            let player = seated(session.my_team@, session.local_player_cell_id);
            let assigned = player is Some && role_name(player->0.assigned_position@).len() > 0;
            &&& assigned ==> draft.role@ == role_name(player->0.assigned_position@)
            &&& !assigned && role_name(role_override).len() > 0 ==> draft.role@ == role_name(
                role_override,
            )
            &&& !assigned && role_name(role_override).len() == 0 ==> draft.role@ == "middle"@
        }),
        draft.phase@ == session.timer.phase@,
        session.timer.adjusted_time_left_in_phase_in_sec > 0 ==> draft.seconds_left
            == session.timer.adjusted_time_left_in_phase_in_sec,
        session.timer.adjusted_time_left_in_phase_in_sec <= 0 ==> draft.seconds_left
            == session.timer.time_left_in_phase_in_sec,
{
}

/// The lane opponent is the first enemy in the player's role who has locked a champion,
/// and there is none exactly where no such enemy has. Where no role is known it is among
/// those whose position is not known either.
pub proof fn law_lane_enemy(
    draft: DraftView,
    session: ChampSelectSession,
    role_override: Seq<char>,
)
    requires
        is_draft_of(draft, session, role_override),
    ensures
        own_role(session, role_override).len() > 0 ==> own_role(session, role_override)
            == draft.role@,
        match draft.lane_enemy_id {
            Some(id) => exists|i: int|
                0 <= i < draft.enemies@.len() && (#[trigger] draft.enemies@[i]).champion_id == id
                    && id > 0 && draft.enemies@[i].assigned_position@ == own_role(
                        session,
                        role_override,
                    ) && forall|
                    j: int,
                |
                    0 <= j < i ==> (#[trigger] draft.enemies@[j]).champion_id <= 0
                        || draft.enemies@[j].assigned_position@ != own_role(session, role_override),
            None => forall|i: int|
                0 <= i < draft.enemies@.len() ==> (#[trigger] draft.enemies@[i]).champion_id <= 0
                    || draft.enemies@[i].assigned_position@ != own_role(session, role_override),
        },
{
    let slots = draft.enemies@;
    assert forall|i: int| 0 <= i < slots.len() implies role_name(
        (#[trigger] slots[i]).assigned_position@,
    ) == slots[i].assigned_position@ by {
        law_role_name_settles(session.their_team@[i].assigned_position@);
    }
    lemma_lane_enemy(slots, own_role(session, role_override));
}

proof fn lemma_lane_enemy(slots: Seq<PlayerSlot>, role: Seq<char>)
    requires
        forall|i: int|
            0 <= i < slots.len() ==> role_name((#[trigger] slots[i]).assigned_position@)
                == slots[i].assigned_position@,
    ensures
        match lane_enemy(slots, role) {
            Some(id) => exists|i: int|
                0 <= i < slots.len() && (#[trigger] slots[i]).champion_id == id && id > 0
                    && slots[i].assigned_position@ == role && forall|j: int|
                    0 <= j < i ==> (#[trigger] slots[j]).champion_id <= 0
                        || slots[j].assigned_position@ != role,
            None => forall|i: int|
                0 <= i < slots.len() ==> (#[trigger] slots[i]).champion_id <= 0
                    || slots[i].assigned_position@ != role,
        },
    decreases slots.len(),
{
    if slots.len() > 0 {
        let rest = slots.drop_first();
        if slots[0].assigned_position@ == role && slots[0].champion_id > 0 {
            assert(slots[0].champion_id == slots[0].champion_id);
        } else {
            assert forall|i: int| 0 <= i < rest.len() implies role_name(
                (#[trigger] rest[i]).assigned_position@,
            ) == rest[i].assigned_position@ by {
                assert(rest[i] == slots[i + 1]);
            }
            lemma_lane_enemy(rest, role);
            match lane_enemy(rest, role) {
                Some(id) => {
                    let i = choose|i: int|
                        0 <= i < rest.len() && (#[trigger] rest[i]).champion_id == id && id > 0
                            && rest[i].assigned_position@ == role && forall|j: int|
                            0 <= j < i ==> (#[trigger] rest[j]).champion_id <= 0
                                || rest[j].assigned_position@ != role;
                    assert(slots[i + 1] == rest[i]);
                    assert forall|j: int| 0 <= j < i + 1 implies (
                    #[trigger] slots[j]).champion_id <= 0 || slots[j].assigned_position@ != role by {
                        if j > 0 {
                            assert(rest[j - 1] == slots[j]);
                        }
                    }
                },
                None => {
                    assert forall|i: int| 0 <= i < slots.len() implies (
                    #[trigger] slots[i]).champion_id <= 0 || slots[i].assigned_position@ != role by {
                        if i > 0 {
                            assert(rest[i - 1] == slots[i]);
                        }
                    }
                },
            }
        }
    }
}

} // verus!
