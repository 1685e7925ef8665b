//! The connections to a room: which seat each belongs to, who follows whom when
//! seats move, and who gets what.
use crate::game::lobby;
use crate::game::room::RoomModel;
use crate::protocol::MsgModel;
use crate::rooms;
use crate::rooms::codes;
use crate::rooms::commit;
use crate::rooms::commit::Commit;
use crate::rooms::Delivery;
use crate::rooms::ManagerModel;
use crate::store::OutModel;
use vstd::prelude::*;

verus! {

/// The connections of a room are those that were set for it; those of the other
/// rooms stay.
pub proof fn law_rooms_keep_their_lines(
    manager: ManagerModel,
    code: Seq<char>,
    list: Seq<(usize, u64)>,
    other: Seq<char>,
)
    requires
        other != code,
    ensures
        manager.with_sessions(code, list).sessions_of(code) == list,
        manager.with_sessions(code, list).sessions_of(other) == manager.sessions_of(other),
        manager.without_sessions(code).sessions_of(code).len() == 0,
        !manager.without_sessions(code).sessions.dom().contains(code),
        manager.without_sessions(code).sessions_of(other) == manager.sessions_of(other),
{
}

/// A connection that is gone is listed nowhere in its room any more; all others
/// stay as they are, in their order. A room without connections is not listed.
pub proof fn law_lines_are_cut_one_by_one(
    manager: ManagerModel,
    code: Seq<char>,
    session: u64,
    other: Seq<char>,
)
    requires
        other != code,
    ensures
        ({
            let after = manager.without_session(code, session);
            &&& after.sessions_of(code) == manager.sessions_of(code).filter(
                |s: (usize, u64)| s.1 != session,
            )
            &&& after.sessions.dom().contains(code) <==> after.sessions_of(code).len() > 0
            &&& after.sessions_of(other) == manager.sessions_of(other)
            &&& after.pod_id == manager.pod_id
            &&& after.bot_turn_delay_ms == manager.bot_turn_delay_ms
        }),
{
    let keep = rooms::other_session(session);
    let same = |s: (usize, u64)| s.1 != session;
    lemma_same_lines(manager.sessions_of(code), keep, same);
    let left = manager.sessions_of(code).filter(keep);
    if left.len() == 0 {
        assert(left =~= Seq::empty());
    }
}

proof fn lemma_same_lines(
    list: Seq<(usize, u64)>,
    f: spec_fn((usize, u64)) -> bool,
    g: spec_fn((usize, u64)) -> bool,
)
    requires
        forall|s: (usize, u64)| #[trigger] f(s) == g(s),
    ensures
        list.filter(f) == list.filter(g),
    decreases list.len(),
{
    reveal(Seq::filter);
    if list.len() > 0 {
        lemma_same_lines(list.drop_last(), f, g);
        assert(f(list.last()) == g(list.last()));
    }
}

/// A connection belongs to the seat that it is listed with first, and to none
/// where it is not listed.
pub proof fn law_lines_have_seats(list: Seq<(usize, u64)>, session: u64, at: int)
    requires
        forall|k: int| 0 <= k < at && k < list.len() ==> (#[trigger] list[k]).1 != session,
    ensures
        0 <= at < list.len() && list[at].1 == session ==> rooms::seat_in(list, session) == Some(
            list[at].0,
        ),
        at >= list.len() ==> rooms::seat_in(list, session) is None,
    decreases list.len(),
{
    if list.len() > 0 && at > 0 {
        let rest = list.drop_first();
        assert(list[0].1 != session);
        assert forall|k: int| 0 <= k < at - 1 && k < rest.len() implies (#[trigger] rest[k]).1
            != session by {
            assert(rest[k] == list[k + 1]);
        }
        law_lines_have_seats(rest, session, at - 1);
        if at < list.len() {
            assert(rest[at - 1] == list[at]);
        }
    }
}

/// A seat goes where the first move of it says, and stays where there is none.
pub proof fn law_seats_follow_moves(moves: Seq<(usize, usize)>, seat: usize, at: int)
    requires
        forall|k: int| 0 <= k < at && k < moves.len() ==> (#[trigger] moves[k]).0 != seat,
    ensures
        0 <= at < moves.len() && moves[at].0 == seat ==> lobby::followed(moves, seat)
            == moves[at].1,
        at >= moves.len() ==> lobby::followed(moves, seat) == seat,
    decreases moves.len(),
{
    if moves.len() > 0 && at > 0 {
        let rest = moves.drop_first();
        assert(moves[0].0 != seat);
        assert forall|k: int| 0 <= k < at - 1 && k < rest.len() implies (#[trigger] rest[k]).0
            != seat by {
            assert(rest[k] == moves[k + 1]);
        }
        law_seats_follow_moves(rest, seat, at - 1);
        if at < moves.len() {
            assert(rest[at - 1] == moves[at]);
        }
    }
}

/// When seats move, every connection of the room stays listed in its place, for
/// the seat that its own has moved to.
pub proof fn law_lines_follow_seats(
    manager: ManagerModel,
    code: Seq<char>,
    moves: Seq<(usize, usize)>,
    k: int,
    other: Seq<char>,
)
    requires
        0 <= k < manager.sessions_of(code).len(),
        other != code,
    ensures
        ({
            let before = manager.sessions_of(code);
            let after = manager.seats_moved(code, moves).sessions_of(code);
            &&& after.len() == before.len()
            &&& after[k].1 == before[k].1
            &&& after[k].0 == lobby::followed(moves, before[k].0)
            &&& manager.seats_moved(code, moves).sessions_of(other) == manager.sessions_of(other)
        }),
{
}

/// A step that ends a room cuts its connections; any other lets them follow the
/// moves that it reports.
pub proof fn law_lines_after_a_step(manager: ManagerModel, code: Seq<char>, out: OutModel)
    ensures
        out.removed ==> manager.stepped(code, out).sessions_of(code).len() == 0,
        !out.removed ==> manager.stepped(code, out).sessions_of(code).len() == manager.sessions_of(
            code,
        ).len(),
        !out.removed && out.renumbered.len() == 0 ==> manager.stepped(code, out) == manager,
        !out.removed ==> forall|k: int|
            0 <= k < manager.sessions_of(code).len() ==> (#[trigger] manager.stepped(
                code,
                out,
            ).sessions_of(code)[k]) == (
                lobby::followed(out.renumbered, manager.sessions_of(code)[k].0),
                manager.sessions_of(code)[k].1,
            ),
{
    if !out.removed && out.renumbered.len() == 0 {
        assert forall|k: int| 0 <= k < manager.sessions_of(code).len() implies lobby::followed(
            out.renumbered,
            (#[trigger] manager.sessions_of(code)[k]).0,
        ) == manager.sessions_of(code)[k].0 by {}
    }
}

/// Everybody who is connected to a room gets a message to all once, each down
/// their own connection. With the game in it, it shows nobody's hand but that of
/// the seat it goes to, and how many cards everybody holds.
pub proof fn law_everybody_is_told(
    list: Seq<Delivery>,
    msg: MsgModel,
    sessions: Seq<(usize, u64)>,
    k: int,
    i: int,
)
    requires
        rooms::reaches_all(list, msg, sessions),
        0 <= k < sessions.len(),
    ensures
        list.len() == sessions.len(),
        list[k].session == sessions[k].1,
        !(msg is State) ==> list[k].payload.msg@ == msg,
        msg matches MsgModel::State { state } ==> {
            &&& list[k].payload.msg@ matches MsgModel::State { state: shown } && {
                &&& shown.players.len() == state.players.len()
                &&& 0 <= i < state.players.len() && state.players[i].id != sessions[k].0
                    ==> shown.players[i].hand.len() == 0
                &&& 0 <= i < state.players.len() && state.players[i].id == sessions[k].0
                    ==> shown.players[i].hand == state.players[i].hand
                &&& 0 <= i < state.players.len() ==> shown.players[i].name == state.players[i].name
            }
            &&& list[k].payload.hand_counts@.len() == state.players.len()
            &&& 0 <= i < state.players.len() && state.players[i].hand.len() <= usize::MAX
                ==> list[k].payload.hand_counts@[i] == state.players[i].hand.len()
        },
{
    assert(list[k].session == sessions[k].1);
}

/// After a step a room is deleted where the step says so, and else saved if and
/// only if the step has changed it.
pub proof fn law_what_is_written(before: RoomModel, after: RoomModel, removed: bool)
    ensures
        commit::commit_for(before, after, removed) == Commit::Delete <==> removed,
        commit::commit_for(before, after, removed) == Commit::Save <==> !removed && after != before,
        commit::commit_for(before, after, removed) == Commit::Keep <==> !removed && after == before,
{
}

/// Codes are upper-case letters and digits, as many as asked for; tokens are
/// thirty-two lower-case letters and digits.
pub proof fn law_codes_and_tokens(code: Seq<char>, length: nat, token: Seq<char>, i: int)
    ensures
        codes::is_code(code, length) ==> code.len() == length,
        codes::is_code(code, length) && 0 <= i < code.len() ==> ('A' <= code[i] <= 'Z') || ('0'
            <= code[i] <= '9'),
        codes::is_token(token) ==> token.len() == 32,
        codes::is_token(token) && 0 <= i < token.len() ==> ('a' <= token[i] <= 'z') || ('0'
            <= token[i] <= '9'),
{
}

} // verus!
