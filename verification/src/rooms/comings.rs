//! Comings and goings, as people see them: who gets in, what becomes of a seat
//! whose player leaves, who comes back, and what it takes to start.
use crate::game::card::Card;
use crate::game::card::Rank;
use crate::game::discard;
use crate::game::lobby;
use crate::game::room;
use crate::game::room::RoomModel;
use crate::game::room::RoomPlayerModel;
use crate::game::rules;
use crate::game::state::GamePhase;
use crate::game::state::PendingAction;
use crate::game::state::PlayerModel;
use crate::protocol::MsgModel;
use crate::rooms;
use crate::rooms::entry;
use crate::rooms::leaving;
use crate::rooms::promises;
use crate::rooms::rejoin;
use crate::rooms::returning;
use crate::rooms::ManagerModel;
use vstd::prelude::*;

verus! {

// ---------------------------------------------------------------------------
// Joining
// ---------------------------------------------------------------------------

/// Whoever asks for a seat in a lobby with a free one that has not started gets
/// the next number and is told it, with their token and the game; everybody is
/// told their name. Anybody else is refused, and the room stays as it is.
pub proof fn law_joining(room: RoomModel, code: Seq<char>, name: Seq<char>, token: Seq<char>)
    requires
        room.aligned(),
    ensures
        ({
            let after = room.joined(name, token);
            let n = room.players.len() as int;
            let open = room.state.phase == GamePhase::Lobby && !room.started && n < 4;
            &&& open <==> room.join_answer(code, name, token) is Ok
            &&& open ==> {
                &&& after.players.len() == n + 1
                &&& after.players[n].name == name
                &&& after.players[n].token == Some(token)
                &&& !after.players[n].is_bot
                &&& !after.ready[n]
                &&& after.players.take(n) == room.players
                &&& room.join_answer(code, name, token) matches Ok(out) && {
                    &&& out.reply == Some(
                        MsgModel::Joined { player_id: n as usize, state: after.state, code, token },
                    )
                    &&& out.broadcast.len() == 2
                    &&& out.broadcast[0] == (MsgModel::PlayerJoined { player_id: n as usize, name })
                    &&& out.broadcast[1] == (MsgModel::State { state: after.state })
                    &&& !out.removed
                    &&& out.renumbered.len() == 0
                }
            }
            &&& !open ==> after == room
        }),
{
    let after = room.joined(name, token);
    let n = room.players.len() as int;
    if room.state.phase == GamePhase::Lobby && !room.started && n < 4 {
        room::law_seats_stay_aligned(room, room.code, name, token, Some(token));
        entry::lemma_dense_player(after.state.players, n as usize, 0);
        assert(after.players.take(n) =~= room.players);
    }
}

/// Somebody who opens a room gets the first of the drawn codes that no room has,
/// and the token drawn with it; no other room changes.
pub proof fn law_opening(
    all: Map<Seq<char>, RoomModel>,
    codes: Seq<Seq<char>>,
    tokens: Seq<Seq<char>>,
    host: Seq<char>,
    is_public: bool,
    at: int,
)
    requires
        0 <= at < codes.len(),
        !all.dom().contains(codes[at]),
        forall|k: int| 0 <= k < at ==> all.dom().contains(#[trigger] codes[k]),
    ensures
        ({
            let (after, code, reply) = entry::opening(all, codes, tokens, host, is_public);
            &&& code == codes[at]
            &&& after.dom() == all.dom().insert(code)
            &&& after[code].is_public == is_public
            &&& after[code].code == code
            &&& after[code].players.len() == 1
            &&& after[code].players[0].name == host
            &&& after[code].players[0].token == Some(tokens[at])
            &&& after[code].players[0].is_creator
            &&& reply == (MsgModel::Created {
                code,
                player_id: 0,
                state: after[code].state,
                is_public,
                token: tokens[at],
            })
            &&& forall|c: Seq<char>| #[trigger]
                all.dom().contains(c) ==> after.dom().contains(c) && after[c] == all[c]
        }),
{
    entry::lemma_first_free(all, codes, 0);
}

// ---------------------------------------------------------------------------
// Leaving
// ---------------------------------------------------------------------------

/// When a player drops out of a game, a bot under their name plays on with their
/// cards, and their entry is kept for them. Nobody else's seat changes.
pub proof fn law_dropping_out_of_a_game(
    manager: ManagerModel,
    room: RoomModel,
    seat: usize,
    token: Seq<char>,
    now: u64,
)
    requires
        room.aligned(),
        room.state.phase != GamePhase::Lobby,
        seat < room.players.len(),
        !room.players[seat as int].is_bot,
        room.players[seat as int].token == Some(token),
        forall|i: int|
            0 <= i < room.disconnected_players.len() ==> (
            #[trigger] room.disconnected_players[i]).0 != seat,
    ensures
        ({
            let after = manager.dropped(room, seat, now);
            let p = seat as int;
            &&& after.players.len() == room.players.len()
            &&& after.players[p].is_bot
            &&& after.players[p].name == "Bot ("@ + room.players[p].name + ")"@
            &&& after.players[p].token is None
            &&& after.players[p].connected
            &&& after.players[p].is_creator == room.players[p].is_creator
            &&& after.state.players[p].is_bot
            &&& after.state.players[p].name == "Bot ("@ + room.players[p].name + ")"@
            &&& after.state.players[p].hand == room.state.players[p].hand
            &&& after.state.players[p].finished == room.state.players[p].finished
            &&& after.disconnected_players == room.disconnected_players.push((seat, token, now))
            &&& forall|i: int|
                0 <= i < room.players.len() && i != p ==> #[trigger] after.players[i]
                    == room.players[i]
            &&& forall|i: int|
                0 <= i < room.players.len() && i != p ==> #[trigger] after.state.players[i]
                    == room.state.players[i]
            &&& after.state.current_player == room.state.current_player
            &&& after.state.trick == room.state.trick
            &&& after.state.scores == room.state.scores
            &&& after.state.phase == room.state.phase
            &&& after.last_human_disconnect_at is None <==> exists|i: int|
                0 <= i < room.players.len() && i != p && !(#[trigger] room.players[i]).is_bot
                    && room.players[i].connected
        }),
{
    entry::lemma_dense_seat(room.players, seat, 0);
    entry::lemma_dense_player(room.state.players, seat, 0);
    let after = manager.dropped(room, seat, now);
    let taken = room.dropout_noted(seat as int, now).bot_taken(seat as int, seat);
    assert(after == taken.absence_noted(now));
    promises::law_absence_is_noted(taken, now);
    if exists|i: int|
        0 <= i < room.players.len() && i != seat && !(#[trigger] room.players[i]).is_bot
            && room.players[i].connected {
        let i = choose|i: int|
            0 <= i < room.players.len() && i != seat && !(#[trigger] room.players[i]).is_bot
                && room.players[i].connected;
        assert(!taken.players[i].is_bot && taken.players[i].connected);
    }
    if taken.human_present() {
        let i = choose|i: int|
            0 <= i < taken.players.len() && !(#[trigger] taken.players[i]).is_bot
                && taken.players[i].connected;
        assert(!room.players[i].is_bot && room.players[i].connected && i != seat);
    }
}

/// When a player leaves a game for good, a bot under their name plays on with
/// their cards, and no entry is made for them.
pub proof fn law_leaving_a_game_for_good(
    manager: ManagerModel,
    room: RoomModel,
    seat: usize,
    now: u64,
)
    requires
        room.aligned(),
        room.state.phase != GamePhase::Lobby,
        seat < room.players.len(),
        !room.players[seat as int].is_bot,
    ensures
        ({
            let after = manager.removed(room, seat, now);
            let p = seat as int;
            &&& after.players.len() == room.players.len()
            &&& after.players[p].is_bot
            &&& after.players[p].name == "Bot ("@ + room.players[p].name + ")"@
            &&& after.players[p].token is None
            &&& after.players[p].connected
            &&& after.state.players[p].is_bot
            &&& after.state.players[p].name == "Bot ("@ + room.players[p].name + ")"@
            &&& after.state.players[p].hand == room.state.players[p].hand
            &&& after.disconnected_players == room.disconnected_players
            &&& forall|i: int|
                0 <= i < room.players.len() && i != p ==> #[trigger] after.players[i]
                    == room.players[i]
            &&& forall|i: int|
                0 <= i < room.players.len() && i != p ==> #[trigger] after.state.players[i]
                    == room.state.players[i]
            &&& after.state.current_player == room.state.current_player
            &&& after.state.scores == room.state.scores
        }),
{
    entry::lemma_dense_seat(room.players, seat, 0);
    entry::lemma_dense_player(room.state.players, seat, 0);
}

/// When somebody without the crown leaves a lobby for good, their seat is gone
/// and everybody behind it moves up by one, with all that is theirs.
pub proof fn law_leaving_a_lobby_for_good(
    manager: ManagerModel,
    room: RoomModel,
    seat: usize,
    now: u64,
    i: int,
)
    requires
        room.aligned(),
        room.state.phase == GamePhase::Lobby,
        seat < room.players.len() <= usize::MAX,
        !room.players[seat as int].is_bot,
        !room.players[seat as int].is_creator,
        0 <= i < room.players.len() - 1,
    ensures
        ({
            let after = manager.removed(room, seat, now);
            let from = if i < seat {
                i
            } else {
                i + 1
            };
            &&& after.players.len() == room.players.len() - 1
            &&& after.state.players.len() == room.players.len() - 1
            &&& after.players[i] == (RoomPlayerModel { id: i as usize, ..room.players[from] })
            &&& after.state.players[i] == (PlayerModel {
                id: i as usize,
                ..room.state.players[from]
            })
            &&& after.ready[i] == room.ready[from]
            &&& after.state.scores[i] == room.state.scores[from]
        }),
{
    entry::lemma_dense_seat(room.players, seat, 0);
    let parted = room.parted(seat as int);
    assert(parted.players == room.players && parted.state == room.state && parted.ready
        == room.ready);
    lobby::law_removal_closes_ranks(parted, seat);
}

/// A public room's lobby goes when its creator leaves it, by dropping out or for
/// good. A creator's room that is not public, and any room whose game has begun,
/// stays at least as long as a human is connected to it.
pub proof fn law_public_lobby_goes_with_its_creator(
    manager: ManagerModel,
    room: RoomModel,
    seat: usize,
    now: u64,
)
    requires
        room.aligned(),
        seat < room.players.len(),
        !room.players[seat as int].is_bot,
        room.players[seat as int].is_creator,
        room.state.phase == GamePhase::Lobby,
        room.is_public,
    ensures
        manager.drop_answer(room, seat, now) matches Ok(out) && out.removed,
        manager.removal_answer(room, seat, now) matches Ok(out) && out.removed,
{
    entry::lemma_dense_seat(room.players, seat, 0);
}

/// A game does not go with one of its players as long as another human is
/// connected to it.
pub proof fn law_game_goes_on(
    manager: ManagerModel,
    room: RoomModel,
    seat: usize,
    other: int,
    now: u64,
)
    requires
        room.aligned(),
        seat < room.players.len(),
        !room.players[seat as int].is_bot,
        room.state.phase != GamePhase::Lobby,
        0 <= other < room.players.len(),
        other != seat,
        !room.players[other].is_bot,
        room.players[other].connected,
    ensures
        manager.drop_answer(room, seat, now) matches Ok(out) && !out.removed
            && out.broadcast.len() == 2 && out.broadcast[0] == (MsgModel::PlayerLeft {
            player_id: seat,
            name: room.players[seat as int].name,
        }) && out.broadcast[1] == (MsgModel::State {
            state: manager.dropped(room, seat, now).state,
        }),
        manager.removal_answer(room, seat, now) matches Ok(out) && !out.removed
            && out.broadcast.len() == 2 && out.broadcast[0] == (MsgModel::PlayerLeft {
            player_id: seat,
            name: room.players[seat as int].name,
        }) && out.broadcast[1] == (MsgModel::State {
            state: manager.removed(room, seat, now).state,
        }),
{
    entry::lemma_dense_seat(room.players, seat, 0);
    let dropped = manager.dropped(room, seat, now);
    let removed = manager.removed(room, seat, now);
    assert(room.players[seat as int].id == seat);
    assert(!dropped.players[other].is_bot && dropped.players[other].connected);
    assert(!removed.players[other].is_bot && removed.players[other].connected);
}

/// Nobody who has no seat can leave.
pub proof fn law_strangers_cannot_leave(
    manager: ManagerModel,
    room: RoomModel,
    id: usize,
    now: u64,
)
    requires
        forall|i: int| 0 <= i < room.players.len() ==> (#[trigger] room.players[i]).id != id,
    ensures
        manager.drop_answer(room, id, now) matches Err(reason) && reason == "Player not found"@,
        manager.removal_answer(room, id, now) matches Err(reason) && reason == "Player not found"@,
        manager.dropped(room, id, now) == room,
        manager.removed(room, id, now) == room,
{
    lemma_no_seat(room.players, id, 0);
}

proof fn lemma_no_seat(players: Seq<RoomPlayerModel>, id: usize, from: int)
    requires
        0 <= from,
        forall|i: int| 0 <= i < players.len() ==> (#[trigger] players[i]).id != id,
    ensures
        room::seat_with_id(players, id, from) is None,
    decreases players.len() - from,
{
    if from < players.len() {
        assert(players[from].id != id);
        lemma_no_seat(players, id, from + 1);
    }
}

proof fn lemma_heir(room: RoomModel, leaving: usize, heir: int, from: int)
    requires
        0 <= from <= heir < room.players.len(),
        !room.players[heir].is_bot,
        room.players[heir].connected,
        room.players[heir].id != leaving,
        forall|i: int|
            from <= i < heir ==> (#[trigger] room.players[i]).is_bot || !room.players[i].connected
                || room.players[i].id == leaving,
    ensures
        room.heir(leaving, from) == Some(heir),
    decreases heir - from,
{
    if from < heir {
        assert(room.players[from].is_bot || !room.players[from].connected || room.players[from].id
            == leaving);
        lemma_heir(room, leaving, heir, from + 1);
    }
}

/// The crown goes to the first connected human other than the one who leaves,
/// who is ready with it, and to nobody else.
pub proof fn law_crown_goes_to_the_first_human(room: RoomModel, leaving: usize, heir: int)
    requires
        room.aligned(),
        room.state.phase == GamePhase::Lobby,
        0 <= heir < room.players.len(),
        heir != leaving,
        !room.players[heir].is_bot,
        room.players[heir].connected,
        forall|i: int|
            0 <= i < heir ==> (#[trigger] room.players[i]).is_bot || !room.players[i].connected || i
                == leaving,
        forall|i: int|
            0 <= i < room.players.len() ==> ((#[trigger] room.players[i]).is_creator <==> i
                == leaving),
        forall|i: int|
            0 <= i < room.players.len() ==> ((#[trigger] room.state.players[i]).is_creator <==> i
                == leaving),
    ensures
        ({
            let after = room.crown_passed(leaving);
            &&& after.players.len() == room.players.len()
            &&& forall|i: int|
                0 <= i < room.players.len() ==> ((#[trigger] after.players[i]).is_creator <==> i
                    == heir)
            &&& forall|i: int|
                0 <= i < room.players.len() ==> ((#[trigger] after.state.players[i]).is_creator
                    <==> i == heir)
            &&& after.ready[heir]
        }),
{
    assert(room.players[heir].id == heir);
    assert forall|i: int| 0 <= i < heir implies (#[trigger] room.players[i]).is_bot
        || !room.players[i].connected || room.players[i].id == leaving by {
        assert(room.players[i].id == i);
    }
    lemma_heir(room, leaving, heir, 0);
    leaving::law_crown_moves(room, leaving);
}

/// Has the player in a seat been gone for as long as the timeout? Whoever is gone
/// at all has been so for no time.
pub open spec fn gone_for(p: RoomPlayerModel, timeout_secs: u64, now: u64) -> bool {
    p.disconnect_time matches Some(t) && (now - t >= timeout_secs || timeout_secs == 0)
}

/// In a lobby the seats of those who have been gone for as long as the timeout
/// go; all others stay, in their order, and are numbered by their places.
pub proof fn law_stale_seats_go(room: RoomModel, timeout_secs: u64, now: u64)
    requires
        room.state.phase == GamePhase::Lobby,
        room.players.len() <= usize::MAX,
    ensures
        ({
            let staying = room.players.filter(
                |p: RoomPlayerModel| !gone_for(p, timeout_secs, now),
            );
            room.reaped(timeout_secs, now).players == Seq::new(
                staying.len(),
                |j: int| RoomPlayerModel { id: j as usize, ..staying[j] },
            )
        }),
{
    let stays = |p: RoomPlayerModel| !gone_for(p, timeout_secs, now);
    let staying = room.players.filter(stays);
    let n = room.players.len() as int;
    lemma_staying(room, timeout_secs, now, n, stays);
    assert(room.players.take(n) =~= room.players);
    assert(room.reaped(timeout_secs, now).players =~= Seq::new(
        staying.len(),
        |j: int| RoomPlayerModel { id: j as usize, ..staying[j] },
    ));
}

proof fn lemma_staying(
    room: RoomModel,
    timeout_secs: u64,
    now: u64,
    n: int,
    stays: spec_fn(RoomPlayerModel) -> bool,
)
    requires
        0 <= n <= room.players.len() <= usize::MAX,
        forall|p: RoomPlayerModel| #[trigger] stays(p) <==> !gone_for(p, timeout_secs, now),
    ensures
        ({
            let kept = room.kept_places(timeout_secs, now, n);
            let staying = room.players.take(n).filter(stays);
            &&& kept.len() == staying.len()
            &&& forall|j: int|
                0 <= j < kept.len() ==> room.players[(#[trigger] kept[j]) as int] == staying[j]
        }),
    decreases n,
{
    reveal(Seq::filter);
    if n > 0 {
        lemma_staying(room, timeout_secs, now, n - 1, stays);
        assert(room.players.take(n).drop_last() =~= room.players.take(n - 1));
        assert(room.players.take(n).last() == room.players[n - 1]);
        assert(stays(room.players[n - 1]) <==> !room.is_stale(n - 1, timeout_secs, now));
    }
}

// ---------------------------------------------------------------------------
// Coming back
// ---------------------------------------------------------------------------

/// A token lets somebody back in as long as it was noted less than three hundred
/// seconds ago, and not otherwise. Without it they are told whether somebody is
/// connected with that token.
pub proof fn law_way_back_is_open(
    room: RoomModel,
    code: Seq<char>,
    name: Seq<char>,
    token: Seq<char>,
    now: u64,
)
    ensures
        room.rejoin_answer(code, name, token, now) is Ok <==> exists|i: int|
            0 <= i < room.disconnected_players.len() && (
            #[trigger] room.disconnected_players[i]).1 == token && room.disconnected_players[i].2
                > 0 && now - room.disconnected_players[i].2 < 300,
        room.rejoin_answer(code, name, token, now) matches Err(reason) ==> reason == if exists|
            i: int,
        |
            0 <= i < room.players.len() && (#[trigger] room.players[i]).token == Some(token)
                && room.players[i].connected {
            "Seat already in use by another window"@
        } else {
            "No matching disconnected player found"@
        },
{
    let alive = room::entry_alive(rooms::REJOIN_TIMEOUT_SECS, now);
    let all = room.disconnected_players;
    let left = all.filter(alive);
    returning::lemma_entry_found(left, token, 0);
    if exists|i: int|
        0 <= i < all.len() && (#[trigger] all[i]).1 == token && 0 < all[i].2 && now - all[i].2
            < 300 {
        let i = choose|i: int|
            0 <= i < all.len() && (#[trigger] all[i]).1 == token && 0 < all[i].2 && now - all[i].2
                < 300;
        assert(alive(all[i]));
        all.lemma_filter_contains(alive, i);
        let k = choose|k: int| 0 <= k < left.len() && left[k] == all[i];
        assert(left[k].1 == token);
    }
    if let Some(k) = rejoin::entry_with_token(left, token, 0) {
        assert(left.contains(left[k]));
        all.lemma_filter_contains_rev(alive, left[k]);
        all.lemma_filter_pred(alive, k);
        let i = choose|i: int| 0 <= i < all.len() && all[i] == left[k];
        assert(all[i].1 == token && 0 < all[i].2 && now - all[i].2 < 300);
    }
}

/// Whoever comes back with a token that one entry has gets that entry's seat, as
/// a connected human under their name, and the entry is used up.
pub proof fn law_coming_back(
    room: RoomModel,
    code: Seq<char>,
    name: Seq<char>,
    token: Seq<char>,
    now: u64,
    at: int,
)
    requires
        0 <= at < room.disconnected_players.len(),
        room.disconnected_players[at].1 == token,
        room.disconnected_players[at].2 > 0,
        now - room.disconnected_players[at].2 < 300,
        forall|i: int|
            0 <= i < room.disconnected_players.len() && i != at ==> (
            #[trigger] room.disconnected_players[i]).1 != token,
        room.disconnected_players[at].0 < room.players.len(),
        room.state.players.len() == room.players.len(),
    ensures
        ({
            let seat = room.disconnected_players[at].0;
            let p = seat as int;
            let after = room.rejoined(name, token, now);
            &&& after.players.len() == room.players.len()
            &&& after.players[p].name == name
            &&& after.players[p].token == Some(token)
            &&& after.players[p].connected
            &&& !after.players[p].is_bot
            &&& after.state.players[p].name == name
            &&& !after.state.players[p].is_bot
            &&& after.state.players[p].connected
            &&& after.state.players[p].hand == room.state.players[p].hand
            &&& forall|i: int|
                0 <= i < room.players.len() && i != p ==> #[trigger] after.players[i]
                    == room.players[i]
            &&& forall|i: int|
                0 <= i < room.players.len() && i != p ==> #[trigger] after.state.players[i]
                    == room.state.players[i]
            &&& after.last_human_disconnect_at is None
            &&& forall|i: int|
                0 <= i < after.disconnected_players.len() ==> (
                #[trigger] after.disconnected_players[i]).1 != token
            &&& room.rejoin_answer(code, name, token, now) matches Ok(out) && out.reply == Some(
                MsgModel::Rejoined { player_id: seat, state: after.state, code, token },
            ) && out.broadcast == seq![MsgModel::PlayerJoined { player_id: seat, name }]
                && !out.removed && out.renumbered.len() == 0
        }),
{
    let alive = room::entry_alive(rooms::REJOIN_TIMEOUT_SECS, now);
    let all = room.disconnected_players;
    let left = all.filter(alive);
    assert(alive(all[at]));
    all.lemma_filter_contains(alive, at);
    let q = choose|q: int| 0 <= q < left.len() && left[q] == all[at];
    assert(left[q].1 == token);
    returning::lemma_entry_found(left, token, 0);
    let k = rejoin::entry_with_token(left, token, 0).unwrap();
    assert(left.contains(left[k]));
    all.lemma_filter_contains_rev(alive, left[k]);
    let i = choose|i: int| 0 <= i < all.len() && all[i] == left[k];
    assert(i == at);
    lemma_one_left_of(all, alive, token, at);
    let after = room.rejoined(name, token, now);
    assert forall|j: int| 0 <= j < after.disconnected_players.len() implies (
    #[trigger] after.disconnected_players[j]).1 != token by {
        let old = if j < k {
            j
        } else {
            j + 1
        };
        assert(after.disconnected_players[j] == left[old]);
        if left[old].1 == token {
            assert(left[old].1 == left[k].1);
        }
    }
    let out = room.rejoin_answer(code, name, token, now)->Ok_0;
    assert(out.broadcast =~= seq![MsgModel::PlayerJoined { player_id: all[at].0, name }]);
}

/// What was there once is there once among the entries that stay.
proof fn lemma_one_left_of(
    all: Seq<(usize, Seq<char>, u64)>,
    alive: spec_fn((usize, Seq<char>, u64)) -> bool,
    token: Seq<char>,
    at: int,
)
    requires
        forall|i: int| 0 <= i < all.len() && i != at ==> (#[trigger] all[i]).1 != token,
    ensures
        forall|a: int, b: int|
            0 <= a < all.filter(alive).len() && 0 <= b < all.filter(alive).len() && (
            #[trigger] all.filter(alive)[a]).1 == token && (#[trigger] all.filter(alive)[b]).1
                == token ==> a == b,
    decreases all.len(),
{
    reveal(Seq::filter);
    if all.len() > 0 {
        let rest = all.drop_last();
        let last = all.last();
        assert forall|i: int| 0 <= i < rest.len() && i != at implies (#[trigger] rest[i]).1
            != token by {
            assert(all[i].1 != token);
        }
        lemma_one_left_of(rest, alive, token, at);
        if alive(last) && last.1 == token {
            assert(all[all.len() - 1].1 == token);
            assert forall|a: int| 0 <= a < rest.filter(alive).len() implies (#[trigger] rest.filter(
                alive,
            )[a]).1 != token by {
                assert(rest.filter(alive).contains(rest.filter(alive)[a]));
                rest.lemma_filter_contains_rev(alive, rest.filter(alive)[a]);
                let i = choose|i: int| 0 <= i < rest.len() && rest[i] == rest.filter(alive)[a];
                assert(all[i].1 != token);
            }
        }
    }
}

// ---------------------------------------------------------------------------
// Settings and the start
// ---------------------------------------------------------------------------

/// Whoever wears the crown can change the settings before the game has started:
/// turns of 1 to 120 seconds, and 1 to 9999 points to win. Nobody else can, and
/// nothing else is taken.
pub proof fn law_settings(
    room: RoomModel,
    id: usize,
    play_limit_secs: Option<u32>,
    winning_point: Option<u32>,
)
    ensures
        room.settings_refusal(id, play_limit_secs, winning_point) is None <==> {
            &&& exists|i: int|
                0 <= i < room.players.len() && (#[trigger] room.players[i]).id == id
                    && room.players[i].is_creator
            &&& !room.started
            &&& room.state.phase == GamePhase::Lobby || room.state.phase == GamePhase::GameOver
            &&& play_limit_secs is Some || winning_point is Some
            &&& play_limit_secs matches Some(v) ==> 1 <= v <= 120
            &&& winning_point matches Some(v) ==> 1 <= v <= 9999
        },
        ({
            let after = room.with_settings(play_limit_secs, winning_point);
            &&& play_limit_secs matches Some(v) ==> after.state.play_limit_secs == v
            &&& play_limit_secs is None ==> after.state.play_limit_secs
                == room.state.play_limit_secs
            &&& winning_point matches Some(v) ==> after.state.winning_point == v
            &&& winning_point is None ==> after.state.winning_point == room.state.winning_point
            &&& after.players == room.players
            &&& after.state.players == room.state.players
            &&& after.state.phase == room.state.phase
            &&& after.state.scores == room.state.scores
            &&& after.settings_msg() == (MsgModel::RoomSettings {
                play_limit_secs: after.state.play_limit_secs,
                winning_point: after.state.winning_point,
            })
        }),
{
}

/// Whoever wears the crown can start a round in a lobby in which every human is
/// ready, or after a round; not while one is played, nor once the match is won.
pub proof fn law_starting(room: RoomModel, id: usize)
    requires
        room.ready.len() == room.players.len(),
    ensures
        room.start_refusal(id) is None <==> {
            &&& exists|i: int|
                0 <= i < room.players.len() && (#[trigger] room.players[i]).id == id
                    && room.players[i].is_creator
            &&& room.state.game_winner is None
            &&& room.state.phase == GamePhase::GameOver || (room.state.phase == GamePhase::Lobby
                && forall|i: int|
                0 <= i < room.players.len() ==> (#[trigger] room.players[i]).is_bot
                    || room.ready[i])
        },
{
    let ready = room.readied_for_next();
    if room.state.phase == GamePhase::GameOver {
        assert(ready.humans_ready());
    }
    if room.state.phase == GamePhase::Lobby {
        assert(ready == room);
        if room.humans_ready() {
            assert forall|i: int| 0 <= i < room.players.len() implies (
            #[trigger] room.players[i]).is_bot || room.ready[i] by {}
        }
    }
}

/// The first round: bots fill the table, everybody is dealt their thirteen cards
/// of the deck, and the threes are set aside, to be discarded from six hundred
/// milliseconds on.
pub proof fn law_first_round(room: RoomModel, deck: Seq<Card>, now_ms: u64, seat: int)
    requires
        room.aligned(),
        room.players.len() <= 4,
        room.state.phase == GamePhase::Lobby,
        deck.len() == 52,
        0 <= seat < 4,
        now_ms + 600 <= u64::MAX,
    ensures
        ({
            let after = room.round_started(deck, now_ms);
            &&& after.started
            &&& after.state.phase == GamePhase::ThreeDiscard
            &&& after.players.len() == 4
            &&& after.state.players.len() == 4
            &&& after.players.take(room.players.len() as int) == room.players
            &&& seat >= room.players.len() ==> after.players[seat].is_bot
            &&& after.state.three_discard matches Some(td) && {
                &&& td.player_cards[seat].to_multiset().add(
                    after.state.players[seat].hand.to_multiset(),
                ) == deck.subrange(13 * seat, 13 * seat + 13).to_multiset()
                &&& forall|k: int|
                    0 <= k < td.player_cards[seat].len() ==> (
                    #[trigger] td.player_cards[seat][k]).rank == Rank::Three
                &&& forall|k: int|
                    0 <= k < after.state.players[seat].hand.len() ==> (
                    #[trigger] after.state.players[seat].hand[k]).rank != Rank::Three
                &&& !td.discarded[seat]
                &&& after.state.current_player == td.order[0]
                &&& forall|i: int, j: int|
                    0 <= i < j < 4 ==> td.player_cards[#[trigger] td.order[i] as int].len()
                        >= td.player_cards[#[trigger] td.order[j] as int].len()
            }
            &&& after.state.scores.len() == 4
            &&& after.state.scores.take(room.players.len() as int) == room.state.scores
            &&& after.state.log == room.state.log
            &&& after.state.round == room.state.round
            &&& after.state.turn_seq == room.state.turn_seq
            &&& after.state.winning_point == room.state.winning_point
            &&& after.driver.pending == Some(PendingAction::StepThreeDiscard)
            &&& after.driver.next_action_at_ms == now_ms + 600
        }),
{
    let full = room.filled();
    promises::law_bots_fill_up(room);
    let dealt = full.state.dealt(deck);
    discard::law_deal_in_thirteens(full.state, deck, seat);
    let part = deck.subrange(13 * seat, 13 * seat + 13);
    assert(part =~= Seq::new(13, |k: int| deck[13 * seat + k]));
    discard::law_threes_are_set_aside(dealt, seat);
    let after = room.round_started(deck, now_ms);
    assert(room.readied_for_next() == room);
    let order = rules::discard_order(dealt.players);
    let td = after.state.three_discard.unwrap();
    discard::law_everybody_discards_once(dealt.players);
    assert forall|i: int, j: int|
        0 <= i < j < 4 implies td.player_cards[#[trigger] td.order[i] as int].len()
        >= td.player_cards[#[trigger] td.order[j] as int].len() by {
        discard::law_who_discards_first(dealt.players, i, j);
        assert(order.contains(order[i]) && order.contains(order[j]));
        discard::law_threes_are_set_aside(dealt, order[i] as int);
        discard::law_threes_are_set_aside(dealt, order[j] as int);
    }
    let hand = dealt.players[seat].hand;
    let threes = hand.filter(|c: Card| c.rank == Rank::Three);
    let rest = hand.filter(|c: Card| c.rank != Rank::Three);
    assert forall|k: int| 0 <= k < threes.len() implies (#[trigger] threes[k]).rank
        == Rank::Three by {
        hand.lemma_filter_pred(|c: Card| c.rank == Rank::Three, k);
    }
    assert forall|k: int| 0 <= k < rest.len() implies (#[trigger] rest[k]).rank
        != Rank::Three by {
        hand.lemma_filter_pred(|c: Card| c.rank != Rank::Three, k);
    }
}

/// The next round: everybody is dealt their thirteen cards of the deck, whoever
/// finished first leads on an empty table, and play begins at once.
pub proof fn law_next_round(room: RoomModel, deck: Seq<Card>, now_ms: u64, seat: int)
    requires
        room.state.phase == GamePhase::GameOver,
        room.state.players.len() == 4,
        room.state.scores.len() == 4,
        room.state.total_scores.len() == 4,
        room.state.finished_order.len() > 0,
        room.state.turn_seq < u32::MAX,
        deck.len() == 52,
        0 <= seat < 4,
    ensures
        ({
            let after = room.round_started(deck, now_ms);
            &&& after.state.phase == GamePhase::Playing
            &&& after.state.current_player == room.state.finished_order[0]
            &&& after.state.players.len() == 4
            &&& after.state.players[seat].hand.to_multiset() == deck.subrange(
                13 * seat,
                13 * seat + 13,
            ).to_multiset()
            &&& !after.state.players[seat].finished
            &&& after.state.players[seat].name == room.state.players[seat].name
            &&& after.state.players[seat].is_bot == room.state.players[seat].is_bot
            &&& after.state.scores.len() == 4
            &&& after.state.scores[seat] == 0
            &&& after.state.total_scores == room.state.total_scores
            &&& after.state.finished_order.len() == 0
            &&& after.state.trick.cards.len() == 0
            &&& after.state.trick.combo_player is None
            &&& after.state.trick.passed.len() == 0
            &&& after.state.three_discard is None
            &&& after.state.turn_seq == room.state.turn_seq + 1
            &&& after.state.log == room.state.log
            &&& after.state.round == room.state.round
            &&& after.state.winning_point == room.state.winning_point
            &&& after.state.play_limit_secs == room.state.play_limit_secs
            &&& after.state.game_winner == room.state.game_winner
            &&& after.ready.len() == room.ready.len()
            &&& forall|i: int| 0 <= i < room.ready.len() ==> #[trigger] after.ready[i]
            &&& after.started == room.started
            &&& after.players == room.players
            &&& after.driver.pending == Some(PendingAction::EnterPlaying)
            &&& after.driver.next_action_at_ms == now_ms
        }),
{
    let reset = room.readied_for_next().table_reset();
    discard::law_deal_in_thirteens(reset, deck, seat);
    let part = deck.subrange(13 * seat, 13 * seat + 13);
    assert(part =~= Seq::new(13, |k: int| deck[13 * seat + k]));
    let after = room.round_started(deck, now_ms);
    assert(after.state.players[seat] == reset.dealt(deck).players[seat]);
}

/// Looking a room up says whether a token would let somebody back in, forgets
/// those whose three hundred seconds are over, and touches no seat.
pub proof fn law_looking_up(room: RoomModel, token: Seq<char>, now: u64)
    ensures
        room.open_to(token, now) <==> exists|i: int|
            0 <= i < room.disconnected_players.len() && (
            #[trigger] room.disconnected_players[i]).1 == token && room.disconnected_players[i].2
                > 0 && now - room.disconnected_players[i].2 < 300,
        room.looked_up(now).disconnected_players == room.disconnected_players.filter(
            |e: (usize, Seq<char>, u64)| e.2 > 0 && now - e.2 < 300,
        ),
        room.looked_up(now).players == room.players,
        room.looked_up(now).state == room.state,
{
    law_way_back_is_open(room, token, token, token, now);
    rejoin::law_check_predicts_rejoin(room, token, token, token, now);
    promises::law_dropouts_expire(room, 300, now);
    let f = |e: (usize, Seq<char>, u64)| e.2 > 0 && now - e.2 < 300u64;
    let g = |e: (usize, Seq<char>, u64)| e.2 > 0 && now - e.2 < 300;
    assert(f =~= g);
}

/// Everybody is told who is ready or not, under their name, and so is the one who
/// has said it.
pub proof fn law_readiness_is_told(room: RoomModel, seat: usize, ready: bool)
    requires
        room.aligned(),
    ensures
        ({
            let told = MsgModel::PlayerReady {
                player_id: seat,
                name: room.players[seat as int].name,
                ready,
            };
            &&& seat < room.players.len() && !room.players[seat as int].is_bot ==> (
            room.ready_answer(seat, ready) matches Ok(out) && out.broadcast == seq![told]
                && out.reply == Some(told) && !out.removed && out.renumbered.len() == 0)
            &&& seat < room.players.len() && room.players[seat as int].is_bot ==> (
            room.ready_answer(seat, ready) matches Err(reason) && reason
                == "Bots cannot be readied"@)
            &&& seat >= room.players.len() ==> (room.ready_answer(seat, ready) matches Err(reason)
                && reason == "Seat not found"@)
        }),
{
    entry::lemma_dense_seat(room.players, seat, 0);
    if seat < room.players.len() && !room.players[seat as int].is_bot {
        let told = MsgModel::PlayerReady {
            player_id: seat,
            name: room.players[seat as int].name,
            ready,
        };
        assert(room.ready_answer(seat, ready)->Ok_0.broadcast =~= seq![told]);
    }
}

/// Everybody is told the settings after a change, and so is whoever made it; a
/// refused change changes nothing.
pub proof fn law_settings_are_told(
    room: RoomModel,
    id: usize,
    play_limit_secs: Option<u32>,
    winning_point: Option<u32>,
)
    ensures
        ({
            let after = room.settings_tried(id, play_limit_secs, winning_point);
            let told = MsgModel::RoomSettings {
                play_limit_secs: after.state.play_limit_secs,
                winning_point: after.state.winning_point,
            };
            match room.settings_answer(id, play_limit_secs, winning_point) {
                Ok(out) => {
                    &&& out.broadcast == seq![told]
                    &&& out.reply == Some(told)
                    &&& !out.removed
                    &&& out.renumbered.len() == 0
                    &&& room.settings_refusal(id, play_limit_secs, winning_point) is None
                    &&& play_limit_secs matches Some(v) ==> after.state.play_limit_secs == v
                    &&& winning_point matches Some(v) ==> after.state.winning_point == v
                },
                Err(reason) => {
                    &&& after == room
                    &&& room.settings_refusal(id, play_limit_secs, winning_point) == Some(reason)
                },
            }
        }),
{
    let after = room.settings_tried(id, play_limit_secs, winning_point);
    let told = MsgModel::RoomSettings {
        play_limit_secs: after.state.play_limit_secs,
        winning_point: after.state.winning_point,
    };
    if room.settings_refusal(id, play_limit_secs, winning_point) is None {
        let out = room.settings_answer(id, play_limit_secs, winning_point)->Ok_0;
        assert(out.broadcast =~= seq![told]);
    }
}

/// Why the settings stay as they are.
pub proof fn law_why_settings_stay(
    room: RoomModel,
    id: usize,
    play_limit_secs: Option<u32>,
    winning_point: Option<u32>,
)
    ensures
        ({
            let why = room.settings_refusal(id, play_limit_secs, winning_point);
            let host = exists|i: int|
                0 <= i < room.players.len() && (#[trigger] room.players[i]).id == id
                    && room.players[i].is_creator;
            let open = !room.started && (room.state.phase == GamePhase::Lobby || room.state.phase
                == GamePhase::GameOver);
            &&& !host ==> why == Some("Only the host can change room settings"@)
            &&& host && !open ==> why == Some(
                "Room settings are locked after the game has started"@,
            )
            &&& host && open && play_limit_secs is None && winning_point is None ==> why == Some(
                "Nothing to update"@,
            )
            &&& host && open && (play_limit_secs matches Some(v) && (v < 1 || v > 120)) ==> why
                == Some("Play limit must be 1-120 seconds"@)
            &&& host && open && play_limit_secs is None && (winning_point matches Some(v) && (v < 1
                || v > 9999)) ==> why == Some("Winning point must be 1-9999"@)
        }),
{
}

/// Why a round does not start.
pub proof fn law_why_no_round_starts(room: RoomModel, id: usize)
    ensures
        ({
            let why = room.start_refusal(id);
            let host = exists|i: int|
                0 <= i < room.players.len() && (#[trigger] room.players[i]).id == id
                    && room.players[i].is_creator;
            &&& !host ==> why == Some("Only the room creator can start the game"@)
            &&& host && room.state.game_winner is Some ==> why == Some(
                "Match already won — a new game is locked"@,
            )
            &&& host && room.state.game_winner is None && (room.state.phase
                == GamePhase::ThreeDiscard || room.state.phase == GamePhase::Playing) ==> why
                == Some("Game already started"@)
        }),
{
}

/// The start of a round is told to everybody, with the game; whoever started it
/// gets the game as their answer.
pub proof fn law_starts_are_told(room: RoomModel)
    ensures
        room.start_report().broadcast == seq![
            MsgModel::GameStarted,
            MsgModel::State { state: room.state },
        ],
        room.start_report().reply == Some(MsgModel::State { state: room.state }),
        !room.start_report().removed,
        room.start_report().renumbered.len() == 0,
{
    assert(room.start_report().broadcast =~= seq![
        MsgModel::GameStarted,
        MsgModel::State { state: room.state },
    ]);
}

/// When somebody without the crown leaves a lobby for good, everybody is told
/// that, the new numbers of those behind them, and the game.
pub proof fn law_lobby_removals_are_told(
    manager: ManagerModel,
    room: RoomModel,
    seat: usize,
    now: u64,
)
    requires
        room.aligned(),
        room.state.phase == GamePhase::Lobby,
        seat < room.players.len() <= usize::MAX,
        !room.players[seat as int].is_bot,
        !room.players[seat as int].is_creator,
    ensures
        ({
            let left = MsgModel::PlayerLeft {
                player_id: seat,
                name: room.players[seat as int].name,
            };
            let moves = Seq::new(
                (room.players.len() - seat - 1) as nat,
                |k: int| ((seat + 1 + k) as usize, (seat + k) as usize),
            );
            manager.removal_answer(room, seat, now) matches Ok(out) && {
                &&& out.broadcast == seq![
                    left,
                    MsgModel::SeatChanged { renumbered: moves },
                    MsgModel::State { state: manager.removed(room, seat, now).state },
                ]
                &&& out.reply == Some(left)
                &&& out.renumbered == moves
                &&& !out.removed
            }
        }),
{
    entry::lemma_dense_seat(room.players, seat, 0);
    let parted = room.parted(seat as int);
    assert(parted.players == room.players && parted.state == room.state && parted.ready
        == room.ready);
    lobby::law_removal_closes_ranks(parted, seat);
    let moves = Seq::new(
        (room.players.len() - seat - 1) as nat,
        |k: int| ((seat + 1 + k) as usize, (seat + k) as usize),
    );
    assert(parted.seat_moves(seat) =~= moves);
    let out = manager.removal_answer(room, seat, now)->Ok_0;
    let left = MsgModel::PlayerLeft { player_id: seat, name: room.players[seat as int].name };
    assert(out.broadcast =~= seq![
        left,
        MsgModel::SeatChanged { renumbered: moves },
        MsgModel::State { state: manager.removed(room, seat, now).state },
    ]);
}

/// Those whose seats go because they have been gone for too long are named, in
/// the order of their seats.
pub proof fn law_stale_seats_are_named(room: RoomModel, timeout_secs: u64, now: u64)
    requires
        room.state.phase == GamePhase::Lobby,
    ensures
        room.reaped_seats(timeout_secs, now) == room.players.filter(
            |p: RoomPlayerModel| gone_for(p, timeout_secs, now),
        ).map_values(|p: RoomPlayerModel| (p.id, p.name)),
{
    let gone = |p: RoomPlayerModel| gone_for(p, timeout_secs, now);
    let n = room.players.len() as int;
    lemma_named(room, timeout_secs, now, n, gone);
    assert(room.players.take(n) =~= room.players);
}

proof fn lemma_named(
    room: RoomModel,
    timeout_secs: u64,
    now: u64,
    n: int,
    gone: spec_fn(RoomPlayerModel) -> bool,
)
    requires
        0 <= n <= room.players.len(),
        forall|p: RoomPlayerModel| #[trigger] gone(p) <==> gone_for(p, timeout_secs, now),
    ensures
        room.stale_seats(timeout_secs, now, n) == room.players.take(n).filter(gone).map_values(
            |p: RoomPlayerModel| (p.id, p.name),
        ),
    decreases n,
{
    reveal(Seq::filter);
    let name = |p: RoomPlayerModel| (p.id, p.name);
    if n > 0 {
        lemma_named(room, timeout_secs, now, n - 1, gone);
        assert(room.players.take(n).drop_last() =~= room.players.take(n - 1));
        assert(room.players.take(n).last() == room.players[n - 1]);
        assert(gone(room.players[n - 1]) <==> room.is_stale(n - 1, timeout_secs, now));
        let rest = room.players.take(n - 1).filter(gone);
        assert(rest.push(room.players[n - 1]).map_values(name) =~= rest.map_values(name).push(
            (room.players[n - 1].id, room.players[n - 1].name),
        ));
    } else {
        assert(room.players.take(n).filter(gone).map_values(name) =~= Seq::empty());
    }
}

/// A seat that stays when stale ones go has as many seats before it as stay before
/// it.
pub proof fn law_new_numbers(room: RoomModel, timeout_secs: u64, now: u64, seat: usize)
    requires
        seat < room.players.len() <= usize::MAX,
    ensures
        room.new_number(timeout_secs, now, seat) == room.players.take(seat as int).filter(
            |p: RoomPlayerModel| !gone_for(p, timeout_secs, now),
        ).len(),
        room.is_stale(seat as int, timeout_secs, now) <==> gone_for(
            room.players[seat as int],
            timeout_secs,
            now,
        ),
{
    let stays = |p: RoomPlayerModel| !gone_for(p, timeout_secs, now);
    lemma_staying(room, timeout_secs, now, seat as int, stays);
    lemma_filter_short(room.players.take(seat as int), stays);
}

proof fn lemma_filter_short(players: Seq<RoomPlayerModel>, f: spec_fn(RoomPlayerModel) -> bool)
    ensures
        players.filter(f).len() <= players.len(),
    decreases players.len(),
{
    reveal(Seq::filter);
    if players.len() > 0 {
        lemma_filter_short(players.drop_last(), f);
    }
}

/// Whoever drops out of a lobby, and has not the crown, is marked as gone from
/// then on and keeps their seat as it is; their entry is kept for them. Nobody
/// else's seat changes as long as nobody else is gone.
pub proof fn law_dropping_out_of_a_lobby(
    manager: ManagerModel,
    room: RoomModel,
    seat: usize,
    token: Seq<char>,
    now: u64,
)
    requires
        room.aligned(),
        room.players.len() <= usize::MAX,
        room.state.phase == GamePhase::Lobby,
        seat < room.players.len(),
        !room.players[seat as int].is_bot,
        !room.players[seat as int].is_creator,
        room.players[seat as int].token == Some(token),
        forall|i: int|
            0 <= i < room.disconnected_players.len() ==> (
            #[trigger] room.disconnected_players[i]).0 != seat,
        forall|i: int|
            0 <= i < room.players.len() ==> (#[trigger] room.players[i]).disconnect_time is None,
        manager.lobby_disconnect_timeout_secs > 0,
    ensures
        ({
            let after = manager.dropped(room, seat, now);
            let p = seat as int;
            &&& after.players.len() == room.players.len()
            &&& !after.players[p].connected
            &&& after.players[p].disconnect_time == Some(now)
            &&& after.players[p].name == room.players[p].name
            &&& after.players[p].token == Some(token)
            &&& !after.players[p].is_bot
            &&& after.state == room.state
            &&& after.ready == room.ready
            &&& after.disconnected_players.contains((seat, token, now))
            &&& forall|i: int|
                0 <= i < room.players.len() && i != p ==> #[trigger] after.players[i]
                    == room.players[i]
        }),
{
    entry::lemma_dense_seat(room.players, seat, 0);
    let noted = room.with_dropout(seat, token, now);
    assert(noted.disconnected_players == room.disconnected_players.push((seat, token, now)));
    let dropped = room.lobby_dropped(seat as int, now);
    assert(dropped == noted.marked_gone(seat as int, now));
    assert forall|i: int| 0 <= i < dropped.players.len() implies !dropped.is_stale(
        i,
        manager.lobby_disconnect_timeout_secs,
        now,
    ) by {
        if i != seat {
            assert(dropped.players[i] == room.players[i]);
        }
    }
    returning::lemma_nobody_stale(dropped, manager.lobby_disconnect_timeout_secs, now);
    let last = room.disconnected_players.len() as int;
    assert(dropped.disconnected_players[last] == (seat, token, now));
}

/// The connection of a bot's seat is only marked as gone; a bot cannot be removed.
pub proof fn law_bots_stay(manager: ManagerModel, room: RoomModel, seat: usize, now: u64)
    requires
        room.aligned(),
        seat < room.players.len(),
        room.players[seat as int].is_bot,
    ensures
        ({
            let after = manager.dropped(room, seat, now);
            let p = seat as int;
            &&& after.players.len() == room.players.len()
            &&& after.players[p].is_bot
            &&& !after.players[p].connected
            &&& after.players[p].disconnect_time == Some(now)
            &&& after.state == room.state
            &&& after.disconnected_players == room.disconnected_players
            &&& forall|i: int|
                0 <= i < room.players.len() && i != p ==> #[trigger] after.players[i]
                    == room.players[i]
            &&& manager.removed(room, seat, now) == room
            &&& manager.removal_answer(room, seat, now) matches Ok(out) && out.broadcast.len() == 0
                && out.reply is None && !out.removed
        }),
{
    entry::lemma_dense_seat(room.players, seat, 0);
}

/// The crown stays where nobody can take it, and outside the lobby.
pub proof fn law_crown_stays(room: RoomModel, leaving: usize)
    requires
        room.state.phase != GamePhase::Lobby || forall|i: int|
            0 <= i < room.players.len() ==> (#[trigger] room.players[i]).is_bot
                || !room.players[i].connected || room.players[i].id == leaving,
    ensures
        room.crown_passed(leaving) == room,
{
    if room.state.phase == GamePhase::Lobby {
        lemma_no_heir(room, leaving, 0);
    }
}

proof fn lemma_no_heir(room: RoomModel, leaving: usize, from: int)
    requires
        0 <= from,
        forall|i: int|
            0 <= i < room.players.len() ==> (#[trigger] room.players[i]).is_bot
                || !room.players[i].connected || room.players[i].id == leaving,
    ensures
        room.heir(leaving, from) is None,
    decreases room.players.len() - from,
{
    if from < room.players.len() {
        assert(room.players[from].is_bot || !room.players[from].connected || room.players[from].id
            == leaving);
        lemma_no_heir(room, leaving, from + 1);
    }
}

/// Dealing without more ado: everybody has their thirteen cards of the deck, with
/// the threes set aside.
pub proof fn law_dealing_and_discarding(room: RoomModel, deck: Seq<Card>, seat: int)
    requires
        room.state.players.len() >= 4,
        deck.len() == 52,
        0 <= seat < 4,
    ensures
        ({
            let after = room.discard_dealt(deck);
            &&& after.state.phase == GamePhase::ThreeDiscard
            &&& after.players == room.players
            &&& after.started == room.started
            &&& after.state.three_discard matches Some(td)
                && td.player_cards[seat].to_multiset().add(
                after.state.players[seat].hand.to_multiset(),
            ) == deck.subrange(13 * seat, 13 * seat + 13).to_multiset()
                && after.state.current_player == td.order[0]
        }),
{
    let dealt = room.state.dealt(deck);
    discard::law_deal_in_thirteens(room.state, deck, seat);
    let part = deck.subrange(13 * seat, 13 * seat + 13);
    assert(part =~= Seq::new(13, |k: int| deck[13 * seat + k]));
    discard::law_threes_are_set_aside(dealt, seat);
}

/// Whoever drops out of a lobby is told of to everybody else, with the game, as
/// long as somebody else is connected and nobody has been gone for too long.
pub proof fn law_lobby_dropouts_are_told(
    manager: ManagerModel,
    room: RoomModel,
    seat: usize,
    token: Seq<char>,
    other: int,
    now: u64,
)
    requires
        room.aligned(),
        room.players.len() <= usize::MAX,
        room.state.phase == GamePhase::Lobby,
        seat < room.players.len(),
        !room.players[seat as int].is_bot,
        !room.players[seat as int].is_creator,
        room.players[seat as int].token == Some(token),
        forall|i: int|
            0 <= i < room.disconnected_players.len() ==> (
            #[trigger] room.disconnected_players[i]).0 != seat,
        forall|i: int|
            0 <= i < room.players.len() ==> (#[trigger] room.players[i]).disconnect_time is None,
        manager.lobby_disconnect_timeout_secs > 0,
        0 <= other < room.players.len(),
        other != seat,
        !room.players[other].is_bot,
        room.players[other].connected,
    ensures
        ({
            let left = MsgModel::PlayerLeft {
                player_id: seat,
                name: room.players[seat as int].name,
            };
            manager.drop_answer(room, seat, now) matches Ok(out) && {
                &&& out.broadcast == seq![left, MsgModel::State { state: room.state }]
                &&& out.reply == Some(left)
                &&& !out.removed
                &&& out.renumbered.len() == 0
            }
        }),
{
    entry::lemma_dense_seat(room.players, seat, 0);
    law_dropping_out_of_a_lobby(manager, room, seat, token, now);
    let after = manager.dropped(room, seat, now);
    assert(!after.players[other].is_bot && after.players[other].connected);
    assert(!after.orphaned(manager.orphan_timeout_secs, now));
    let dropped = room.lobby_dropped(seat as int, now);
    let timeout = manager.lobby_disconnect_timeout_secs;
    let noted = room.with_dropout(seat, token, now);
    assert(dropped == noted.marked_gone(seat as int, now));
    assert forall|i: int| 0 <= i < dropped.players.len() implies !gone_for(
        #[trigger] dropped.players[i],
        timeout,
        now,
    ) by {
        if i != seat {
            assert(dropped.players[i] == room.players[i]);
        }
    }
    lemma_none_gone(dropped, timeout, now, dropped.players.len() as int);
    let kept = dropped.kept_places(timeout, now, dropped.players.len() as int);
    lemma_no_moves(kept, kept.len() as int);
    let left = MsgModel::PlayerLeft { player_id: seat, name: room.players[seat as int].name };
    assert(room.players[seat as int].id == seat);
    let out = manager.drop_answer(room, seat, now)->Ok_0;
    assert(leaving::left_msgs(dropped.reaped_seats(timeout, now)) =~= Seq::empty());
    assert(out.broadcast =~= seq![left, MsgModel::State { state: room.state }]);
}

proof fn lemma_none_gone(room: RoomModel, timeout_secs: u64, now: u64, n: int)
    requires
        0 <= n <= room.players.len() <= usize::MAX,
        forall|i: int|
            0 <= i < room.players.len() ==> !gone_for(
                #[trigger] room.players[i],
                timeout_secs,
                now,
            ),
    ensures
        room.stale_seats(timeout_secs, now, n).len() == 0,
        room.kept_places(timeout_secs, now, n) == Seq::new(n as nat, |i: int| i as usize),
    decreases n,
{
    if n > 0 {
        lemma_none_gone(room, timeout_secs, now, n - 1);
        assert(!gone_for(room.players[n - 1], timeout_secs, now));
    }
    assert(room.kept_places(timeout_secs, now, n) =~= Seq::new(n as nat, |i: int| i as usize));
}

proof fn lemma_no_moves(places: Seq<usize>, k: int)
    requires
        0 <= k <= places.len(),
        forall|i: int| 0 <= i < places.len() ==> #[trigger] places[i] == i,
    ensures
        lobby::place_moves(places, k).len() == 0,
    decreases k,
{
    if k > 0 {
        lemma_no_moves(places, k - 1);
    }
}

/// A game that the last human drops out of goes at once where rooms without
/// humans are not kept, and stays for a while where they are.
pub proof fn law_last_human_leaves_a_game(
    manager: ManagerModel,
    room: RoomModel,
    seat: usize,
    now: u64,
)
    requires
        room.aligned(),
        room.state.phase != GamePhase::Lobby,
        seat < room.players.len(),
        !room.players[seat as int].is_bot,
        forall|i: int|
            0 <= i < room.players.len() && i != seat ==> (#[trigger] room.players[i]).is_bot
                || !room.players[i].connected,
    ensures
        manager.drop_answer(room, seat, now) matches Ok(out) && (out.removed
            <==> manager.orphan_timeout_secs == 0),
        manager.removal_answer(room, seat, now) matches Ok(out) && (out.removed
            <==> manager.orphan_timeout_secs == 0),
{
    entry::lemma_dense_seat(room.players, seat, 0);
    let dropped = manager.dropped(room, seat, now);
    let removed = manager.removed(room, seat, now);
    let away = room.dropout_noted(seat as int, now).bot_taken(seat as int, seat);
    let gone = room.bot_taken(seat as int, seat);
    assert(!away.human_present()) by {
        if away.human_present() {
            let i = choose|i: int|
                0 <= i < away.players.len() && !(#[trigger] away.players[i]).is_bot
                    && away.players[i].connected;
            assert(i != seat && away.players[i] == room.players[i]);
        }
    }
    assert(!gone.human_present()) by {
        if gone.human_present() {
            let i = choose|i: int|
                0 <= i < gone.players.len() && !(#[trigger] gone.players[i]).is_bot
                    && gone.players[i].connected;
            assert(i != seat && gone.players[i] == room.players[i]);
        }
    }
    assert(dropped == away.absence_noted(now));
    assert(removed == gone.absence_noted(now));
    room::law_empty_room_orphaned_after_timeout(away, now, manager.orphan_timeout_secs, now);
    room::law_empty_room_orphaned_after_timeout(gone, now, manager.orphan_timeout_secs, now);
}

/// When the creator of a private lobby leaves it for good, the first connected
/// human after them in the room's order has the crown, under their new number.
pub proof fn law_creators_leave_for_good(
    manager: ManagerModel,
    room: RoomModel,
    seat: usize,
    heir: int,
    now: u64,
)
    requires
        room.aligned(),
        room.state.phase == GamePhase::Lobby,
        !room.is_public,
        seat < room.players.len() <= usize::MAX,
        !room.players[seat as int].is_bot,
        0 <= heir < room.players.len(),
        heir != seat,
        !room.players[heir].is_bot,
        room.players[heir].connected,
        forall|i: int|
            0 <= i < heir ==> (#[trigger] room.players[i]).is_bot || !room.players[i].connected || i
                == seat,
        forall|i: int|
            0 <= i < room.players.len() ==> ((#[trigger] room.players[i]).is_creator <==> i
                == seat),
        forall|i: int|
            0 <= i < room.players.len() ==> ((#[trigger] room.state.players[i]).is_creator <==> i
                == seat),
    ensures
        ({
            let after = manager.removed(room, seat, now);
            let place = if heir < seat {
                heir
            } else {
                heir - 1
            };
            &&& after.players.len() == room.players.len() - 1
            &&& after.players[place].name == room.players[heir].name
            &&& forall|i: int|
                0 <= i < after.players.len() ==> ((#[trigger] after.players[i]).is_creator <==> i
                    == place)
        }),
{
    entry::lemma_dense_seat(room.players, seat, 0);
    law_crown_goes_to_the_first_human(room, seat, heir);
    leaving::lemma_crown_keeps_alignment(room, seat);
    let crowned = room.crown_passed(seat);
    let parted = room.parted(seat as int);
    assert(parted.players == crowned.players && parted.state == crowned.state && parted.ready
        == crowned.ready);
    assert(room.players[heir].id == heir);
    lemma_crown_keeps_the_rest(room, seat, heir);
    lobby::law_removal_closes_ranks(parted, seat);
    let after = manager.removed(room, seat, now);
    assert(after == parted.ranks_closed(seat));
    assert forall|i: int| 0 <= i < after.players.len() implies ((
    #[trigger] after.players[i]).is_creator <==> i == (if heir < seat {
        heir
    } else {
        heir - 1
    })) by {
        let from = if i < seat {
            i
        } else {
            i + 1
        };
        assert(after.players[i].is_creator == crowned.players[from].is_creator);
    }
}

proof fn lemma_crown_keeps_the_rest(room: RoomModel, leaving: usize, i: int)
    requires
        0 <= i < room.players.len(),
    ensures
        room.crown_passed(leaving).players.len() == room.players.len(),
        room.crown_passed(leaving).players[i] == (RoomPlayerModel {
            is_creator: room.crown_passed(leaving).players[i].is_creator,
            ..room.players[i]
        }),
{
    leaving::lemma_heir_in_range(room, leaving, 0);
    if let Some(place) = room.heir(leaving, 0) {
        let crowned = room.players.update(
            place,
            RoomPlayerModel { is_creator: true, ..room.players[place] },
        );
        lemma_seat_in_range(crowned, leaving, 0);
    }
}

proof fn lemma_seat_in_range(players: Seq<RoomPlayerModel>, id: usize, from: int)
    requires
        0 <= from,
    ensures
        room::seat_with_id(players, id, from) matches Some(at) ==> 0 <= at < players.len(),
    decreases players.len() - from,
{
    if from < players.len() {
        lemma_seat_in_range(players, id, from + 1);
    }
}

/// When the creator of a private lobby drops out of it, the first connected human
/// of the others has the crown from then on, and the creator keeps their seat.
pub proof fn law_creators_drop_out(
    manager: ManagerModel,
    room: RoomModel,
    seat: usize,
    heir: int,
    now: u64,
)
    requires
        room.aligned(),
        room.state.phase == GamePhase::Lobby,
        !room.is_public,
        seat < room.players.len() <= usize::MAX,
        !room.players[seat as int].is_bot,
        0 <= heir < room.players.len(),
        heir != seat,
        !room.players[heir].is_bot,
        room.players[heir].connected,
        forall|i: int|
            0 <= i < heir ==> (#[trigger] room.players[i]).is_bot || !room.players[i].connected || i
                == seat,
        forall|i: int|
            0 <= i < room.players.len() ==> ((#[trigger] room.players[i]).is_creator <==> i
                == seat),
        forall|i: int|
            0 <= i < room.players.len() ==> ((#[trigger] room.state.players[i]).is_creator <==> i
                == seat),
        forall|i: int|
            0 <= i < room.players.len() ==> (#[trigger] room.players[i]).disconnect_time is None,
        manager.lobby_disconnect_timeout_secs > 0,
    ensures
        ({
            let after = manager.dropped(room, seat, now);
            &&& after.players.len() == room.players.len()
            &&& !after.players[seat as int].connected
            &&& after.players[seat as int].disconnect_time == Some(now)
            &&& after.ready[heir]
            &&& forall|i: int|
                0 <= i < after.players.len() ==> ((#[trigger] after.players[i]).is_creator <==> i
                    == heir)
            &&& forall|i: int|
                0 <= i < after.players.len() ==> (#[trigger] after.players[i]).name
                    == room.players[i].name
        }),
{
    entry::lemma_dense_seat(room.players, seat, 0);
    let timeout = manager.lobby_disconnect_timeout_secs;
    let gone = room.dropout_noted(seat as int, now).marked_gone(seat as int, now);
    assert(gone.state == room.state && gone.ready == room.ready);
    assert forall|i: int| 0 <= i < gone.players.len() implies (#[trigger] gone.players[i]).id
        == i by {
        assert(room.players[i].id == i);
    }
    assert(gone.aligned());
    assert forall|i: int| 0 <= i < heir implies (#[trigger] gone.players[i]).is_bot
        || !gone.players[i].connected || i == seat by {
        assert(room.players[i].is_bot || !room.players[i].connected || i == seat);
    }
    assert forall|i: int| 0 <= i < gone.players.len() implies ((
    #[trigger] gone.players[i]).is_creator <==> i == seat) by {
        assert(room.players[i].is_creator <==> i == seat);
    }
    assert(gone.players[heir] == room.players[heir]);
    law_crown_goes_to_the_first_human(gone, seat, heir);
    leaving::lemma_crown_keeps_alignment(gone, seat);
    let crowned = gone.crown_passed(seat);
    assert(room.players[seat as int].is_creator);
    assert(room.players[seat as int].id == seat);
    assert(crowned == room.lobby_dropped(seat as int, now));
    assert forall|i: int| 0 <= i < crowned.players.len() implies !crowned.is_stale(
        i,
        timeout,
        now,
    ) by {
        lemma_crown_keeps_the_rest(gone, seat, i);
        if i != seat {
            assert(room.players[i].disconnect_time is None);
        }
    }
    returning::lemma_nobody_stale(crowned, timeout, now);
    let after = manager.dropped(room, seat, now);
    assert(after == crowned.absence_noted(now));
    lemma_crown_keeps_the_rest(gone, seat, seat as int);
    assert forall|i: int| 0 <= i < after.players.len() implies (#[trigger] after.players[i]).name
        == room.players[i].name by {
        lemma_crown_keeps_the_rest(gone, seat, i);
    }
}

} // verus!
