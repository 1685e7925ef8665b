//! What holds of dropping out, leaving and coming back together.
use crate::game::lobby;
use crate::game::room;
use crate::game::room::RoomModel;
use crate::game::state;
use crate::game::state::GamePhase;
use crate::game::state::PlayerModel;
use crate::protocol::MsgModel;
use crate::rooms;
use crate::rooms::ManagerModel;
use crate::rooms::entry;
use crate::rooms::leaving;
use crate::rooms::rejoin;
use vstd::prelude::*;

verus! {

pub proof fn lemma_entry_found(entries: Seq<(usize, Seq<char>, u64)>, token: Seq<char>, from: int)
    requires
        0 <= from,
    ensures
        match rejoin::entry_with_token(entries, token, from) {
            Some(at) => from <= at < entries.len() && entries[at].1 == token,
            None => forall|i: int| from <= i < entries.len() ==> (#[trigger] entries[i]).1 != token,
        },
    decreases entries.len() - from,
{
    if from < entries.len() && entries[from].1 != token {
        lemma_entry_found(entries, token, from + 1);
    }
}

/// The entry that was just added for a token is the one found for it later, if
/// no other has the token.
proof fn lemma_fresh_entry_found(
    entries: Seq<(usize, Seq<char>, u64)>,
    seat: usize,
    token: Seq<char>,
    at: u64,
    now: u64,
)
    requires
        forall|i: int| 0 <= i < entries.len() ==> (#[trigger] entries[i]).1 != token,
        at > state::elapsed(now, rooms::REJOIN_TIMEOUT_SECS),
    ensures
        ({
            let alive = room::entry_alive(rooms::REJOIN_TIMEOUT_SECS, now);
            let left = entries.push((seat, token, at)).filter(alive);
            rejoin::entry_with_token(left, token, 0) matches Some(k) && left[k] == (seat, token, at)
        }),
{
    let alive = room::entry_alive(rooms::REJOIN_TIMEOUT_SECS, now);
    let entry = (seat, token, at);
    let all = entries.push(entry);
    let left = all.filter(alive);
    assert(alive(entry));
    all.lemma_filter_contains(alive, entries.len() as int);
    assert(all[entries.len() as int] == entry);
    assert(left.contains(entry));
    let q = choose|q: int| 0 <= q < left.len() && left[q] == entry;
    lemma_entry_found(left, token, 0);
    match rejoin::entry_with_token(left, token, 0) {
        None => {
            assert(left[q].1 != token);
        },
        Some(k) => {
            assert(left.contains(left[k]));
            all.lemma_filter_contains_rev(alive, left[k]);
            let i = choose|i: int| 0 <= i < all.len() && all[i] == left[k];
            if i < entries.len() {
                assert(entries[i].1 != token);
            }
        },
    }
}

/// Whoever drops out of a game and comes back in time, with the token of their
/// seat, has the seat again as they left it: their hand and their points are
/// there, no bot plays for them, and everybody is told.
pub proof fn law_rejoin_restores_seat(
    manager: ManagerModel,
    room: RoomModel,
    seat: usize,
    token: Seq<char>,
    left_at: u64,
    code: Seq<char>,
    name: Seq<char>,
    now: u64,
)
    requires
        room.aligned(),
        room.state.phase != GamePhase::Lobby,
        seat < room.players.len(),
        !room.players[seat as int].is_bot,
        room.players[seat as int].token == Some(token),
        !room.has_dropout(seat),
        forall|i: int|
            0 <= i < room.disconnected_players.len() ==> (
            #[trigger] room.disconnected_players[i]).1 != token,
        left_at > state::elapsed(now, rooms::REJOIN_TIMEOUT_SECS),
    ensures
        ({
            let away = manager.dropped(room, seat, left_at);
            let back = away.rejoined(name, token, now);
            let p = seat as int;
            &&& away.players[p].is_bot && away.state.players[p].is_bot
            &&& away.state.players[p].hand == room.state.players[p].hand
            &&& back.state.players[p] == (PlayerModel {
                name,
                is_bot: false,
                connected: true,
                ..room.state.players[p]
            })
            &&& back.players[p].token == Some(token) && !back.players[p].is_bot
                && back.players[p].connected
            &&& back.state.scores == room.state.scores
            &&& back.last_human_disconnect_at is None
            &&& away.rejoin_answer(code, name, token, now) matches Ok(out) && out.reply == Some(
                MsgModel::Rejoined { player_id: seat, state: back.state, code, token },
            )
        }),
{
    entry::lemma_dense_seat(room.players, seat, 0);
    entry::lemma_dense_player(room.state.players, seat, 0);
    lemma_fresh_entry_found(room.disconnected_players, seat, token, left_at, now);
    let noted = room.dropout_noted(seat as int, left_at);
    assert(noted == room.with_dropout(seat, token, left_at));
    assert(noted.disconnected_players == room.disconnected_players.push((seat, token, left_at)));
    assert(manager.dropped(room, seat, left_at) == room.game_dropped(seat as int, left_at));
}

/// Whoever drops out of a lobby keeps their seat as long as the timeout is not
/// over, and has it again when they come back in time.
pub proof fn law_lobby_dropout_keeps_seat(
    manager: ManagerModel,
    room: RoomModel,
    seat: usize,
    token: Seq<char>,
    left_at: u64,
    code: Seq<char>,
    name: Seq<char>,
    now: u64,
)
    requires
        room.aligned(),
        room.players.len() <= usize::MAX,
        room.state.phase == GamePhase::Lobby,
        seat < room.players.len(),
        !room.players[seat as int].is_bot,
        !room.players[seat as int].is_creator,
        room.players[seat as int].token == Some(token),
        !room.has_dropout(seat),
        forall|i: int|
            0 <= i < room.disconnected_players.len() ==> (
            #[trigger] room.disconnected_players[i]).1 != token,
        forall|i: int|
            0 <= i < room.players.len() ==> (#[trigger] room.players[i]).disconnect_time is None,
        manager.lobby_disconnect_timeout_secs > 0,
        left_at > state::elapsed(now, rooms::REJOIN_TIMEOUT_SECS),
    ensures
        ({
            let away = manager.dropped(room, seat, left_at);
            let back = away.rejoined(name, token, now);
            let p = seat as int;
            &&& away.players.len() == room.players.len()
            &&& !away.players[p].connected && away.players[p].token == Some(token)
            &&& back.players[p].connected && back.players[p].name == name
                && back.players[p].disconnect_time is None
            &&& away.rejoin_answer(code, name, token, now) matches Ok(out) && out.reply == Some(
                MsgModel::Rejoined { player_id: seat, state: back.state, code, token },
            )
        }),
{
    entry::lemma_dense_seat(room.players, seat, 0);
    entry::lemma_dense_player(room.state.players, seat, 0);
    lemma_fresh_entry_found(room.disconnected_players, seat, token, left_at, now);
    let noted = room.dropout_noted(seat as int, left_at);
    assert(noted.disconnected_players == room.disconnected_players.push((seat, token, left_at)));
    let dropped = room.lobby_dropped(seat as int, left_at);
    let timeout = manager.lobby_disconnect_timeout_secs;
    assert forall|i: int| 0 <= i < dropped.players.len() implies !dropped.is_stale(
        i,
        timeout,
        left_at,
    ) by {
        assert(room.players[i].disconnect_time is None);
    }
    leaving::lemma_lobby_dropped_aligned(room, seat as int, left_at);
    lemma_nobody_stale(dropped, timeout, left_at);
    let away = manager.dropped(room, seat, left_at);
    assert(away == dropped.absence_noted(left_at));
}

/// Where nobody is stale, nothing is taken away.
pub proof fn lemma_nobody_stale(room: RoomModel, timeout_secs: u64, now: u64)
    requires
        room.aligned(),
        room.players.len() <= usize::MAX,
        forall|i: int| 0 <= i < room.players.len() ==> !room.is_stale(i, timeout_secs, now),
    ensures
        room.reaped(timeout_secs, now) == room,
{
    let n = room.players.len() as int;
    lemma_all_kept(room, timeout_secs, now, n);
    let after = room.reaped(timeout_secs, now);
    let keep = room.entry_kept(timeout_secs, now);
    lemma_filter_all(room.disconnected_players, keep);
    assert forall|seat: usize| room.new_number(timeout_secs, now, seat) == seat by {
        if seat < n {
            lemma_all_kept(room, timeout_secs, now, seat as int);
        }
    }
    assert(after.disconnected_players =~= room.disconnected_players);
    assert(after.players =~= room.players);
    assert(after.state.players =~= room.state.players);
    assert(after.ready =~= room.ready);
    assert(after.state.ready =~= room.state.ready);
    assert(after.state.scores =~= room.state.scores);
    assert(after.state =~= room.state);
    assert(after =~= room);
}

proof fn lemma_all_kept(room: RoomModel, timeout_secs: u64, now: u64, n: int)
    requires
        0 <= n <= room.players.len() <= usize::MAX,
        forall|i: int| 0 <= i < room.players.len() ==> !room.is_stale(i, timeout_secs, now),
    ensures
        room.kept_places(timeout_secs, now, n) == Seq::new(n as nat, |i: int| i as usize),
    decreases n,
{
    if n > 0 {
        lemma_all_kept(room, timeout_secs, now, n - 1);
        assert(!room.is_stale(n - 1, timeout_secs, now));
    }
    assert(room.kept_places(timeout_secs, now, n) =~= Seq::new(n as nat, |i: int| i as usize));
}

proof fn lemma_filter_all(
    entries: Seq<(usize, Seq<char>, u64)>,
    keep: spec_fn((usize, Seq<char>, u64)) -> bool,
)
    requires
        forall|i: int| 0 <= i < entries.len() ==> keep(#[trigger] entries[i]),
    ensures
        entries.filter(keep) == entries,
    decreases entries.len(),
{
    reveal(Seq::filter);
    if entries.len() > 0 {
        assert(keep(entries[entries.len() - 1]));
        assert forall|i: int| 0 <= i < entries.drop_last().len() implies keep(
            #[trigger] entries.drop_last()[i],
        ) by {
            assert(keep(entries[i]));
        }
        lemma_filter_all(entries.drop_last(), keep);
        assert(entries.drop_last().push(entries.last()) =~= entries);
    }
}

/// Whoever leaves a private lobby for good is gone: one seat less, nobody can
/// come back with their token, and the seats stay in agreement. Somebody who is
/// connected then wears the crown if it was theirs.
pub proof fn law_removal_is_final(
    manager: ManagerModel,
    room: RoomModel,
    seat: usize,
    token: Seq<char>,
    now: u64,
)
    requires
        room.aligned(),
        room.state.phase == GamePhase::Lobby,
        seat < room.players.len() <= usize::MAX,
        !room.players[seat as int].is_bot,
        room.players[seat as int].token == Some(token),
        !(room.players[seat as int].is_creator && room.is_public),
    ensures
        manager.removed(room, seat, now).aligned(),
        manager.removed(room, seat, now).players.len() == room.players.len() - 1,
        !manager.removed(room, seat, now).rejoinable(token),
{
    entry::lemma_dense_seat(room.players, seat, 0);
    let parted = room.parted(seat as int);
    leaving::lemma_crown_keeps_alignment(room, seat);
    assert(parted.aligned());
    assert(parted.players.len() == room.players.len());
    lobby::law_removal_closes_ranks(parted, seat);
    let after = manager.removed(room, seat, now);
    assert(after == parted.without_seat(seat));
    lemma_entry_found(after.disconnected_players, token, 0);
    if after.rejoinable(token) {
        let k = rejoin::entry_with_token(after.disconnected_players, token, 0).unwrap();
        lobby::law_removal_prevents_hijack(parted, seat, k);
        let i = choose|i: int|
            0 <= i < parted.disconnected_players.len() && (
            #[trigger] parted.disconnected_players[i]).0 != seat && after.disconnected_players[k]
                == (
                lobby::number_without(parted.disconnected_players[i].0, seat),
                parted.disconnected_players[i].1,
                parted.disconnected_players[i].2,
            );
        room.disconnected_players.lemma_filter_pred(leaving::entry_of_other_token(token), i);
    }
}

} // verus!
