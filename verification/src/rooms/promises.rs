//! What people can rely on in a room: who is listed and counted, who gets a seat
//! and keeps it, and when a room is gone.
use crate::game::room;
use crate::game::room::RoomModel;
use crate::game::room::RoomPlayerModel;
use crate::game::state::GamePhase;
use crate::rooms::overview;
use crate::rooms::overview::SummaryModel;
use crate::text;
use vstd::prelude::*;

verus! {

// ---------------------------------------------------------------------------
// The list of public rooms
// ---------------------------------------------------------------------------

/// The seats among the first `n` whose players are no bots.
pub open spec fn human_seats(players: Seq<RoomPlayerModel>, n: nat) -> Set<int> {
    Set::new(|i: int| 0 <= i < n && !players[i].is_bot)
}

proof fn lemma_human_seats(players: Seq<RoomPlayerModel>, n: nat)
    requires
        n <= players.len(),
    ensures
        human_seats(players, n).finite(),
        human_seats(players, n).len() == overview::human_count(players.take(n as int)),
    decreases n,
{
    if n == 0 {
        assert(human_seats(players, 0) =~= Set::<int>::empty());
    } else {
        let m = (n - 1) as nat;
        lemma_human_seats(players, m);
        assert(players.take(n as int).drop_last() =~= players.take(m as int));
        if players[m as int].is_bot {
            assert(human_seats(players, n) =~= human_seats(players, m));
        } else {
            assert(human_seats(players, n) =~= human_seats(players, m).insert(m as int));
        }
    }
}

/// A room is listed with as many players as it has seats whose players are no
/// bots.
pub proof fn law_people_are_counted(room: RoomModel)
    ensures
        human_seats(room.players, room.players.len()).finite(),
        room.summary().players == human_seats(room.players, room.players.len()).len(),
        room.summary().players == room.players.filter(|p: RoomPlayerModel| !p.is_bot).len(),
{
    lemma_human_seats(room.players, room.players.len());
    assert(room.players.take(room.players.len() as int) =~= room.players);
    lemma_people_filtered(room.players);
}

proof fn lemma_people_filtered(players: Seq<RoomPlayerModel>)
    ensures
        overview::human_count(players) == players.filter(|p: RoomPlayerModel| !p.is_bot).len(),
    decreases players.len(),
{
    reveal(Seq::filter);
    if players.len() > 0 {
        lemma_people_filtered(players.drop_last());
    }
}

/// Without bots every seat counts.
pub proof fn law_everybody_counts_without_bots(room: RoomModel)
    requires
        forall|i: int| 0 <= i < room.players.len() ==> !(#[trigger] room.players[i]).is_bot,
    ensures
        room.summary().players == room.players.len(),
    decreases room.players.len(),
{
    if room.players.len() > 0 {
        let fewer = RoomModel { players: room.players.drop_last(), ..room };
        assert forall|i: int| 0 <= i < fewer.players.len() implies !(
        #[trigger] fewer.players[i]).is_bot by {
            assert(!room.players[i].is_bot);
        }
        law_everybody_counts_without_bots(fewer);
    }
}

/// A new room counts its creator. Everybody who joins raises the number by one,
/// and a bot does not.
pub proof fn law_joining_raises_the_count(
    room: RoomModel,
    code: Seq<char>,
    name: Seq<char>,
    token: Seq<char>,
)
    ensures
        RoomModel::opened(code, name, token).summary().players == 1,
        room.seated_last(name, Some(token)).summary().players == room.summary().players + 1,
        room.seated_last(name, None).summary().players == room.summary().players,
        room.state.phase == GamePhase::Lobby && !room.started && room.players.len() < 4
            ==> room.joined(name, token).summary().players == room.summary().players + 1,
{
    reveal_with_fuel(overview::human_count, 2);
    let seated = room.seated_last(name, Some(token));
    assert(seated.players.drop_last() =~= room.players);
    let bot = room.seated_last(name, None);
    assert(bot.players.drop_last() =~= room.players);
}

/// The list shows a room's code, its four places, its phase and the name of
/// whoever sits first.
pub proof fn law_listed_as_it_is(room: RoomModel)
    ensures
        room.summary().code == room.code,
        room.summary().max_players == 4,
        room.state.phase == GamePhase::Lobby ==> room.summary().phase == "lobby"@,
        room.players.len() > 0 ==> room.summary().host == room.players[0].name,
        room.players.len() == 0 ==> room.summary().host.len() == 0,
{
}

/// The list holds the public rooms in their lobbies, all of them and no others,
/// in the order in which they come.
pub proof fn law_public_lobbies_are_listed(rooms: Seq<RoomModel>)
    ensures
        overview::listed(rooms) == rooms.filter(
            |r: RoomModel| r.is_public && r.state.phase == GamePhase::Lobby,
        ).map_values(|r: RoomModel| r.summary()),
    decreases rooms.len(),
{
    reveal(Seq::filter);
    let keep = |r: RoomModel| r.is_public && r.state.phase == GamePhase::Lobby;
    let show = |r: RoomModel| r.summary();
    if rooms.len() > 0 {
        law_public_lobbies_are_listed(rooms.drop_last());
        let rest = rooms.drop_last().filter(keep);
        if keep(rooms.last()) {
            assert(rooms.filter(keep) =~= rest.push(rooms.last()));
            assert(rest.push(rooms.last()).map_values(show) =~= rest.map_values(show).push(
                rooms.last().summary(),
            ));
        } else {
            assert(rooms.filter(keep) =~= rest);
        }
    } else {
        assert(rooms.filter(keep).map_values(show) =~= Seq::<SummaryModel>::empty());
    }
}

// ---------------------------------------------------------------------------
// Seats
// ---------------------------------------------------------------------------

/// A new room is public, in its lobby and not started; turns last ten seconds
/// and fifty points win. Its creator sits in it alone, ready and with the crown.
pub proof fn law_new_rooms(code: Seq<char>, host: Seq<char>, token: Seq<char>)
    ensures
        ({
            let room = RoomModel::opened(code, host, token);
            &&& room.code == code
            &&& room.is_public
            &&& !room.started
            &&& room.state.phase == GamePhase::Lobby
            &&& room.state.play_limit_secs == 10
            &&& room.state.winning_point == 50
            &&& room.state.round == 1
            &&& room.state.game_winner is None
            &&& room.state.turn_seq == 0
            &&& room.players.len() == 1
            &&& room.players[0].name == host
            &&& room.players[0].token == Some(token)
            &&& room.players[0].is_creator
            &&& room.players[0].connected
            &&& !room.players[0].is_bot
            &&& room.ready == seq![true]
            &&& room.state.players.len() == 1
            &&& room.state.players[0].name == host
            &&& room.state.players[0].is_creator
            &&& !room.state.players[0].is_bot
            &&& room.state.players[0].hand.len() == 0
            &&& room.state.scores == seq![0i32]
            &&& room.state.total_scores == seq![0i32]
            &&& room.disconnected_players.len() == 0
            &&& room.last_human_disconnect_at is None
            &&& room.driver.pending is None
            &&& room.driver.watchdog_deadline_ms is None
            &&& room.driver.watchdog_turn_seq is None
        }),
{
}

/// Somebody new can sit down where fewer than four seats are taken and the game
/// has not started, and not otherwise.
pub proof fn law_free_seats_until_the_start(room: RoomModel)
    ensures
        room.entry_refusal() is None <==> room.players.len() < 4 && !room.started,
        room.players.len() >= 4 ==> room.entry_refusal() == Some("Room is full"@),
        room.players.len() < 4 && room.started ==> room.entry_refusal() == Some(
            "Game has already started"@,
        ),
{
}

/// A new seat is the last one, under the next number and without the crown. A
/// human there is not ready and keeps their token; a bot is ready and has none.
/// Nobody else's seat changes.
pub proof fn law_new_seats(room: RoomModel, name: Seq<char>, token: Option<Seq<char>>)
    requires
        room.aligned(),
        room.players.len() < 4,
    ensures
        ({
            let after = room.seated_last(name, token);
            let n = room.players.len() as int;
            &&& after.players.len() == n + 1
            &&& after.players.take(n) == room.players
            &&& after.players[n].id == n
            &&& after.players[n].name == name
            &&& after.players[n].token == token
            &&& after.players[n].is_bot == (token is None)
            &&& after.players[n].connected
            &&& !after.players[n].is_creator
            &&& after.ready.take(n) == room.ready
            &&& after.ready[n] == (token is None)
            &&& after.state.players.take(n) == room.state.players
            &&& after.state.players[n].id == n
            &&& after.state.players[n].name == name
            &&& after.state.players[n].is_bot == (token is None)
            &&& after.state.players[n].hand.len() == 0
            &&& !after.state.players[n].finished
            &&& !after.state.players[n].is_creator
            &&& after.state.players[n].connected
            &&& after.state.scores == room.state.scores.push(0)
            &&& after.started == room.started
            &&& after.is_public == room.is_public
            &&& after.code == room.code
        }),
{
    let after = room.seated_last(name, token);
    let n = room.players.len() as int;
    assert(after.players.take(n) =~= room.players);
    assert(after.ready.take(n) =~= room.ready);
    assert(after.state.players.take(n) =~= room.state.players);
}

/// Filling a room up to four seats keeps everybody where they are; the free
/// seats are bots', ready and named by their numbers.
pub proof fn law_bots_fill_up(room: RoomModel)
    requires
        room.aligned(),
        room.players.len() <= 4,
    ensures
        ({
            let after = room.filled();
            let n = room.players.len() as int;
            &&& after.players.len() == 4
            &&& after.players.take(n) == room.players
            &&& after.state.players.len() == 4
            &&& after.state.players.take(n) == room.state.players
            &&& after.ready.len() == 4
            &&& after.ready.take(n) == room.ready
            &&& forall|i: int|
                n <= i < 4 ==> {
                    &&& (#[trigger] after.players[i]).is_bot
                    &&& after.players[i].id == i
                    &&& after.players[i].token is None
                    &&& after.players[i].name == "Bot "@ + text::decimal((i + 1) as nat)
                    &&& after.state.players[i].is_bot
                    &&& after.state.players[i].id == i
                    &&& after.state.players[i].name == after.players[i].name
                    &&& after.ready[i]
                    &&& after.players[i].connected
                    &&& !after.players[i].is_creator
                    &&& after.state.players[i].hand.len() == 0
                    &&& !after.state.players[i].finished
                    &&& after.state.scores[i] == 0
                }
            &&& after.state.scores.len() == 4
            &&& after.state.scores.take(n) == room.state.scores
            &&& after.state.log == room.state.log
            &&& after.state.round == room.state.round
            &&& after.state.winning_point == room.state.winning_point
            &&& after.state.play_limit_secs == room.state.play_limit_secs
            &&& after.disconnected_players == room.disconnected_players
            &&& after.state.phase == room.state.phase
            &&& after.state.turn_seq == room.state.turn_seq
            &&& after.started == room.started
        }),
    decreases 4 - room.players.len(),
{
    let n = room.players.len() as int;
    let after = room.filled();
    if n < 4 {
        let name = "Bot "@ + text::decimal(room.players.len() + 1);
        let next = room.seated_last(name, None);
        room::law_seats_stay_aligned(room, room.code, name, name, None);
        law_bots_fill_up(next);
        assert(after.players.take(n) =~= after.players.take(n + 1).take(n));
        assert(after.state.players.take(n) =~= after.state.players.take(n + 1).take(n));
        assert(after.ready.take(n) =~= after.ready.take(n + 1).take(n));
        assert(after.state.scores.take(n) =~= after.state.scores.take(n + 1).take(n));
        assert(next.state.scores.take(n) =~= room.state.scores);
        assert(after.state.scores[n] == after.state.scores.take(n + 1)[n]);
        assert(next.players.take(n) =~= room.players);
        assert(next.state.players.take(n) =~= room.state.players);
        assert(next.ready.take(n) =~= room.ready);
        assert(after.players[n] == after.players.take(n + 1)[n]);
        assert(after.state.players[n] == after.state.players.take(n + 1)[n]);
        assert(after.ready[n] == after.ready.take(n + 1)[n]);
    } else {
        assert(after.players.take(n) =~= room.players);
        assert(after.state.players.take(n) =~= room.state.players);
        assert(after.ready.take(n) =~= room.ready);
        assert(after.state.scores.take(n) =~= room.state.scores);
    }
}

/// A human in a seat can be ready or not; a bot cannot be set, and a seat that
/// is not there cannot either. Only that seat's readiness changes.
pub proof fn law_readiness(room: RoomModel, seat: usize, ready: bool)
    ensures
        room.ready_refusal(seat) is None <==> seat < room.ready.len()
            && !room.players[seat as int].is_bot,
        seat < room.ready.len() && !room.players[seat as int].is_bot ==> {
            &&& room.readied(seat, ready).ready.len() == room.ready.len()
            &&& room.readied(seat, ready).ready[seat as int] == ready
            &&& forall|i: int|
                0 <= i < room.ready.len() && i != seat ==> #[trigger] room.readied(
                    seat,
                    ready,
                ).ready[i] == room.ready[i]
            &&& room.readied(seat, ready).players == room.players
            &&& room.readied(seat, ready).state == room.state
        },
        room.ready_refusal(seat) is Some ==> room.readied(seat, ready) == room,
{
}

// ---------------------------------------------------------------------------
// Coming back
// ---------------------------------------------------------------------------

/// A player who drops out is noted once, with their token and the time, behind
/// those noted before.
pub proof fn law_dropouts_are_noted_once(room: RoomModel, seat: usize, token: Seq<char>, now: u64)
    ensures
        ({
            let after = room.with_dropout(seat, token, now);
            let known = exists|i: int|
                0 <= i < room.disconnected_players.len() && (
                #[trigger] room.disconnected_players[i]).0 == seat;
            &&& known ==> after == room
            &&& !known ==> after.disconnected_players == room.disconnected_players.push(
                (seat, token, now),
            )
            &&& after.players == room.players
            &&& after.state == room.state
        }),
{
}

/// Whoever dropped out can come back until the timeout is over: then their entry
/// is gone, and all others stay in their order. An entry made at the very start
/// of the clock counts as over.
pub proof fn law_dropouts_expire(room: RoomModel, timeout_secs: u64, now: u64)
    ensures
        room.dropouts_expired(timeout_secs, now).disconnected_players
            == room.disconnected_players.filter(
            |e: (usize, Seq<char>, u64)| e.2 > 0 && now - e.2 < timeout_secs,
        ),
        room.dropouts_expired(timeout_secs, now).players == room.players,
        room.dropouts_expired(timeout_secs, now).state == room.state,
{
    let alive = room::entry_alive(timeout_secs, now);
    let young = |e: (usize, Seq<char>, u64)| e.2 > 0 && now - e.2 < timeout_secs;
    assert forall|e: (usize, Seq<char>, u64)| #[trigger] alive(e) == young(e) by {}
    lemma_same_filter(room.disconnected_players, alive, young);
}

proof fn lemma_same_filter<A>(list: Seq<A>, f: spec_fn(A) -> bool, g: spec_fn(A) -> bool)
    requires
        forall|a: A| #[trigger] f(a) == g(a),
    ensures
        list.filter(f) == list.filter(g),
    decreases list.len(),
{
    reveal(Seq::filter);
    if list.len() > 0 {
        lemma_same_filter(list.drop_last(), f, g);
        assert(f(list.last()) == g(list.last()));
    }
}

/// Whoever gets a seat back is a connected human there, under their name and
/// their new token, with the cards and the crown that the seat has. All other
/// seats stay.
pub proof fn law_seat_given_back(room: RoomModel, seat: usize, name: Seq<char>, token: Seq<char>)
    requires
        seat < room.players.len(),
        seat < room.state.players.len(),
    ensures
        ({
            let after = room.restored(seat, name, token);
            let i = seat as int;
            &&& after.players.len() == room.players.len()
            &&& after.state.players.len() == room.state.players.len()
            &&& after.players[i].name == name
            &&& after.players[i].token == Some(token)
            &&& after.players[i].connected
            &&& !after.players[i].is_bot
            &&& after.players[i].disconnect_time is None
            &&& after.players[i].is_creator == room.players[i].is_creator
            &&& after.players[i].id == room.players[i].id
            &&& after.state.players[i].name == name
            &&& after.state.players[i].connected
            &&& !after.state.players[i].is_bot
            &&& after.state.players[i].hand == room.state.players[i].hand
            &&& after.state.players[i].finished == room.state.players[i].finished
            &&& forall|k: int|
                0 <= k < room.players.len() && k != i ==> #[trigger] after.players[k]
                    == room.players[k]
            &&& forall|k: int|
                0 <= k < room.state.players.len() && k != i ==> #[trigger] after.state.players[k]
                    == room.state.players[k]
            &&& after.state.scores == room.state.scores
            &&& after.state.phase == room.state.phase
            &&& after.ready == room.ready
        }),
{
}

// ---------------------------------------------------------------------------
// Rooms that nobody is left in
// ---------------------------------------------------------------------------

/// A room is noted as empty from the moment at which no seat has a connected
/// human, and no longer once one has.
pub proof fn law_absence_is_noted(room: RoomModel, now: u64)
    ensures
        room.absence_noted(now).last_human_disconnect_at is None <==> exists|i: int|
            0 <= i < room.players.len() && !(#[trigger] room.players[i]).is_bot
                && room.players[i].connected,
        room.absence_noted(now).last_human_disconnect_at matches Some(t) ==> t == now,
        room.absence_noted(now).players == room.players,
        room.absence_noted(now).state == room.state,
{
}

/// A room is abandoned where no seat has a connected human and the time noted is
/// at least the timeout ago.
pub proof fn law_abandoned_rooms(room: RoomModel, since: u64, timeout_secs: u64, now: u64)
    requires
        room.last_human_disconnect_at == Some(since),
    ensures
        room.orphaned(timeout_secs, now) <==> (now - since >= timeout_secs || timeout_secs == 0)
            && forall|i: int|
            0 <= i < room.players.len() ==> (#[trigger] room.players[i]).is_bot
                || !room.players[i].connected,
{
    if !room.human_present() {
        assert forall|i: int| 0 <= i < room.players.len() implies (
        #[trigger] room.players[i]).is_bot || !room.players[i].connected by {}
    }
}

/// Exactly the abandoned rooms are reaped.
pub proof fn law_abandoned_rooms_are_reaped(
    rooms: Map<Seq<char>, RoomModel>,
    code: Seq<char>,
    timeout_secs: u64,
    now: u64,
)
    ensures
        overview::orphan_codes(rooms, timeout_secs, now).contains(code) <==> rooms.dom().contains(
            code,
        ) && rooms[code].orphaned(timeout_secs, now),
{
}

/// Where nothing is noted, nobody has been gone for any time.
pub proof fn law_nothing_noted(room: RoomModel, seat: int, timeout_secs: u64, now: u64)
    ensures
        room.last_human_disconnect_at is None ==> !room.orphaned(timeout_secs, now),
        room.players[seat].disconnect_time is None ==> !room.is_stale(seat, timeout_secs, now),
{
}

} // verus!
