//! Tests of what the steps ask of a room, for callers that read rooms from
//! elsewhere and cannot know.
use crate::game::room::Room;
use crate::game::room::RoomModel;
use crate::game::rules::LAST_SCORE;
use crate::game::state::GameModel;
use crate::game::state::GamePhase;
use crate::game::state::GameState;
use vstd::prelude::*;

verus! {

/// Can the round end, whatever scores it still brings?
fn has_headroom(game: &GameState) -> (r: bool)
    ensures
        r == game@.headroom(),
{
    if game.round == usize::MAX {
        return false;
    }
    let mut i: usize = 0;
    while i < game.total_scores.len()
        invariant
            i <= game.total_scores.len(),
            forall|k: int|
                0 <= k < i ==> i32::MIN <= #[trigger] game.total_scores@[k] + LAST_SCORE
                    && game.total_scores@[k] + 10 <= i32::MAX,
            forall|k: int|
                0 <= k < i && k < game.scores.len() ==> i32::MIN
                    <= #[trigger] game.total_scores@[k] + game.scores@[k] <= i32::MAX,
        decreases game.total_scores.len() - i,
    {
        let total: i32 = game.total_scores[i];
        assert(game@.total_scores[i as int] == total);
        if total.checked_add(LAST_SCORE).is_none() || total.checked_add(10).is_none() {
            return false;
        }
        if i < game.scores.len() && total.checked_add(game.scores[i]).is_none() {
            return false;
        }
        i += 1;
    }
    true
}

/// Is this a game in which a turn can be taken?
pub fn is_sound(game: &GameState) -> (r: bool)
    ensures
        r == game@.sound(),
{
    let seated: bool = game.players.len() >= 4 && game.scores.len() >= game.players.len()
        && game.current_player < game.players.len();
    let led: bool = match game.trick.combo_player {
        Some(w) => w < game.players.len(),
        None => true,
    };
    seated && led && (game.phase == GamePhase::GameOver || has_headroom(game))
}

/// Has nothing been dealt or played?
pub fn is_untouched(game: &GameState) -> (r: bool)
    ensures
        r == game@.untouched(),
{
    if game.phase != GamePhase::Lobby || game.current_player >= game.players.len()
        || game.finished_order.len() >= 3 || game.trick.combo_player.is_some() {
        return false;
    }
    let mut i: usize = 0;
    while i < game.players.len()
        invariant
            i <= game.players.len(),
            forall|k: int| 0 <= k < i ==> (#[trigger] game@.players[k]).hand.len() == 0,
        decreases game.players.len() - i,
    {
        assert(game@.players[i as int] == game.players@[i as int]@);
        if game.players[i].hand.len() != 0 {
            return false;
        }
        i += 1;
    }
    true
}

/// Can somebody try a move?
pub fn is_movable(game: &GameState) -> (r: bool)
    ensures
        r == game@.movable(),
{
    is_untouched(game) || (is_sound(game) && game.turn_seq < u32::MAX)
}

/// Are threes set aside only while they are being discarded, and of seats of the
/// table only?
fn is_discard_sound(game: &GameState) -> (r: bool)
    ensures
        r == game@.discard_sound(),
{
    match &game.three_discard {
        None => true,
        Some(td) => {
            if game.phase != GamePhase::ThreeDiscard || td.order.len() == 0 {
                return false;
            }
            let mut i: usize = 0;
            while i < td.order.len()
                invariant
                    i <= td.order.len(),
                    game@.three_discard == Some(td@),
                    forall|k: int|
                        0 <= k < i ==> (#[trigger] td@.order[k] as int) < td@.discarded.len() && (
                        td@.order[k] as int) < game@.players.len() && (td@.order[k] as int)
                            < td@.player_cards.len(),
                decreases td.order.len() - i,
            {
                let seat: usize = td.order[i];
                assert(td@.order[i as int] == seat);
                if seat >= td.discarded.len() || seat >= game.players.len() || seat
                    >= td.player_cards.len() {
                    return false;
                }
                i += 1;
            }
            true
        },
    }
}

/// Can the room be driven on?
pub fn is_drivable(room: &Room) -> (r: bool)
    ensures
        r == room@.drivable(8),
{
    let at_rest: bool = (room.state.phase == GamePhase::Lobby || room.state.phase
        == GamePhase::GameOver) && room.state.three_discard.is_none();
    at_rest || (is_sound(&room.state) && is_discard_sound(&room.state) && room.state.turn_seq
        <= u32::MAX - 8)
}

/// Do the room's lists of seats agree?
pub fn is_aligned(room: &Room) -> (r: bool)
    ensures
        r == room@.aligned(),
{
    let n: usize = room.players.len();
    if room.state.players.len() != n || room.ready.len() != n || room.state.ready.len() != n
        || room.state.scores.len() != n {
        return false;
    }
    let mut i: usize = 0;
    while i < n
        invariant
            i <= n,
            n == room.players.len(),
            n == room.state.players.len(),
            forall|k: int| 0 <= k < i ==> (#[trigger] room@.players[k]).id == k,
            forall|k: int| 0 <= k < i ==> (#[trigger] room@.state.players[k]).id == k,
        decreases n - i,
    {
        assert(room@.players[i as int] == room.players@[i as int]@);
        assert(room@.state.players[i as int] == room.state.players@[i as int]@);
        if room.players[i].id != i || room.state.players[i].id != i {
            return false;
        }
        i += 1;
    }
    true
}

/// Can a round be dealt?
pub fn is_startable(room: &Room) -> (r: bool)
    ensures
        r == room@.startable(),
{
    let next: bool = room.state.phase != GamePhase::GameOver || (room.state.players.len() >= 4
        && room.state.turn_seq < u32::MAX);
    let first: bool = room.state.phase != GamePhase::Lobby || room.state.players.len() >= 4
        || room.state.players.len() >= room.players.len();
    room.state.game_winner.is_some() || (next && first)
}

/// A turn can be taken at a table of four or more with a score for everybody, if
/// whoever is at turn and whoever has led the trick sit at it, and if a round can
/// still end: ten points more or fifteen less fit into every total, and so does
/// what everybody has got so far.
pub proof fn law_when_turns_can_be_taken(game: GameModel)
    ensures
        game.sound() <==> {
            &&& game.players.len() >= 4
            &&& game.scores.len() >= game.players.len()
            &&& (game.current_player as int) < game.players.len()
            &&& game.trick.combo_player matches Some(w) ==> (w as int) < game.players.len()
            &&& game.phase == GamePhase::GameOver || {
                &&& game.round < usize::MAX
                &&& forall|i: int|
                    0 <= i < game.total_scores.len() ==> i32::MIN + 15
                        <= #[trigger] game.total_scores[i] <= i32::MAX - 10
                &&& forall|i: int|
                    0 <= i < game.total_scores.len() && i < game.scores.len() ==> i32::MIN
                        <= #[trigger] game.total_scores[i] + game.scores[i] <= i32::MAX
            }
        },
{
}

/// Moves can be tried where turns can be taken and counted, and at a table in its
/// lobby at which nothing has been dealt or played.
pub proof fn law_when_moves_can_be_tried(game: GameModel)
    ensures
        game.movable() <==> {
            ||| game.sound() && game.turn_seq < u32::MAX
            ||| {
                &&& game.phase == GamePhase::Lobby
                &&& (game.current_player as int) < game.players.len()
                &&& game.finished_order.len() < 3
                &&& game.trick.combo_player is None
                &&& forall|i: int|
                    0 <= i < game.players.len() ==> (#[trigger] game.players[i]).hand.len() == 0
            }
        },
{
}

/// A room can be driven on where no round is on, and where turns can be taken and
/// counted, eight of them, with the threes set aside of seats of the table.
pub proof fn law_when_rooms_can_be_driven(room: RoomModel)
    ensures
        room.drivable(8) <==> {
            ||| {
                &&& room.state.phase == GamePhase::Lobby || room.state.phase == GamePhase::GameOver
                &&& room.state.three_discard is None
            }
            ||| {
                &&& room.state.sound()
                &&& room.state.turn_seq <= u32::MAX - 8
                &&& room.state.three_discard matches Some(td) ==> {
                    &&& room.state.phase == GamePhase::ThreeDiscard
                    &&& td.order.len() > 0
                    &&& forall|k: int|
                        0 <= k < td.order.len() ==> (#[trigger] td.order[k] as int)
                            < td.discarded.len() && (td.order[k] as int)
                            < room.state.players.len() && (td.order[k] as int)
                            < td.player_cards.len()
                }
            }
        },
{
}

/// The lists of a room agree where they are all as long as that of its seats, and
/// seats and players are numbered by their places.
pub proof fn law_when_lists_agree(room: RoomModel)
    ensures
        room.aligned() <==> {
            let n = room.players.len();
            &&& room.state.players.len() == n
            &&& room.ready.len() == n
            &&& room.state.ready.len() == n
            &&& room.state.scores.len() == n
            &&& forall|i: int| 0 <= i < n ==> (#[trigger] room.players[i]).id == i
            &&& forall|i: int| 0 <= i < n ==> (#[trigger] room.state.players[i]).id == i
        },
{
}

/// A new room's lists agree, and a first round can be dealt in it.
pub proof fn law_new_rooms_can_start(code: Seq<char>, host: Seq<char>, token: Seq<char>)
    ensures
        RoomModel::opened(code, host, token).aligned(),
        RoomModel::opened(code, host, token).startable(),
        RoomModel::opened(code, host, token).state.movable(),
        RoomModel::opened(code, host, token).drivable(8),
{
}

} // verus!
