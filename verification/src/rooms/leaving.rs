//! Dropping out of a room and leaving it for good.
use crate::game::lobby;
use crate::game::room;
use crate::game::room::Room;
use crate::game::room::RoomModel;
use crate::game::room::RoomPlayerModel;
use crate::game::state;
use crate::game::state::GameModel;
use crate::game::state::GamePhase;
use crate::game::state::PlayerModel;
use crate::protocol;
use crate::protocol::MsgModel;
use crate::protocol::ServerMsg;
use crate::rooms;
use crate::rooms::ManagerModel;
use crate::rooms::RoomManager;
use crate::rooms::entry;
use crate::store::MutateOut;
use crate::store::OutModel;
use crate::text;
use vstd::prelude::*;
use vstd::string::*;

verus! {

/// What a seat is called once a bot has taken it over.
pub open spec fn bot_name(name: Seq<char>) -> Seq<char> {
    "Bot ("@ + name + ")"@
}

impl RoomModel {
    /// With the seat's connection marked as gone.
    pub open spec fn marked_gone(self, place: int, now: u64) -> RoomModel {
        RoomModel {
            players: self.players.update(
                place,
                RoomPlayerModel {
                    connected: false,
                    disconnect_time: Some(now),
                    ..self.players[place]
                },
            ),
            ..self
        }
    }

    /// With a bot in the player's seat. It plays on with their cards.
    pub open spec fn bot_taken(self, place: int, player_id: usize) -> RoomModel {
        let name = bot_name(self.players[place].name);
        RoomModel {
            players: self.players.update(
                place,
                RoomPlayerModel {
                    name,
                    is_bot: true,
                    connected: true,
                    disconnect_time: None,
                    token: None,
                    ..self.players[place]
                },
            ),
            state: GameModel {
                players: match room::player_with_id(self.state.players, player_id, 0) {
                    Some(at) => self.state.players.update(
                        at,
                        PlayerModel {
                            name,
                            is_bot: true,
                            connected: true,
                            ..self.state.players[at]
                        },
                    ),
                    None => self.state.players,
                },
                ..self.state
            },
            ..self
        }
    }

    /// What everybody is told when a player has left.
    pub open spec fn left_msg(self, place: int) -> MsgModel {
        MsgModel::PlayerLeft { player_id: self.players[place].id, name: self.players[place].name }
    }

    /// Does the room end when the player in this place leaves? A public room's
    /// lobby goes with its creator.
    pub open spec fn dissolves_without(self, place: int) -> bool {
        &&& self.state.phase == GamePhase::Lobby
        &&& self.players[place].is_creator
        &&& !self.players[place].is_bot
        &&& self.is_public
    }

    /// With the player in this place noted among those who may come back, if
    /// they have a token.
    pub open spec fn dropout_noted(self, place: int, now: u64) -> RoomModel {
        match self.players[place].token {
            Some(token) => self.with_dropout(self.players[place].id, token, now),
            None => self,
        }
    }

    /// The lobby after a player has dropped out of it, before stale seats are
    /// looked for: they may come back, and the crown is passed on if it was
    /// theirs.
    pub open spec fn lobby_dropped(self, place: int, now: u64) -> RoomModel {
        let gone = self.dropout_noted(place, now).marked_gone(place, now);
        if self.players[place].is_creator {
            gone.crown_passed(self.players[place].id)
        } else {
            gone
        }
    }

    /// The game after a player has dropped out of it: they may come back, and a
    /// bot plays on meanwhile.
    pub open spec fn game_dropped(self, place: int, now: u64) -> RoomModel {
        self.dropout_noted(place, now).bot_taken(place, self.players[place].id).absence_noted(now)
    }
}

/// The messages that these seats have been left.
pub open spec fn left_msgs(seats: Seq<(usize, Seq<char>)>) -> Seq<MsgModel> {
    seats.map_values(
        |s: (usize, Seq<char>)| MsgModel::PlayerLeft { player_id: s.0, name: s.1 },
    )
}

impl ManagerModel {
    /// The room after the player in this place has dropped out of it.
    pub open spec fn dropped_at(self, room: RoomModel, place: int, now: u64) -> RoomModel {
        if room.dissolves_without(place) {
            room
        } else if room.players[place].is_bot {
            room.marked_gone(place, now)
        } else if room.state.phase == GamePhase::Lobby {
            room.lobby_dropped(place, now).reaped(
                self.lobby_disconnect_timeout_secs,
                now,
            ).absence_noted(now)
        } else {
            room.game_dropped(place, now)
        }
    }

    /// What is reported of it.
    pub open spec fn drop_report_at(self, room: RoomModel, place: int, now: u64) -> OutModel {
        let left = room.left_msg(place);
        let after = self.dropped_at(room, place, now);
        let orphaned = after.orphaned(self.orphan_timeout_secs, now);
        if room.dissolves_without(place) {
            OutModel { removed: true, ..OutModel::nothing().told(left) }
        } else if room.players[place].is_bot {
            OutModel::nothing().replied(left)
        } else if room.state.phase == GamePhase::Lobby {
            let dropped = room.lobby_dropped(place, now);
            let gone = left_msgs(dropped.reaped_seats(self.lobby_disconnect_timeout_secs, now));
            let moves = dropped.reap_moves(self.lobby_disconnect_timeout_secs, now);
            let told = OutModel { broadcast: seq![left] + gone, ..OutModel::nothing() };
            if orphaned {
                OutModel { removed: true, ..told }
            } else {
                let moved = if moves.len() > 0 {
                    told.told(MsgModel::SeatChanged { renumbered: moves })
                } else {
                    told
                };
                OutModel { renumbered: moves, ..moved.told(after.state_msg()).replied(left) }
            }
        } else if orphaned {
            OutModel { removed: true, ..OutModel::nothing().replied(left) }
        } else {
            OutModel::nothing().told(left).told(after.state_msg()).replied(left)
        }
    }

    /// The room after a player's connection has dropped.
    pub open spec fn dropped(self, room: RoomModel, player_id: usize, now: u64) -> RoomModel {
        match room::seat_with_id(room.players, player_id, 0) {
            Some(place) => self.dropped_at(room, place, now),
            None => room,
        }
    }

    /// What is reported of it.
    pub open spec fn drop_answer(self, room: RoomModel, player_id: usize, now: u64) -> Result<
        OutModel,
        Seq<char>,
    > {
        match room::seat_with_id(room.players, player_id, 0) {
            Some(place) => Ok(self.drop_report_at(room, place, now)),
            None => Err("Player not found"@),
        }
    }

    /// The room after the player in this place has left it for good.
    pub open spec fn removed_at(self, room: RoomModel, place: int, now: u64) -> RoomModel {
        let id = room.players[place].id;
        if room.players[place].is_bot || room.dissolves_without(place) {
            room
        } else if room.state.phase == GamePhase::Lobby {
            room.parted(place).without_seat(id)
        } else {
            room.bot_taken(place, id).absence_noted(now)
        }
    }

    /// What is reported of it.
    pub open spec fn removal_report_at(self, room: RoomModel, place: int, now: u64) -> OutModel {
        let left = room.left_msg(place);
        let after = self.removed_at(room, place, now);
        if room.players[place].is_bot {
            OutModel::nothing()
        } else if room.dissolves_without(place) {
            OutModel { removed: true, ..OutModel::nothing().replied(left) }
        } else if room.state.phase == GamePhase::Lobby {
            let moves = room.parted(place).seat_moves(room.players[place].id);
            OutModel {
                renumbered: moves,
                ..OutModel::nothing().told(left).told(
                    MsgModel::SeatChanged { renumbered: moves },
                ).told(after.state_msg()).replied(left)
            }
        } else if after.orphaned(self.orphan_timeout_secs, now) {
            OutModel { removed: true, ..OutModel::nothing().replied(left) }
        } else {
            OutModel::nothing().told(left).told(after.state_msg()).replied(left)
        }
    }

    /// The room after a player has left it for good.
    pub open spec fn removed(self, room: RoomModel, player_id: usize, now: u64) -> RoomModel {
        match room::seat_with_id(room.players, player_id, 0) {
            Some(place) => self.removed_at(room, place, now),
            None => room,
        }
    }

    /// What is reported of it.
    pub open spec fn removal_answer(self, room: RoomModel, player_id: usize, now: u64) -> Result<
        OutModel,
        Seq<char>,
    > {
        match room::seat_with_id(room.players, player_id, 0) {
            Some(place) => Ok(self.removal_report_at(room, place, now)),
            None => Err("Player not found"@),
        }
    }
}

/// Is the entry of another token?
pub open spec fn entry_of_other_token(token: Seq<char>) -> spec_fn(
    (usize, Seq<char>, u64),
) -> bool {
    |e: (usize, Seq<char>, u64)| e.1 != token
}

impl RoomModel {
    /// Without the entries that a token could come back with.
    pub open spec fn token_forgotten(self, token: Option<Seq<char>>) -> RoomModel {
        match token {
            Some(t) => RoomModel {
                disconnected_players: self.disconnected_players.filter(entry_of_other_token(t)),
                ..self
            },
            None => self,
        }
    }

    /// The lobby when the player in this place parts from it, before their seat
    /// is taken away: the crown is passed on if it was theirs, and they cannot
    /// come back.
    pub open spec fn parted(self, place: int) -> RoomModel {
        let crowned = if self.players[place].is_creator {
            self.crown_passed(self.players[place].id)
        } else {
            self
        };
        crowned.token_forgotten(self.players[place].token)
    }
}

/// Marks a seat's connection as gone.
fn mark_gone(room: &mut Room, place: usize, now: u64)
    requires
        place < old(room)@.players.len(),
    ensures
        final(room)@ == old(room)@.marked_gone(place as int, now),
{
    let ghost before = room@;
    assert(before.players[place as int] == room.players@[place as int]@);
    room.players[place].connected = false;
    room.players[place].disconnect_time = Some(now);
    assert(room@.players =~= before.marked_gone(place as int, now).players);
    assert(room@ =~= before.marked_gone(place as int, now));
}

/// Puts a bot in a player's seat.
fn take_by_bot(room: &mut Room, place: usize, player_id: usize)
    requires
        place < old(room)@.players.len(),
    ensures
        final(room)@ == old(room)@.bot_taken(place as int, player_id),
{
    let ghost before = room@;
    let ghost want = before.bot_taken(place as int, player_id);
    assert(before.players[place as int] == room.players@[place as int]@);
    let mut name = "Bot (".to_owned();
    name.append(room.players[place].name.as_str());
    name.append(")");
    room.players[place].name = name.clone();
    room.players[place].is_bot = true;
    room.players[place].connected = true;
    room.players[place].disconnect_time = None;
    room.players[place].token = None;
    assert(room@.players =~= want.players);
    let found = room::find_player(&room.state.players, player_id);
    if let Some(at) = found {
        assert(before.state.players[at as int] == room.state.players@[at as int]@);
        room.state.players[at].name = name;
        room.state.players[at].is_bot = true;
        room.state.players[at].connected = true;
    }
    assert(room@.state.players =~= want.state.players);
    assert(room@.state =~= want.state);
    assert(room@ =~= want);
}

/// Forgets the entries that a token could come back with.
fn forget_token(room: &mut Room, token: &str)
    ensures
        final(room)@ == old(room)@.token_forgotten(Some(token@)),
{
    let ghost before = room@;
    let ghost all = before.disconnected_players;
    let ghost other = entry_of_other_token(token@);
    let mut kept: Vec<(usize, String, u64)> = Vec::new();
    let mut i: usize = 0;
    proof {
        reveal(Seq::filter);
        assert(all.take(0) =~= Seq::empty());
        assert(room::dropout_models(kept@) =~= Seq::empty());
    }
    while i < room.disconnected_players.len()
        invariant
            i <= room.disconnected_players.len(),
            room@ == before,
            all == before.disconnected_players,
            other == entry_of_other_token(token@),
            room::dropout_models(kept@) == all.take(i as int).filter(other),
        decreases room.disconnected_players.len() - i,
    {
        let ghost prev = room::dropout_models(kept@);
        proof {
            reveal(Seq::filter);
            assert(all.take(i + 1).drop_last() =~= all.take(i as int));
            assert(all.take(i + 1).last() == all[i as int]);
        }
        let entry = &room.disconnected_players[i];
        if !text::same_text(entry.1.as_str(), token) {
            let own = entry.1.clone();
            kept.push((entry.0, own, entry.2));
            assert(room::dropout_models(kept@) =~= prev.push(all[i as int]));
        }
        i += 1;
    }
    assert(all.take(all.len() as int) =~= all);
    room.disconnected_players = kept;
    assert(room@ =~= before.token_forgotten(Some(token@)));
}

/// Passing the crown on keeps a room's seats in agreement.
pub proof fn lemma_crown_keeps_alignment(room: RoomModel, leaving: usize)
    requires
        room.aligned(),
    ensures
        room.crown_passed(leaving).aligned(),
        room.crown_passed(leaving).players.len() == room.players.len(),
{
    lemma_heir_in_range(room, leaving, 0);
    if let Some(place) = room.heir(leaving, 0) {
        let target = room.players[place].id;
        let crowned = room.players.update(
            place,
            RoomPlayerModel { is_creator: true, ..room.players[place] },
        );
        entry::lemma_dense_seat(crowned, leaving, 0);
        entry::lemma_dense_player(room.state.players, target, 0);
        entry::lemma_dense_player(
            room::player_crowned(room.state.players, target, true),
            leaving,
            0,
        );
    }
}

/// A room has one creator, also after the crown has been passed on: the first
/// connected human other than the one who leaves, in both lists of seats, and
/// ready to start.
pub proof fn law_crown_moves(room: RoomModel, leaving: usize)
    requires
        room.aligned(),
        room.state.phase == GamePhase::Lobby,
        room.heir(leaving, 0) is Some,
        forall|i: int|
            0 <= i < room.players.len() ==> ((#[trigger] room.players[i]).is_creator <==> i
                == leaving),
        forall|i: int|
            0 <= i < room.players.len() ==> ((#[trigger] room.state.players[i]).is_creator <==> i
                == leaving),
    ensures
        ({
            let after = room.crown_passed(leaving);
            let heir = room.heir(leaving, 0).unwrap();
            &&& 0 <= heir < room.players.len()
            &&& heir != leaving
            &&& !room.players[heir].is_bot && room.players[heir].connected
            &&& after.players.len() == room.players.len()
            &&& forall|i: int|
                0 <= i < room.players.len() ==> ((#[trigger] after.players[i]).is_creator <==> i
                    == heir)
            &&& forall|i: int|
                0 <= i < room.players.len() ==> ((#[trigger] after.state.players[i]).is_creator
                    <==> i == heir)
            &&& after.ready[heir] && after.state.ready[heir]
        }),
{
    lemma_heir_in_range(room, leaving, 0);
    let place = room.heir(leaving, 0).unwrap();
    let target = room.players[place].id;
    let crowned = room.players.update(
        place,
        RoomPlayerModel { is_creator: true, ..room.players[place] },
    );
    entry::lemma_dense_seat(crowned, leaving, 0);
    entry::lemma_dense_player(room.state.players, target, 0);
    entry::lemma_dense_player(room::player_crowned(room.state.players, target, true), leaving, 0);
}

pub proof fn lemma_heir_in_range(room: RoomModel, leaving: usize, from: int)
    requires
        0 <= from,
    ensures
        room.heir(leaving, from) matches Some(i) ==> from <= i < room.players.len()
            && room.players[i].id != leaving && !room.players[i].is_bot
            && room.players[i].connected,
    decreases room.players.len() - from,
{
    if from < room.players.len() {
        lemma_heir_in_range(room, leaving, from + 1);
    }
}

pub proof fn lemma_lobby_dropped_aligned(room: RoomModel, place: int, now: u64)
    requires
        room.aligned(),
        0 <= place < room.players.len(),
    ensures
        room.lobby_dropped(place, now).aligned(),
        room.lobby_dropped(place, now).players.len() == room.players.len(),
{
    let gone = room.dropout_noted(place, now).marked_gone(place, now);
    assert(gone.aligned());
    lemma_crown_keeps_alignment(gone, room.players[place].id);
}

impl RoomManager {
    /// A player's connection has dropped, by the machine's clock.
    pub fn leave_room(&self, room: &mut Room, player_id: usize) -> (r: Result<MutateOut, String>)
        requires
            old(room)@.state.phase == GamePhase::Lobby ==> old(room)@.aligned(),
        ensures
            exists|now: u64|
                #![trigger self@.dropped(old(room)@, player_id, now)]
                final(room)@ == self@.dropped(old(room)@, player_id, now) && rooms::step_result(r)
                    == self@.drop_answer(old(room)@, player_id, now),
    {
        let now: u64 = state::now_secs();
        self.leave_room_at(room, player_id, now)
    }

    /// A player's connection has dropped at `now`. In the lobby they keep their
    /// seat for a while, and seats of players who have been gone too long are
    /// taken away; in a game a bot plays on in their place. They may come back
    /// by their token. A public room's lobby ends with its creator, and a room
    /// ends with its last human.
    #[verifier::rlimit(50)]
    pub fn leave_room_at(&self, room: &mut Room, player_id: usize, now: u64) -> (r: Result<
        MutateOut,
        String,
    >)
        requires
            old(room)@.state.phase == GamePhase::Lobby ==> old(room)@.aligned(),
        ensures
            final(room)@ == self@.dropped(old(room)@, player_id, now),
            rooms::step_result(r) == self@.drop_answer(old(room)@, player_id, now),
    {
        let ghost before = room@;
        let place: usize = match room::find_seat(&room.players, player_id) {
            Some(i) => i,
            None => {
                return Err("Player not found".to_owned());
            },
        };
        proof {
            lemma_seat_id(before.players, player_id, 0);
            assert(before.players[place as int] == room.players@[place as int]@);
        }
        let player = room.players[place].clone();
        let mut out = MutateOut::default();
        if room.state.phase == GamePhase::Lobby && player.is_creator && !player.is_bot
            && room.is_public {
            out.tell(ServerMsg::PlayerLeft { player_id, name: player.name });
            out.removed = true;
            assert(out@ =~= self@.drop_report_at(before, place as int, now));
            return Ok(out);
        }
        if player.is_bot {
            mark_gone(room, place, now);
            out.answer(ServerMsg::PlayerLeft { player_id, name: player.name });
            return Ok(out);
        }
        if let Some(token) = &player.token {
            room.add_disconnected_player_at(player_id, token.clone(), now);
        }
        assert(room@ == before.dropout_noted(place as int, now));
        if room.state.phase == GamePhase::Lobby {
            mark_gone(room, place, now);
            if player.is_creator {
                room.transfer_crown_from(player_id);
            }
            let ghost dropped = room@;
            proof {
                assert(dropped == before.lobby_dropped(place as int, now));
                lemma_lobby_dropped_aligned(before, place as int, now);
            }
            out.tell(ServerMsg::PlayerLeft { player_id, name: player.name.clone() });
            let (stale, renumbered) = room.cleanup_disconnected_lobby_players_at(
                self.lobby_disconnect_timeout_secs,
                now,
            );
            tell_left(&mut out, &stale);
            room.record_human_disconnect_at(now);
            let ghost told = OutModel {
                broadcast: seq![before.left_msg(place as int)] + left_msgs(
                    dropped.reaped_seats(self@.lobby_disconnect_timeout_secs, now),
                ),
                ..OutModel::nothing()
            };
            assert(out@ =~= told);
            if room.is_orphaned_at(self.orphan_timeout_secs, now) {
                out.removed = true;
                assert(out@ =~= self@.drop_report_at(before, place as int, now));
                return Ok(out);
            }
            if renumbered.len() > 0 {
                out.tell(ServerMsg::SeatChanged { renumbered: protocol::copy_pairs(&renumbered) });
            }
            out.tell(ServerMsg::State { state: room.state.clone() });
            out.answer(ServerMsg::PlayerLeft { player_id, name: player.name });
            out.renumbered = renumbered;
            assert(out@ =~= self@.drop_report_at(before, place as int, now));
            return Ok(out);
        }
        take_by_bot(room, place, player_id);
        room.record_human_disconnect_at(now);
        assert(room@ == before.game_dropped(place as int, now));
        if room.is_orphaned_at(self.orphan_timeout_secs, now) {
            out.removed = true;
        } else {
            out.tell(ServerMsg::PlayerLeft { player_id, name: player.name.clone() });
            out.tell(ServerMsg::State { state: room.state.clone() });
        }
        out.answer(ServerMsg::PlayerLeft { player_id, name: player.name });
        assert(out@ =~= self@.drop_report_at(before, place as int, now));
        Ok(out)
    }

    /// A player leaves for good, by the machine's clock.
    pub fn remove_player(&self, room: &mut Room, player_id: usize) -> (r: Result<
        MutateOut,
        String,
    >)
        ensures
            exists|now: u64|
                #![trigger self@.removed(old(room)@, player_id, now)]
                final(room)@ == self@.removed(old(room)@, player_id, now) && rooms::step_result(r)
                    == self@.removal_answer(old(room)@, player_id, now),
    {
        let now: u64 = state::now_secs();
        self.remove_player_at(room, player_id, now)
    }

    /// A player leaves for good at `now`. In the lobby their seat is taken away
    /// and they cannot come back; in a game a bot plays on in their place. A
    /// public room's lobby ends with its creator, and a room ends with its last
    /// human.
    #[verifier::rlimit(50)]
    pub fn remove_player_at(&self, room: &mut Room, player_id: usize, now: u64) -> (r: Result<
        MutateOut,
        String,
    >)
        ensures
            final(room)@ == self@.removed(old(room)@, player_id, now),
            rooms::step_result(r) == self@.removal_answer(old(room)@, player_id, now),
    {
        let ghost before = room@;
        let place: usize = match room::find_seat(&room.players, player_id) {
            Some(i) => i,
            None => {
                return Err("Player not found".to_owned());
            },
        };
        proof {
            lemma_seat_id(before.players, player_id, 0);
            assert(before.players[place as int] == room.players@[place as int]@);
        }
        let player = room.players[place].clone();
        let mut out = MutateOut::default();
        if player.is_bot {
            return Ok(out);
        }
        if room.state.phase == GamePhase::Lobby {
            if player.is_creator && room.is_public {
                out.answer(ServerMsg::PlayerLeft { player_id, name: player.name });
                out.removed = true;
                assert(out@ =~= self@.removal_report_at(before, place as int, now));
                return Ok(out);
            }
            if player.is_creator {
                room.transfer_crown_from(player_id);
            }
            if let Some(token) = &player.token {
                forget_token(room, token.as_str());
            }
            assert(room@ == before.parted(place as int));
            let renumbered = room.remove_lobby_seat(player_id);
            out.tell(ServerMsg::PlayerLeft { player_id, name: player.name.clone() });
            out.tell(ServerMsg::SeatChanged { renumbered: protocol::copy_pairs(&renumbered) });
            out.tell(ServerMsg::State { state: room.state.clone() });
            out.answer(ServerMsg::PlayerLeft { player_id, name: player.name });
            out.renumbered = renumbered;
            assert(out@ =~= self@.removal_report_at(before, place as int, now));
            return Ok(out);
        }
        take_by_bot(room, place, player_id);
        room.record_human_disconnect_at(now);
        if room.is_orphaned_at(self.orphan_timeout_secs, now) {
            out.removed = true;
        } else {
            out.tell(ServerMsg::PlayerLeft { player_id, name: player.name.clone() });
            out.tell(ServerMsg::State { state: room.state.clone() });
        }
        out.answer(ServerMsg::PlayerLeft { player_id, name: player.name });
        assert(out@ =~= self@.removal_report_at(before, place as int, now));
        Ok(out)
    }
}

proof fn lemma_seat_id(players: Seq<RoomPlayerModel>, id: usize, from: int)
    requires
        0 <= from,
    ensures
        room::seat_with_id(players, id, from) matches Some(i) ==> from <= i < players.len()
            && players[i].id == id,
    decreases players.len() - from,
{
    if from < players.len() {
        lemma_seat_id(players, id, from + 1);
    }
}

/// Tells everybody that these seats have been left.
fn tell_left(out: &mut MutateOut, seats: &Vec<(usize, String)>)
    ensures
        final(out)@ == (OutModel {
            broadcast: old(out)@.broadcast + left_msgs(lobby::named_seats(seats@)),
            ..old(out)@
        }),
{
    let ghost before = out@;
    let ghost all = lobby::named_seats(seats@);
    let mut i: usize = 0;
    assert(left_msgs(all).take(0) =~= Seq::empty());
    assert(out@ =~= (OutModel { broadcast: before.broadcast + left_msgs(all).take(0), ..before }));
    while i < seats.len()
        invariant
            i <= seats.len(),
            all == lobby::named_seats(seats@),
            out@ == (OutModel {
                broadcast: before.broadcast + left_msgs(all).take(i as int),
                ..before
            }),
        decreases seats.len() - i,
    {
        let name = seats[i].1.clone();
        out.tell(ServerMsg::PlayerLeft { player_id: seats[i].0, name });
        assert(left_msgs(all).take(i + 1) =~= left_msgs(all).take(i as int).push(
            left_msgs(all)[i as int],
        ));
        assert(out@ =~= (OutModel {
            broadcast: before.broadcast + left_msgs(all).take(i + 1),
            ..before
        }));
        i += 1;
    }
    assert(left_msgs(all).take(seats.len() as int) =~= left_msgs(all));
}

} // verus!
