//! Coming back to a seat by its token.
use crate::game::room;
use crate::game::room::Room;
use crate::game::room::RoomModel;
use crate::game::state;
use crate::protocol::MsgModel;
use crate::protocol::ServerMsg;
use crate::rooms;
use crate::rooms::RoomManager;
use crate::store::MutateOut;
use crate::store::OutModel;
use crate::text;
use vstd::prelude::*;
use vstd::string::*;

verus! {

/// The place of the first entry, from `from` on, with this token.
pub open spec fn entry_with_token(
    entries: Seq<(usize, Seq<char>, u64)>,
    token: Seq<char>,
    from: int,
) -> Option<int>
    decreases entries.len() - from,
{
    if from >= entries.len() {
        None
    } else if entries[from].1 == token {
        Some(from)
    } else {
        entry_with_token(entries, token, from + 1)
    }
}

impl RoomModel {
    /// Is somebody connected with this token?
    pub open spec fn token_in_use(self, token: Seq<char>) -> bool {
        exists|i: int|
            0 <= i < self.players.len() && (#[trigger] self.players[i]).token == Some(token)
                && self.players[i].connected
    }

    /// Can somebody come back with this token?
    pub open spec fn rejoinable(self, token: Seq<char>) -> bool {
        entry_with_token(self.disconnected_players, token, 0) is Some
    }

    /// The room after somebody has looked it up: those whose time to come back is
    /// over are forgotten.
    pub open spec fn looked_up(self, now: u64) -> RoomModel {
        self.dropouts_expired(rooms::REJOIN_TIMEOUT_SECS, now)
    }

    /// Could somebody come back with this token now?
    pub open spec fn open_to(self, token: Seq<char>, now: u64) -> bool {
        self.looked_up(now).rejoinable(token)
    }

    /// The room after somebody has tried to come back. Those whose time is over
    /// are forgotten first; with a token that is still known, its seat is given
    /// back.
    pub open spec fn rejoined(self, name: Seq<char>, token: Seq<char>, now: u64) -> RoomModel {
        let fresh = self.dropouts_expired(rooms::REJOIN_TIMEOUT_SECS, now);
        match entry_with_token(fresh.disconnected_players, token, 0) {
            None => fresh,
            Some(at) => {
                let seat = fresh.disconnected_players[at].0;
                RoomModel {
                    last_human_disconnect_at: None,
                    ..(RoomModel {
                        disconnected_players: fresh.disconnected_players.remove(at),
                        ..fresh
                    }).restored(seat, name, token)
                }
            },
        }
    }

    /// The answer to somebody who has tried to come back.
    pub open spec fn rejoin_answer(
        self,
        code: Seq<char>,
        name: Seq<char>,
        token: Seq<char>,
        now: u64,
    ) -> Result<OutModel, Seq<char>> {
        let fresh = self.dropouts_expired(rooms::REJOIN_TIMEOUT_SECS, now);
        match entry_with_token(fresh.disconnected_players, token, 0) {
            None => if self.token_in_use(token) {
                Err("Seat already in use by another window"@)
            } else {
                Err("No matching disconnected player found"@)
            },
            Some(at) => {
                let seat = fresh.disconnected_players[at].0;
                Ok(
                    OutModel::nothing().told(
                        MsgModel::PlayerJoined { player_id: seat, name },
                    ).replied(
                        MsgModel::Rejoined {
                            player_id: seat,
                            state: self.rejoined(name, token, now).state,
                            code,
                            token,
                        },
                    ),
                )
            },
        }
    }
}

/// The place of the first entry with this token.
fn find_entry(entries: &Vec<(usize, String, u64)>, token: &str) -> (r: Option<usize>)
    ensures
        r matches Some(i) ==> i < entries.len() && entry_with_token(
            room::dropout_models(entries@),
            token@,
            0,
        ) == Some(i as int),
        r is None ==> entry_with_token(room::dropout_models(entries@), token@, 0) is None,
{
    let ghost all = room::dropout_models(entries@);
    let mut i: usize = 0;
    while i < entries.len()
        invariant
            i <= entries.len(),
            all == room::dropout_models(entries@),
            entry_with_token(all, token@, 0) == entry_with_token(all, token@, i as int),
        decreases entries.len() - i,
    {
        assert(all[i as int].1 == entries@[i as int].1@);
        if text::same_text(entries[i].1.as_str(), token) {
            return Some(i);
        }
        i += 1;
    }
    None
}

/// Is somebody connected with this token?
fn find_token_in_use(room: &Room, token: &str) -> (r: bool)
    ensures
        r == room@.token_in_use(token@),
{
    let mut i: usize = 0;
    while i < room.players.len()
        invariant
            i <= room.players.len(),
            forall|k: int|
                0 <= k < i ==> (#[trigger] room@.players[k]).token != Some(token@)
                    || !room@.players[k].connected,
        decreases room.players.len() - i,
    {
        assert(room@.players[i as int] == room.players@[i as int]@);
        let same: bool = match &room.players[i].token {
            Some(t) => text::same_text(t.as_str(), token),
            None => false,
        };
        if same && room.players[i].connected {
            return true;
        }
        i += 1;
    }
    false
}

impl RoomManager {
    /// Somebody comes back to a room under its code, by the machine's clock.
    pub fn rejoin_room(&self, room: &mut Room, code: &str, name: &str, token: &str) -> (r: Result<
        MutateOut,
        String,
    >)
        ensures
            exists|now: u64|
                #![trigger old(room)@.rejoined(name@, token@, now)]
                final(room)@ == old(room)@.rejoined(name@, token@, now) && rooms::step_result(r)
                    == old(room)@.rejoin_answer(text::uppercased(code@), name@, token@, now),
    {
        let now: u64 = state::now_secs();
        let own_code = Self::room_code(code);
        self.rejoin_room_at(room, own_code, name, token, now)
    }

    /// Somebody comes back to a room at `now`. The one who dropped out with
    /// this token gets their seat back, if their time is not over.
    pub fn rejoin_room_at(
        &self,
        room: &mut Room,
        code: String,
        name: &str,
        token: &str,
        now: u64,
    ) -> (r: Result<MutateOut, String>)
        ensures
            final(room)@ == old(room)@.rejoined(name@, token@, now),
            rooms::step_result(r) == old(room)@.rejoin_answer(code@, name@, token@, now),
    {
        let ghost before = room@;
        room.cleanup_expired_disconnected_at(rooms::REJOIN_TIMEOUT_SECS, now);
        let ghost fresh = room@;
        match find_entry(&room.disconnected_players, token) {
            Some(at) => {
                assert(fresh.disconnected_players[at as int].0
                    == room.disconnected_players@[at as int].0);
                let seat: usize = room.disconnected_players[at].0;
                room.disconnected_players.remove(at);
                assert(room@.disconnected_players =~= fresh.disconnected_players.remove(
                    at as int,
                ));
                assert(room@ =~= (RoomModel {
                    disconnected_players: fresh.disconnected_players.remove(at as int),
                    ..fresh
                }));
                room.restore_seat(seat, name, token);
                room.human_reconnected();
                let mut out = MutateOut::default();
                out.tell(ServerMsg::PlayerJoined { player_id: seat, name: name.to_owned() });
                out.answer(
                    ServerMsg::Rejoined {
                        player_id: seat,
                        state: room.state.clone(),
                        code,
                        token: token.to_owned(),
                    },
                );
                Ok(out)
            },
            None => {
                let in_use = find_token_in_use(room, token);
                assert(in_use == before.token_in_use(token@)) by {
                    assert(fresh.players == before.players);
                }
                if in_use {
                    Err("Seat already in use by another window".to_owned())
                } else {
                    Err("No matching disconnected player found".to_owned())
                }
            },
        }
    }

    /// Could somebody come back with this token, by the machine's clock? Those
    /// whose time is over are forgotten.
    pub fn check_room(&self, room: &mut Room, token: &str) -> (r: bool)
        ensures
            exists|now: u64|
                #![trigger old(room)@.dropouts_expired(rooms::REJOIN_TIMEOUT_SECS, now)]
                final(room)@ == old(room)@.dropouts_expired(rooms::REJOIN_TIMEOUT_SECS, now) && r
                    == final(room)@.rejoinable(token@),
    {
        let now: u64 = state::now_secs();
        self.check_room_at(room, token, now)
    }

    /// Could somebody come back with this token at `now`? Those whose time is
    /// over are forgotten; no seat is touched.
    pub fn check_room_at(&self, room: &mut Room, token: &str, now: u64) -> (r: bool)
        ensures
            final(room)@ == old(room)@.dropouts_expired(rooms::REJOIN_TIMEOUT_SECS, now),
            r == final(room)@.rejoinable(token@),
            final(room)@ == old(room)@.looked_up(now),
            r == old(room)@.open_to(token@, now),
    {
        room.cleanup_expired_disconnected_at(rooms::REJOIN_TIMEOUT_SECS, now);
        find_entry(&room.disconnected_players, token).is_some()
    }
}

/// Whether somebody is told that they could come back is what coming back then
/// shows: the answers agree.
pub proof fn law_check_predicts_rejoin(
    room: RoomModel,
    code: Seq<char>,
    name: Seq<char>,
    token: Seq<char>,
    now: u64,
)
    ensures
        room.dropouts_expired(rooms::REJOIN_TIMEOUT_SECS, now).rejoinable(token)
            <==> room.rejoin_answer(code, name, token, now) is Ok,
{
}

} // verus!
