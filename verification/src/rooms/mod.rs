//! The rooms of a server: who is connected to them, and the steps by which
//! people come, go, get ready and start. Each step works on one room that
//! nobody else touches meanwhile, and reports who is to be told what.
use crate::game::lobby;
use crate::game::room::RoomModel;
use crate::game::state::GamePhase;
use crate::protocol;
use crate::protocol::MsgModel;
use crate::protocol::PersonalMsg;
use crate::protocol::ServerMsg;
use crate::store::MutateOut;
use crate::store::OutModel;
use dashmap::DashMap;
use vstd::prelude::*;
use vstd::string::*;

pub mod codes;
pub mod comings;
pub mod commit;
pub mod entry;
pub mod leaving;
pub mod lines;
pub mod overview;
pub mod promises;
pub mod rejoin;
pub mod returning;
pub mod starting;

pub use crate::rooms::overview::PublicRoomSummary;

verus! {

/// How long a dropped-out player may come back, in seconds.
pub const REJOIN_TIMEOUT_SECS: u64 = 300;

/// What a step answers: what it reports, or why it was refused.
pub open spec fn step_result(r: Result<MutateOut, String>) -> Result<OutModel, Seq<char>> {
    match r {
        Ok(out) => Ok(out@),
        Err(e) => Err(e@),
    }
}

/// The connections in a map: by room code, the seat and the number of each
/// connection.
pub uninterp spec fn sessions_in(map: DashMap<String, Vec<(usize, u64)>>) -> Map<
    Seq<char>,
    Seq<(usize, u64)>,
>;

/// No connection to any room.
pub open spec fn no_sessions() -> Map<Seq<char>, Seq<(usize, u64)>> {
    Map::empty()
}

/// `DashMap::new`: a map without connections.
#[verifier::external_body]
fn empty_sessions() -> (r: DashMap<String, Vec<(usize, u64)>>)
    ensures
        sessions_in(r) == no_sessions(),
{
    DashMap::new()
}

/// `DashMap::get`, with the list copied out: the connections of a room, if any
/// are listed.
#[verifier::external_body]
fn sessions_at(map: &DashMap<String, Vec<(usize, u64)>>, code: &str) -> (r: Option<
    Vec<(usize, u64)>,
>)
    ensures
        r is Some <==> sessions_in(*map).dom().contains(code@),
        r matches Some(list) ==> list@ == sessions_in(*map)[code@],
{
    map.get(code).map(|entry| entry.value().clone())
}

/// `DashMap::insert`: the list stands under the code, in place of any other.
#[verifier::external_body]
fn put_sessions(
    map: &mut DashMap<String, Vec<(usize, u64)>>,
    code: String,
    list: Vec<(usize, u64)>,
)
    ensures
        sessions_in(*final(map)) == sessions_in(*old(map)).insert(code@, list@),
{
    map.insert(code, list);
}

/// `DashMap::remove`: no list stands under the code any more.
#[verifier::external_body]
fn drop_sessions(map: &mut DashMap<String, Vec<(usize, u64)>>, code: &str)
    ensures
        sessions_in(*final(map)) == sessions_in(*old(map)).remove(code@),
{
    map.remove(code);
}

/// The rooms' settings and this server's connections. A connection is known by
/// a number; every connection belongs to a seat, so that what is sent can be
/// cut to what that seat may see.
pub struct RoomManager {
    sessions: DashMap<String, Vec<(usize, u64)>>,
    pod_id: String,
    code_length: usize,
    bot_turn_delay_ms: u64,
    orphan_timeout_secs: u64,
    lobby_disconnect_timeout_secs: u64,
}

#[verifier::ext_equal]
pub struct ManagerModel {
    pub sessions: Map<Seq<char>, Seq<(usize, u64)>>,
    pub pod_id: Seq<char>,
    pub code_length: usize,
    pub bot_turn_delay_ms: u64,
    pub orphan_timeout_secs: u64,
    pub lobby_disconnect_timeout_secs: u64,
}

impl View for RoomManager {
    type V = ManagerModel;

    closed spec fn view(&self) -> ManagerModel {
        ManagerModel {
            sessions: sessions_in(self.sessions),
            pod_id: self.pod_id@,
            code_length: self.code_length,
            bot_turn_delay_ms: self.bot_turn_delay_ms,
            orphan_timeout_secs: self.orphan_timeout_secs,
            lobby_disconnect_timeout_secs: self.lobby_disconnect_timeout_secs,
        }
    }
}

/// Something to be sent down a connection.
#[derive(Debug)]
pub struct Delivery {
    pub session: u64,
    pub payload: PersonalMsg,
}

/// Is this what a seat gets of a message that goes to everybody? The game is
/// cut to what the seat may see, with the public counts beside it; any other
/// message goes out as it is.
pub open spec fn is_broadcast_of(payload: PersonalMsg, msg: MsgModel, seat: usize) -> bool {
    match msg {
        MsgModel::State { .. } => protocol::is_view_of(payload, msg, seat),
        _ => protocol::is_plain(payload, msg),
    }
}

/// Is this what the connections get of a message that goes to everybody? Each
/// gets it once, cut to what its seat may see.
pub open spec fn reaches_all(
    list: Seq<Delivery>,
    msg: MsgModel,
    sessions: Seq<(usize, u64)>,
) -> bool {
    &&& list.len() == sessions.len()
    &&& forall|k: int|
        0 <= k < list.len() ==> (#[trigger] list[k]).session == sessions[k].1 && is_broadcast_of(
            list[k].payload,
            msg,
            sessions[k].0,
        )
}

impl ManagerModel {
    /// The connections of a room.
    pub open spec fn sessions_of(self, code: Seq<char>) -> Seq<(usize, u64)> {
        if self.sessions.dom().contains(code) {
            self.sessions[code]
        } else {
            Seq::empty()
        }
    }

    /// With other connections of a room.
    pub open spec fn with_sessions(self, code: Seq<char>, list: Seq<(usize, u64)>) -> ManagerModel {
        ManagerModel { sessions: self.sessions.insert(code, list), ..self }
    }

    /// Without any connections of a room.
    pub open spec fn without_sessions(self, code: Seq<char>) -> ManagerModel {
        ManagerModel { sessions: self.sessions.remove(code), ..self }
    }

    /// Without one connection of a room. A room without connections is not
    /// listed.
    pub open spec fn without_session(self, code: Seq<char>, session: u64) -> ManagerModel {
        let left = self.sessions_of(code).filter(other_session(session));
        if left.len() == 0 {
            self.without_sessions(code)
        } else {
            self.with_sessions(code, left)
        }
    }

    /// With the seats of a room's connections moved.
    pub open spec fn seats_moved(
        self,
        code: Seq<char>,
        renumbered: Seq<(usize, usize)>,
    ) -> ManagerModel {
        if renumbered.len() == 0 || !self.sessions.dom().contains(code) {
            self
        } else {
            self.with_sessions(code, sessions_followed(self.sessions[code], renumbered))
        }
    }
}

/// The connections, each with the seat that its player has moved to.
pub open spec fn sessions_followed(
    list: Seq<(usize, u64)>,
    renumbered: Seq<(usize, usize)>,
) -> Seq<(usize, u64)> {
    list.map_values(|s: (usize, u64)| (lobby::followed(renumbered, s.0), s.1))
}

/// The seat of the first entry for a connection.
pub open spec fn seat_in(list: Seq<(usize, u64)>, session: u64) -> Option<usize>
    decreases list.len(),
{
    if list.len() == 0 {
        None
    } else if list[0].1 == session {
        Some(list[0].0)
    } else {
        seat_in(list.drop_first(), session)
    }
}

/// Is it another connection?
pub open spec fn other_session(session: u64) -> spec_fn((usize, u64)) -> bool {
    |s: (usize, u64)| s.1 != session
}

/// Where a seat's player sits after a renumbering.
fn follow_seat(renumbered: &Vec<(usize, usize)>, seat: usize) -> (r: usize)
    ensures
        r == lobby::followed(renumbered@, seat),
{
    let mut i: usize = 0;
    assert(renumbered@.skip(0) =~= renumbered@);
    while i < renumbered.len()
        invariant
            i <= renumbered.len(),
            lobby::followed(renumbered@.skip(i as int), seat) == lobby::followed(renumbered@, seat),
        decreases renumbered.len() - i,
    {
        assert(renumbered@.skip(i as int)[0] == renumbered@[i as int]);
        assert(renumbered@.skip(i as int).drop_first() =~= renumbered@.skip(i + 1));
        if renumbered[i].0 == seat {
            return renumbered[i].1;
        }
        i += 1;
    }
    seat
}

impl RoomManager {
    pub fn new(
        pod_id: String,
        code_length: usize,
        bot_turn_delay_ms: u64,
        orphan_timeout_secs: u64,
        lobby_disconnect_timeout_secs: u64,
    ) -> (r: Self)
        ensures
            r@ == (ManagerModel {
                sessions: no_sessions(),
                pod_id: pod_id@,
                code_length,
                bot_turn_delay_ms,
                orphan_timeout_secs,
                lobby_disconnect_timeout_secs,
            }),
    {
        RoomManager {
            sessions: empty_sessions(),
            pod_id,
            code_length,
            bot_turn_delay_ms,
            orphan_timeout_secs,
            lobby_disconnect_timeout_secs,
        }
    }

    /// A connection to a room's seat.
    pub fn add_session(&mut self, code: String, player_id: usize, session: u64)
        ensures
            final(self)@ == old(self)@.with_sessions(
                code@,
                old(self)@.sessions_of(code@).push((player_id, session)),
            ),
    {
        let ghost before = self@;
        let mut list = match sessions_at(&self.sessions, code.as_str()) {
            Some(l) => l,
            None => Vec::new(),
        };
        assert(list@ =~= before.sessions_of(code@));
        list.push((player_id, session));
        put_sessions(&mut self.sessions, code, list);
        assert(self@ =~= before.with_sessions(
            code@,
            before.sessions_of(code@).push((player_id, session)),
        ));
    }

    /// A connection is gone.
    pub fn remove_session(&mut self, code: &str, session: u64)
        ensures
            final(self)@ == old(self)@.without_session(code@, session),
    {
        let ghost before = self@;
        let list = match sessions_at(&self.sessions, code) {
            Some(l) => l,
            None => {
                proof {
                    reveal(Seq::filter);
                    assert(before.sessions_of(code@) =~= Seq::empty());
                    assert(before.sessions.remove(code@) =~= before.sessions);
                    assert(before.without_session(code@, session) =~= before);
                }
                return;
            },
        };
        let mut left: Vec<(usize, u64)> = Vec::new();
        let mut i: usize = 0;
        proof {
            reveal(Seq::filter);
            assert(list@.take(0) =~= Seq::empty());
        }
        while i < list.len()
            invariant
                i <= list.len(),
                left@ == list@.take(i as int).filter(other_session(session)),
            decreases list.len() - i,
        {
            proof {
                reveal(Seq::filter);
                assert(list@.take(i + 1).drop_last() =~= list@.take(i as int));
                assert(list@.take(i + 1).last() == list@[i as int]);
            }
            if list[i].1 != session {
                left.push(list[i]);
            }
            i += 1;
        }
        assert(list@.take(list.len() as int) =~= list@);
        if left.len() == 0 {
            drop_sessions(&mut self.sessions, code);
        } else {
            put_sessions(&mut self.sessions, code.to_owned(), left);
        }
        assert(self@ =~= before.without_session(code@, session));
    }

    /// The seat that a connection belongs to.
    pub fn seat_of(&self, code: &str, session: u64) -> (r: Option<usize>)
        ensures
            r == seat_in(self@.sessions_of(code@), session),
    {
        let list = match sessions_at(&self.sessions, code) {
            Some(l) => l,
            None => Vec::new(),
        };
        assert(list@ =~= self@.sessions_of(code@));
        let mut i: usize = 0;
        assert(list@.skip(0) =~= list@);
        while i < list.len()
            invariant
                i <= list.len(),
                list@ == self@.sessions_of(code@),
                seat_in(list@.skip(i as int), session) == seat_in(list@, session),
            decreases list.len() - i,
        {
            assert(list@.skip(i as int)[0] == list@[i as int]);
            assert(list@.skip(i as int).drop_first() =~= list@.skip(i + 1));
            if list[i].1 == session {
                return Some(list[i].0);
            }
            i += 1;
        }
        None
    }

    /// Moves this server's connections along with the seats of a room.
    pub fn apply_renumbering(&mut self, code: &str, renumbered: &Vec<(usize, usize)>)
        ensures
            final(self)@ == old(self)@.seats_moved(code@, renumbered@),
    {
        if renumbered.len() == 0 {
            return;
        }
        let ghost before = self@;
        let list = match sessions_at(&self.sessions, code) {
            Some(l) => l,
            None => {
                return;
            },
        };
        let mut moved: Vec<(usize, u64)> = Vec::new();
        let mut i: usize = 0;
        while i < list.len()
            invariant
                i <= list.len(),
                moved.len() == i,
                forall|k: int|
                    0 <= k < i ==> #[trigger] moved@[k] == (
                        lobby::followed(renumbered@, list@[k].0),
                        list@[k].1,
                    ),
            decreases list.len() - i,
        {
            moved.push((follow_seat(renumbered, list[i].0), list[i].1));
            i += 1;
        }
        assert(moved@ =~= sessions_followed(list@, renumbered@));
        put_sessions(&mut self.sessions, code.to_owned(), moved);
        assert(self@ =~= before.seats_moved(code@, renumbered@));
    }

    /// What this server's connections to a room get of a message that goes to
    /// everybody.
    pub fn broadcast_local(&self, code: &str, msg: &ServerMsg) -> (r: Vec<Delivery>)
        ensures
            reaches_all(r@, msg@, self@.sessions_of(code@)),
    {
        let list = match sessions_at(&self.sessions, code) {
            Some(l) => l,
            None => Vec::new(),
        };
        assert(list@ =~= self@.sessions_of(code@));
        let mut out: Vec<Delivery> = Vec::new();
        let mut i: usize = 0;
        while i < list.len()
            invariant
                i <= list.len(),
                out.len() == i,
                forall|k: int|
                    0 <= k < i ==> (#[trigger] out@[k]).session == list@[k].1 && is_broadcast_of(
                        out@[k].payload,
                        msg@,
                        list@[k].0,
                    ),
            decreases list.len() - i,
        {
            let payload = match msg {
                ServerMsg::State { .. } => protocol::personalise_for_viewer(msg, list[i].0),
                _ => protocol::plain(msg.clone()),
            };
            out.push(Delivery { session: list[i].1, payload });
            i += 1;
        }
        out
    }

    /// This server's id.
    pub fn pod_id(&self) -> (r: &String)
        ensures
            r@ == self@.pod_id,
    {
        &self.pod_id
    }

    /// How long a bot thinks.
    pub fn get_bot_turn_delay_ms(&self) -> (r: u64)
        ensures
            r == self@.bot_turn_delay_ms,
    {
        self.bot_turn_delay_ms
    }
}

/// A connection follows its player when seats move in the lobby: whoever sat
/// where the connection belonged before sits where it belongs afterwards.
pub proof fn law_sessions_follow_players(
    room: RoomModel,
    taken: usize,
    list: Seq<(usize, u64)>,
    k: int,
)
    requires
        room.aligned(),
        room.state.phase == GamePhase::Lobby,
        taken < room.players.len() <= usize::MAX,
        0 <= k < list.len(),
        list[k].0 < room.players.len(),
        list[k].0 != taken,
    ensures
        ({
            let after = room.without_seat(taken);
            let moved = sessions_followed(list, room.seat_moves(taken))[k];
            &&& moved.1 == list[k].1
            &&& moved.0 < after.players.len()
            &&& after.players[moved.0 as int].token == room.players[list[k].0 as int].token
            &&& after.players[moved.0 as int].name == room.players[list[k].0 as int].name
        }),
{
    lobby::law_removal_follows_survivors(room, taken, list[k].0);
}

} // verus!
