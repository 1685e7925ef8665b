//! Opening a room and joining one.
use crate::game::room;
use crate::game::room::Room;
use crate::game::room::RoomModel;
use crate::game::room::RoomPlayerModel;
use crate::game::state::GamePhase;
use crate::game::state::PlayerModel;
use crate::protocol::MsgModel;
use crate::protocol::ServerMsg;
use crate::rooms;
use crate::rooms::RoomManager;
use crate::rooms::codes;
use crate::store::InMemoryStore;
use crate::store::MutateOut;
use crate::store::OutModel;
use crate::text;
use vstd::prelude::*;
use vstd::string::*;

verus! {

impl RoomModel {
    /// What the creator of the room is told.
    pub open spec fn created_msg(self) -> MsgModel {
        MsgModel::Created {
            code: self.code,
            player_id: 0,
            state: self.state,
            is_public: self.is_public,
            token: self.players[0].token.unwrap(),
        }
    }

    /// What everybody is told of the game.
    pub open spec fn state_msg(self) -> MsgModel {
        MsgModel::State { state: self.state }
    }

    /// A new room, open to the public or not.
    pub open spec fn opened_as(
        code: Seq<char>,
        host: Seq<char>,
        token: Seq<char>,
        is_public: bool,
    ) -> RoomModel {
        RoomModel { is_public, ..RoomModel::opened(code, host, token) }
    }
}

/// A new room, open to the public or not.
pub fn open_room(code: &String, host_name: &String, token: String, is_public: bool) -> (r: Room)
    ensures
        r@ == RoomModel::opened_as(code@, host_name@, token@, is_public),
{
    let mut room = Room::new(code.clone(), host_name.clone(), token);
    room.is_public = is_public;
    assert(room@ =~= RoomModel::opened_as(code@, host_name@, token@, is_public));
    room
}

/// What the creator of a room is told.
pub fn created_reply(room: &Room) -> (r: ServerMsg)
    requires
        room@.players.len() > 0,
        room@.players[0].token is Some,
    ensures
        r@ == room@.created_msg(),
{
    assert(room@.players[0] == room.players@[0]@);
    let token = match &room.players[0].token {
        Some(t) => t.clone(),
        None => String::new(),
    };
    ServerMsg::Created {
        code: room.code.clone(),
        player_id: 0,
        state: room.state.clone(),
        is_public: room.is_public,
        token,
    }
}

/// How many codes are tried for a room: one, and eight more where it is taken.
pub const CODE_TRIES: usize = 9;

/// What is said when no code could be had.
pub open spec fn no_code_text(reason: Seq<char>) -> Seq<char> {
    "failed to allocate a room code: "@ + reason
}

/// Have enough codes been tried to give up?
pub open spec fn gives_up(tried: usize) -> bool {
    tried >= CODE_TRIES
}

/// One code is tried, and eight more where it is taken; then no more.
pub proof fn law_nine_tries(tried: usize, reason: Seq<char>)
    ensures
        gives_up(tried) <==> tried > 8,
        no_code_text(reason) == "failed to allocate a room code: "@ + reason,
{
}

/// What the creator of a room is told after so many codes could not be had, the
/// last one for this reason; nothing as long as another one is to be tried.
pub fn give_up(tried: usize, reason: &str) -> (r: Option<ServerMsg>)
    ensures
        r is Some <==> tried >= CODE_TRIES,
        r is Some <==> gives_up(tried),
        r matches Some(reply) ==> reply@ == (MsgModel::Error { message: no_code_text(reason@) }),
{
    if tried < CODE_TRIES {
        return None;
    }
    let mut message = "failed to allocate a room code: ".to_owned();
    message.append(reason);
    Some(ServerMsg::Error { message })
}

/// The place of the first of the codes, from `from` on, that no room has.
pub open spec fn first_free(
    rooms: Map<Seq<char>, RoomModel>,
    codes: Seq<Seq<char>>,
    from: int,
) -> Option<int>
    decreases codes.len() - from,
{
    if from >= codes.len() {
        None
    } else if !rooms.dom().contains(codes[from]) {
        Some(from)
    } else {
        first_free(rooms, codes, from + 1)
    }
}

/// The rooms, the code and the answer after somebody has opened a room for which
/// these codes and tokens were drawn: the room has the first code that is free,
/// and the token drawn with it. Where none is free, no room is opened.
pub open spec fn opening(
    rooms: Map<Seq<char>, RoomModel>,
    codes: Seq<Seq<char>>,
    tokens: Seq<Seq<char>>,
    host: Seq<char>,
    is_public: bool,
) -> (Map<Seq<char>, RoomModel>, Seq<char>, MsgModel) {
    match first_free(rooms, codes, 0) {
        Some(i) => {
            let room = RoomModel::opened_as(codes[i], host, tokens[i], is_public);
            (rooms.insert(codes[i], room), codes[i], room.created_msg())
        },
        None => (
            rooms,
            codes.last(),
            MsgModel::Error { message: no_code_text("Room already exists"@) },
        ),
    }
}

pub proof fn lemma_first_free(rooms: Map<Seq<char>, RoomModel>, codes: Seq<Seq<char>>, from: int)
    requires
        0 <= from,
    ensures
        match first_free(rooms, codes, from) {
            Some(i) => from <= i < codes.len() && !rooms.dom().contains(codes[i]) && forall|k: int|
                from <= k < i ==> rooms.dom().contains(#[trigger] codes[k]),
            None => forall|k: int|
                from <= k < codes.len() ==> rooms.dom().contains(#[trigger] codes[k]),
        },
    decreases codes.len() - from,
{
    if from < codes.len() {
        lemma_first_free(rooms, codes, from + 1);
    }
}

/// Nobody who opens a room is turned away as long as one of the codes is free.
/// The room then has the first of them that is, and no other room is touched.
pub proof fn law_first_free_code_is_taken(
    rooms: Map<Seq<char>, RoomModel>,
    codes: Seq<Seq<char>>,
    tokens: Seq<Seq<char>>,
    host: Seq<char>,
    is_public: bool,
    k: int,
)
    requires
        0 <= k < codes.len(),
        !rooms.dom().contains(codes[k]),
        forall|j: int| 0 <= j < k ==> rooms.dom().contains(#[trigger] codes[j]),
    ensures
        ({
            let (after, code, reply) = opening(rooms, codes, tokens, host, is_public);
            let room = RoomModel::opened_as(codes[k], host, tokens[k], is_public);
            &&& code == codes[k]
            &&& after == rooms.insert(codes[k], room)
            &&& reply == room.created_msg()
        }),
{
    lemma_first_free(rooms, codes, 0);
}

/// Where every code is taken, no room is opened and none is touched.
pub proof fn law_no_free_code_no_room(
    rooms: Map<Seq<char>, RoomModel>,
    codes: Seq<Seq<char>>,
    tokens: Seq<Seq<char>>,
    host: Seq<char>,
    is_public: bool,
)
    requires
        forall|j: int| 0 <= j < codes.len() ==> rooms.dom().contains(#[trigger] codes[j]),
    ensures
        opening(rooms, codes, tokens, host, is_public).0 == rooms,
        opening(rooms, codes, tokens, host, is_public).2 is Error,
{
    lemma_first_free(rooms, codes, 0);
}

impl RoomManager {
    /// Opens a room in the store under a code that is not taken. Its creator
    /// sits in the first seat. Where nine codes in a row are taken, no room is
    /// opened.
    pub fn create_room(
        &self,
        rooms: &mut InMemoryStore,
        host_name: String,
        is_public: bool,
    ) -> (r: (String, usize, ServerMsg))
        ensures
            r.1 == 0,
            exists|codes: Seq<Seq<char>>, tokens: Seq<Seq<char>>|
                codes.len() == 9 && tokens.len() == 9 && (forall|i: int|
                    0 <= i < codes.len() ==> codes::is_code(
                        #[trigger] codes[i],
                        self@.code_length as nat,
                    )) && (forall|i: int|
                    0 <= i < tokens.len() ==> codes::is_token(#[trigger] tokens[i])) && (
                final(rooms)@,
                r.0@,
                r.2@,
                ) == #[trigger] opening(old(rooms)@, codes, tokens, host_name@, is_public),
    {
        let mut codes: Vec<String> = Vec::new();
        let mut tokens: Vec<String> = Vec::new();
        let mut i: usize = 0;
        while i < CODE_TRIES
            invariant
                i <= CODE_TRIES,
                codes.len() == i,
                tokens.len() == i,
                forall|k: int|
                    0 <= k < i ==> codes::is_code(
                        (#[trigger] codes@[k])@,
                        self@.code_length as nat,
                    ),
                forall|k: int| 0 <= k < i ==> codes::is_token((#[trigger] tokens@[k])@),
            decreases CODE_TRIES - i,
        {
            let code = self.generate_code();
            let token = Self::generate_token();
            codes.push(code);
            tokens.push(token);
            i += 1;
        }
        Self::create_room_with(rooms, &codes, &tokens, &host_name, is_public)
    }

    /// Opens a room under the first of these codes that is not taken.
    pub fn create_room_with(
        rooms: &mut InMemoryStore,
        codes: &Vec<String>,
        tokens: &Vec<String>,
        host_name: &String,
        is_public: bool,
    ) -> (r: (String, usize, ServerMsg))
        requires
            codes.len() == CODE_TRIES,
            tokens.len() == CODE_TRIES,
        ensures
            r.1 == 0,
            (final(rooms)@, r.0@, r.2@) == opening(
                old(rooms)@,
                text::texts(codes@),
                text::texts(tokens@),
                host_name@,
                is_public,
            ),
    {
        let ghost keys = text::texts(codes@);
        let mut i: usize = 0;
        loop
            invariant
                i < CODE_TRIES,
                codes.len() == CODE_TRIES,
                tokens.len() == CODE_TRIES,
                keys == text::texts(codes@),
                rooms@ == old(rooms)@,
                first_free(rooms@, keys, 0) == first_free(rooms@, keys, i as int),
            decreases CODE_TRIES - i,
        {
            let code = codes[i].clone();
            let token = tokens[i].clone();
            assert(keys[i as int] == code@);
            assert(text::texts(tokens@)[i as int] == token@);
            let room = open_room(&code, host_name, token, is_public);
            match rooms.create(code.as_str(), &room) {
                Ok(_) => {
                    let reply = created_reply(&room);
                    return (code, 0, reply);
                },
                Err(reason) => {
                    i += 1;
                    match give_up(i, reason.as_str()) {
                        Some(reply) => {
                            return (code, 0, reply);
                        },
                        None => {},
                    }
                },
            }
        }
    }
}

impl RoomModel {
    /// Why nobody can join, if so.
    pub open spec fn join_refusal(self) -> Option<Seq<char>> {
        if self.state.phase != GamePhase::Lobby {
            Some("Game already started"@)
        } else {
            self.entry_refusal()
        }
    }

    /// The name of the player with this id, as the game knows it.
    pub open spec fn name_at_table(self, id: usize) -> Seq<char> {
        self.state.players[room::player_with_id(self.state.players, id, 0).unwrap()].name
    }

    /// What is reported of somebody's joining.
    pub open spec fn join_report(
        self,
        code: Seq<char>,
        player_id: usize,
        token: Seq<char>,
    ) -> OutModel {
        OutModel::nothing().told(
            MsgModel::PlayerJoined { player_id, name: self.name_at_table(player_id) },
        ).told(self.state_msg()).replied(
            MsgModel::Joined { player_id, state: self.state, code, token },
        )
    }

    /// The room after somebody has tried to join.
    pub open spec fn joined(self, name: Seq<char>, token: Seq<char>) -> RoomModel {
        if self.join_refusal() is Some {
            self
        } else {
            self.seated_last(name, Some(token))
        }
    }

    /// The answer to somebody who has tried to join.
    pub open spec fn join_answer(
        self,
        code: Seq<char>,
        name: Seq<char>,
        token: Seq<char>,
    ) -> Result<OutModel, Seq<char>> {
        match self.join_refusal() {
            Some(reason) => Err(reason),
            None => Ok(
                self.joined(name, token).join_report(code, self.players.len() as usize, token),
            ),
        }
    }
}

proof fn lemma_player_found(players: Seq<PlayerModel>, id: usize, from: int, at: int)
    requires
        0 <= from <= at < players.len(),
        players[at].id == id,
    ensures
        room::player_with_id(players, id, from) is Some,
        from <= room::player_with_id(players, id, from).unwrap() < players.len(),
    decreases players.len() - from,
{
    if players[from].id != id {
        lemma_player_found(players, id, from + 1, at);
    }
}

/// The first player with an id, in seats that are numbered by their places, is
/// the one in that place.
pub proof fn lemma_dense_player(players: Seq<PlayerModel>, id: usize, from: int)
    requires
        0 <= from <= id,
        forall|i: int| 0 <= i < players.len() ==> (#[trigger] players[i]).id == i,
    ensures
        room::player_with_id(players, id, from) == if id < players.len() {
            Some(id as int)
        } else {
            None
        },
    decreases players.len() - from,
{
    if from < players.len() {
        assert(players[from].id == from);
        if from < id {
            lemma_dense_player(players, id, from + 1);
        }
    }
}

/// The first seat with an id, in seats that are numbered by their places, is
/// the one in that place.
pub proof fn lemma_dense_seat(players: Seq<RoomPlayerModel>, id: usize, from: int)
    requires
        0 <= from <= id,
        forall|i: int| 0 <= i < players.len() ==> (#[trigger] players[i]).id == i,
    ensures
        room::seat_with_id(players, id, from) == if id < players.len() {
            Some(id as int)
        } else {
            None
        },
    decreases players.len() - from,
{
    if from < players.len() {
        assert(players[from].id == from);
        if from < id {
            lemma_dense_seat(players, id, from + 1);
        }
    }
}

impl RoomManager {
    /// Somebody joins a room under its code. They get the next seat and a
    /// token, drawn by chance.
    pub fn join_room(&self, room: &mut Room, code: &str, name: String) -> (r: Result<
        MutateOut,
        String,
    >)
        ensures
            exists|token: Seq<char>|
                #![trigger old(room)@.joined(name@, token)]
                codes::is_token(token) && final(room)@ == old(room)@.joined(name@, token)
                    && rooms::step_result(r) == old(room)@.join_answer(
                    text::uppercased(code@),
                    name@,
                    token,
                ),
    {
        let token = Self::generate_token();
        let ghost key = token@;
        let own_code = Self::room_code(code);
        let r = self.join_room_with(room, own_code, name, token);
        assert(codes::is_token(key) && room@ == old(room)@.joined(name@, key));
        r
    }

    /// Somebody joins a room, with this token.
    pub fn join_room_with(&self, room: &mut Room, code: String, name: String, token: String) -> (r:
        Result<MutateOut, String>)
        ensures
            final(room)@ == old(room)@.joined(name@, token@),
            rooms::step_result(r) == old(room)@.join_answer(code@, name@, token@),
    {
        if room.state.phase != GamePhase::Lobby {
            return Err("Game already started".to_owned());
        }
        let ghost before = room@;
        let ghost who = name@;
        let key = token.clone();
        match room.add_player(name, token) {
            Err(e) => Err(e),
            Ok(player_id) => {
                proof {
                    lemma_player_found(
                        room@.state.players,
                        player_id,
                        0,
                        before.state.players.len() as int,
                    );
                }
                let player_name = match room::find_player(&room.state.players, player_id) {
                    Some(i) => {
                        assert(room@.state.players[i as int] == room.state.players@[i as int]@);
                        room.state.players[i].name.clone()
                    },
                    None => String::new(),
                };
                let mut out = MutateOut::default();
                out.tell(ServerMsg::PlayerJoined { player_id, name: player_name });
                out.tell(ServerMsg::State { state: room.state.clone() });
                out.answer(
                    ServerMsg::Joined { player_id, state: room.state.clone(), code, token: key },
                );
                Ok(out)
            },
        }
    }
}

/// A room never has more than four seats by people's joining, and whoever is
/// refused changes nothing.
pub proof fn law_join_respects_table(room: RoomModel, name: Seq<char>, token: Seq<char>)
    requires
        room.players.len() <= 4,
    ensures
        room.joined(name, token).players.len() <= 4,
        room.join_refusal() is Some ==> room.joined(name, token) == room,
        room.aligned() ==> room.joined(name, token).aligned(),
        room.join_refusal() is None ==> {
            &&& room.joined(name, token).players.len() == room.players.len() + 1
            &&& room.joined(name, token).players.last().token == Some(token)
            &&& forall|i: int|
                0 <= i < room.players.len() ==> #[trigger] room.joined(name, token).players[i]
                    == room.players[i]
        },
{
    room::law_seats_stay_aligned(room, room.code, name, token, Some(token));
}

} // verus!
