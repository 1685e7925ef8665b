//! One client's connection: what each of their messages asks of the server,
//! which room and seat they have, and what they are answered.
use crate::protocol;
use crate::protocol::ClientMsg;
use crate::protocol::MsgModel;
use crate::protocol::PersonalMsg;
use crate::protocol::ServerMsg;
use crate::text;
use vstd::prelude::*;
use vstd::string::*;

verus! {

/// What the server knows of a connection.
#[derive(Debug)]
pub struct Connection {
    room_code: Option<String>,
    player_id: Option<usize>,
    has_session: bool,
    cleaned_up: bool,
}

#[verifier::ext_equal]
pub struct ConnectionModel {
    /// The room that was entered last.
    pub room_code: Option<Seq<char>>,
    /// The seat there.
    pub player_id: Option<usize>,
    /// Is the connection registered for the room's messages?
    pub has_session: bool,
    /// Has the seat been given up already?
    pub cleaned_up: bool,
}

impl View for Connection {
    type V = ConnectionModel;

    closed spec fn view(&self) -> ConnectionModel {
        ConnectionModel {
            room_code: text::opt_text(self.room_code),
            player_id: self.player_id,
            has_session: self.has_session,
            cleaned_up: self.cleaned_up,
        }
    }
}

/// What is to be done about a message.
#[derive(Debug)]
pub enum Action {
    /// Open a room and tell `entered`.
    Create { name: String, is_public: bool },
    /// Join a room and tell `on_joined`.
    Join { code: String, name: String },
    /// Take a seat back and tell `on_rejoined`.
    Rejoin { code: String, name: String, token: String },
    /// Play the cards, or pass.
    Move { code: String, player_id: usize, cards: Option<Vec<String>> },
    /// Set the ready mark and answer by `answered`.
    Ready { code: String, player_id: usize, ready: bool },
    /// Change the settings and answer by `answered`.
    Settings {
        code: String,
        player_id: usize,
        play_limit_secs: Option<u32>,
        winning_point: Option<u32>,
    },
    /// Start the game and answer by `on_started`.
    Start { code: String, player_id: usize },
    /// Give the seat up for good, answer, and close the connection.
    Remove { code: String, player_id: usize },
    /// Close the connection.
    Close,
    /// Look the room up and answer by `checked`.
    Check { code: String, token: String },
    /// Answer.
    Reply { msg: ServerMsg },
    /// Do nothing.
    Ignore,
}

/// What entering a room leads to: the answer, and the room and seat whose
/// messages the connection is to get from now on.
#[derive(Debug)]
pub struct Entrance {
    pub reply: PersonalMsg,
    pub session: Option<(String, usize)>,
}

/// What is left to do when a connection ends.
#[derive(Debug)]
pub struct Farewell {
    /// The seat that the client drops out of.
    pub leave: Option<(String, usize)>,
    /// The room whose messages the connection got.
    pub forget: Option<String>,
}

/// What an optional room and seat hold.
pub open spec fn seat_view(seat: Option<(String, usize)>) -> Option<(Seq<char>, usize)> {
    match seat {
        Some((code, id)) => Some((code@, id)),
        None => None,
    }
}

impl ConnectionModel {
    /// A connection that has entered no room.
    pub open spec fn fresh() -> ConnectionModel {
        ConnectionModel { room_code: None, player_id: None, has_session: false, cleaned_up: false }
    }

    /// The room and the seat, if there are both.
    pub open spec fn seat(self) -> Option<(Seq<char>, usize)> {
        match (self.room_code, self.player_id) {
            (Some(code), Some(id)) => Some((code, id)),
            _ => None,
        }
    }

    /// In a room, at the seat that was given, or else at the one from before.
    pub open spec fn entered(self, code: Seq<char>, player_id: Option<usize>) -> ConnectionModel {
        ConnectionModel {
            room_code: Some(code),
            player_id: if player_id is Some {
                player_id
            } else {
                self.player_id
            },
            has_session: true,
            ..self
        }
    }

    /// The seat whose view the client gets.
    pub open spec fn viewer(self) -> usize {
        match self.player_id {
            Some(id) => id,
            None => 0,
        }
    }

    /// At the seat that the player has been moved to.
    pub open spec fn moved_to(self, seat: Option<usize>) -> ConnectionModel {
        if self.player_id is Some && seat is Some {
            ConnectionModel { player_id: seat, ..self }
        } else {
            self
        }
    }

    /// With the seat given up.
    pub open spec fn given_up(self) -> ConnectionModel {
        ConnectionModel { cleaned_up: true, ..self }
    }

    /// The seat that is still to be given up.
    pub open spec fn owed(self) -> Option<(Seq<char>, usize)> {
        if self.cleaned_up {
            None
        } else {
            self.seat()
        }
    }

    /// The room in which the connection is registered.
    pub open spec fn registered(self) -> Option<Seq<char>> {
        if self.has_session {
            self.room_code
        } else {
            None
        }
    }

    /// After a message from the client.
    pub open spec fn after(self, msg: ClientMsg) -> ConnectionModel {
        match msg {
            ClientMsg::LeaveRoom => self.given_up(),
            _ => self,
        }
    }
}

/// Is this what a message from the client asks for? Whoever has no seat can
/// open, join, look up or ping, and nothing else.
pub open spec fn asks_for(conn: ConnectionModel, msg: ClientMsg, action: Action) -> bool {
    match msg {
        ClientMsg::Create { name, is_public } => action == (Action::Create { name, is_public }),
        ClientMsg::Join { code, name } => action == (Action::Join { code, name }),
        ClientMsg::Rejoin { code, name, token } => action == (Action::Rejoin { code, name, token }),
        ClientMsg::CheckRoom { code, token } => action == (Action::Check { code, token }),
        ClientMsg::Ping => action matches Action::Reply { msg: m } && m@ == MsgModel::Pong,
        ClientMsg::Play { cards } => match conn.seat() {
            Some((room, seat)) => action matches Action::Move { code, player_id, cards: c }
                && code@ == room && player_id == seat && c == Some(cards),
            None => action is Ignore,
        },
        ClientMsg::Pass => match conn.seat() {
            Some((room, seat)) => action matches Action::Move { code, player_id, cards: c }
                && code@ == room && player_id == seat && c is None,
            None => action is Ignore,
        },
        ClientMsg::Ready { ready } => match conn.seat() {
            Some((room, seat)) => action matches Action::Ready { code, player_id, ready: b }
                && code@ == room && player_id == seat && b == ready,
            None => action is Ignore,
        },
        ClientMsg::SetRoomSettings { play_limit_secs, winning_point } => match conn.seat() {
            Some((room, seat)) => action matches Action::Settings {
                code,
                player_id,
                play_limit_secs: l,
                winning_point: w,
            } && code@ == room && player_id == seat && l == play_limit_secs && w == winning_point,
            None => action is Ignore,
        },
        ClientMsg::StartGame => match conn.seat() {
            Some((room, seat)) => action matches Action::Start { code, player_id } && code@ == room
                && player_id == seat,
            None => action is Ignore,
        },
        ClientMsg::LeaveRoom => match conn.seat() {
            Some((room, seat)) => action matches Action::Remove { code, player_id } && code@ == room
                && player_id == seat,
            None => action is Close,
        },
    }
}

/// What is answered where something has been asked for: the reply, or the
/// reason for refusing.
pub open spec fn answer_to(result: Result<ServerMsg, String>) -> MsgModel {
    match result {
        Ok(msg) => msg@,
        Err(message) => MsgModel::Error { message: message@ },
    }
}

/// The seat that a reply to joining gives.
pub open spec fn joined_seat(msg: MsgModel) -> Option<usize> {
    match msg {
        MsgModel::Joined { player_id, .. } => Some(player_id),
        _ => None,
    }
}

/// The seat that a reply to rejoining gives.
pub open spec fn rejoined_seat(msg: MsgModel) -> Option<usize> {
    match msg {
        MsgModel::Rejoined { player_id, .. } => Some(player_id),
        _ => None,
    }
}

impl Connection {
    /// A connection that has just been made.
    pub fn new() -> (r: Self)
        ensures
            r@ == ConnectionModel::fresh(),
    {
        Connection { room_code: None, player_id: None, has_session: false, cleaned_up: false }
    }

    /// The room and the seat, if there are both.
    pub fn seat(&self) -> (r: Option<(String, usize)>)
        ensures
            seat_view(r) == self@.seat(),
    {
        match (&self.room_code, self.player_id) {
            (Some(code), Some(id)) => Some((code.clone(), id)),
            _ => None,
        }
    }

    /// The room in which the connection is registered.
    pub fn registered(&self) -> (r: Option<String>)
        ensures
            text::opt_text(r) == self@.registered(),
    {
        if self.has_session {
            self.room_code.clone()
        } else {
            None
        }
    }

    /// Follows the player to the seat that the connection is registered for, so
    /// that nothing is asked in another player's name after seats have moved.
    pub fn follow(&mut self, seat: Option<usize>)
        ensures
            final(self)@ == old(self)@.moved_to(seat),
    {
        if self.player_id.is_some() && seat.is_some() {
            self.player_id = seat;
        }
    }

    /// A message from the client.
    pub fn on_message(&mut self, msg: ClientMsg) -> (r: Action)
        ensures
            final(self)@ == old(self)@.after(msg),
            asks_for(old(self)@, msg, r),
    {
        match msg {
            ClientMsg::Create { name, is_public } => Action::Create { name, is_public },
            ClientMsg::Join { code, name } => Action::Join { code, name },
            ClientMsg::Rejoin { code, name, token } => Action::Rejoin { code, name, token },
            ClientMsg::CheckRoom { code, token } => Action::Check { code, token },
            ClientMsg::Ping => Action::Reply { msg: ServerMsg::Pong },
            ClientMsg::Play { cards } => match self.seat() {
                Some((code, player_id)) => Action::Move { code, player_id, cards: Some(cards) },
                None => Action::Ignore,
            },
            ClientMsg::Pass => match self.seat() {
                Some((code, player_id)) => Action::Move { code, player_id, cards: None },
                None => Action::Ignore,
            },
            ClientMsg::Ready { ready } => match self.seat() {
                Some((code, player_id)) => Action::Ready { code, player_id, ready },
                None => Action::Ignore,
            },
            ClientMsg::SetRoomSettings { play_limit_secs, winning_point } => match self.seat() {
                Some((code, player_id)) => Action::Settings {
                    code,
                    player_id,
                    play_limit_secs,
                    winning_point,
                },
                None => Action::Ignore,
            },
            ClientMsg::StartGame => match self.seat() {
                Some((code, player_id)) => Action::Start { code, player_id },
                None => Action::Ignore,
            },
            ClientMsg::LeaveRoom => {
                self.cleaned_up = true;
                match self.seat() {
                    Some((code, player_id)) => Action::Remove { code, player_id },
                    None => Action::Close,
                }
            },
        }
    }

    /// Something came that is no message.
    pub fn on_garbled(&self) -> (r: ServerMsg)
        ensures
            r@ == (MsgModel::Error { message: "Invalid message format"@ }),
    {
        ServerMsg::Error { message: "Invalid message format".to_owned() }
    }

    fn enter(&mut self, code: String, player_id: Option<usize>, msg: &ServerMsg) -> (r: Entrance)
        ensures
            final(self)@ == old(self)@.entered(code@, player_id),
            protocol::is_view_of(r.reply, msg@, final(self)@.viewer()),
            seat_view(r.session) == Some((code@, final(self)@.viewer())),
    {
        let session_code = code.clone();
        self.room_code = Some(code);
        if player_id.is_some() {
            self.player_id = player_id;
        }
        self.has_session = true;
        let viewer: usize = match self.player_id {
            Some(id) => id,
            None => 0,
        };
        Entrance {
            reply: protocol::personalise_for_viewer(msg, viewer),
            session: Some((session_code, viewer)),
        }
    }

    /// A room has been opened for the client.
    pub fn on_created(&mut self, code: String, player_id: usize, msg: &ServerMsg) -> (r: Entrance)
        ensures
            final(self)@ == old(self)@.entered(code@, Some(player_id)),
            protocol::is_view_of(r.reply, msg@, player_id),
            seat_view(r.session) == Some((code@, player_id)),
    {
        self.enter(code, Some(player_id), msg)
    }

    /// The client has joined the room of the code that they wrote, or has been
    /// refused. The room goes by its code in upper case.
    pub fn on_joined(&mut self, code: &str, result: Result<ServerMsg, String>) -> (r: Entrance)
        ensures
            match result {
                Ok(msg) => {
                    &&& final(self)@ == old(self)@.entered(
                        text::uppercased(code@),
                        joined_seat(msg@),
                    )
                    &&& protocol::is_view_of(r.reply, msg@, final(self)@.viewer())
                    &&& seat_view(r.session) == Some(
                        (text::uppercased(code@), final(self)@.viewer()),
                    )
                },
                Err(_) => {
                    &&& final(self)@ == old(self)@
                    &&& protocol::is_plain(r.reply, answer_to(result))
                    &&& r.session is None
                },
            },
    {
        match result {
            Ok(msg) => {
                let seat: Option<usize> = match &msg {
                    ServerMsg::Joined { player_id, .. } => Some(*player_id),
                    _ => None,
                };
                self.enter(text::std_uppercase(code), seat, &msg)
            },
            Err(message) => Entrance {
                reply: protocol::plain(ServerMsg::Error { message }),
                session: None,
            },
        }
    }

    /// The client has taken their seat back, or has been refused.
    pub fn on_rejoined(&mut self, code: &str, result: Result<ServerMsg, String>) -> (r: Entrance)
        ensures
            match result {
                Ok(msg) => {
                    &&& final(self)@ == old(self)@.entered(
                        text::uppercased(code@),
                        rejoined_seat(msg@),
                    )
                    &&& protocol::is_view_of(r.reply, msg@, final(self)@.viewer())
                    &&& seat_view(r.session) == Some(
                        (text::uppercased(code@), final(self)@.viewer()),
                    )
                },
                Err(_) => {
                    &&& final(self)@ == old(self)@
                    &&& protocol::is_plain(r.reply, answer_to(result))
                    &&& r.session is None
                },
            },
    {
        match result {
            Ok(msg) => {
                let seat: Option<usize> = match &msg {
                    ServerMsg::Rejoined { player_id, .. } => Some(*player_id),
                    _ => None,
                };
                self.enter(text::std_uppercase(code), seat, &msg)
            },
            Err(message) => Entrance {
                reply: protocol::plain(ServerMsg::Error { message }),
                session: None,
            },
        }
    }

    /// The answer to somebody who has set their ready mark or the settings.
    pub fn answered(result: Result<ServerMsg, String>) -> (r: ServerMsg)
        ensures
            r@ == answer_to(result),
    {
        match result {
            Ok(msg) => msg,
            Err(message) => ServerMsg::Error { message },
        }
    }

    /// The answer to the player who has started the game: the game as they see
    /// it, or the reason for refusing.
    pub fn on_started(player_id: usize, result: Result<ServerMsg, String>) -> (r: PersonalMsg)
        ensures
            protocol::is_view_of(r, answer_to(result), player_id),
    {
        match result {
            Ok(msg) => protocol::personalise_for_viewer(&msg, player_id),
            Err(message) => protocol::plain(ServerMsg::Error { message }),
        }
    }

    /// The answer to somebody who has looked a room up.
    pub fn checked(code: &str, found: bool, rejoinable: bool) -> (r: ServerMsg)
        ensures
            r@ == (MsgModel::RoomStatus { code: text::uppercased(code@), found, rejoinable }),
    {
        ServerMsg::RoomStatus { code: text::std_uppercase(code), found, rejoinable }
    }

    /// The client has closed the connection, or it has broken: the seat that
    /// they drop out of.
    pub fn on_closed(&mut self) -> (r: Option<(String, usize)>)
        ensures
            final(self)@ == old(self)@.given_up(),
            seat_view(r) == old(self)@.seat(),
    {
        self.cleaned_up = true;
        self.seat()
    }

    /// Nothing more comes from the client: what is left to do.
    pub fn on_end(&self) -> (r: Farewell)
        ensures
            seat_view(r.leave) == self@.owed(),
            text::opt_text(r.forget) == self@.registered(),
    {
        let leave = if self.cleaned_up {
            None
        } else {
            self.seat()
        };
        Farewell { leave, forget: self.registered() }
    }
}

/// A seat is given up once: after the client has closed the connection or has
/// left the room, nothing is left to be given up at the end.
pub proof fn law_seat_given_up_once(conn: ConnectionModel)
    ensures
        conn.given_up().owed() is None,
        conn.after(ClientMsg::LeaveRoom).owed() is None,
        conn.given_up().registered() == conn.registered(),
{
}

/// Nothing that a client writes takes them out of a seat but leaving the room.
pub proof fn law_messages_keep_seat(conn: ConnectionModel, msg: ClientMsg)
    requires
        msg !is LeaveRoom,
    ensures
        conn.after(msg) == conn,
{
}

/// Whoever has entered no room moves nobody: every request that needs a seat is
/// ignored, and leaving just closes the connection.
pub proof fn law_no_seat_no_move(conn: ConnectionModel, msg: ClientMsg, action: Action)
    requires
        conn.seat() is None,
        asks_for(conn, msg, action),
    ensures
        action !is Move,
        action !is Ready,
        action !is Settings,
        action !is Start,
        action !is Remove,
{
}

/// What is asked in a room is asked in the client's own name: every action that
/// names a seat names the room and seat of the connection.
pub proof fn law_acts_in_own_name(conn: ConnectionModel, msg: ClientMsg, action: Action)
    requires
        asks_for(conn, msg, action),
    ensures
        action matches Action::Move { code, player_id, .. } ==> conn.seat() == Some(
            (code@, player_id),
        ),
        action matches Action::Ready { code, player_id, .. } ==> conn.seat() == Some(
            (code@, player_id),
        ),
        action matches Action::Settings { code, player_id, .. } ==> conn.seat() == Some(
            (code@, player_id),
        ),
        action matches Action::Start { code, player_id } ==> conn.seat() == Some(
            (code@, player_id),
        ),
        action matches Action::Remove { code, player_id } ==> conn.seat() == Some(
            (code@, player_id),
        ),
{
}

/// Whoever has a seat is heard: what they ask for is asked of their room, for
/// their seat, as they have asked it.
pub proof fn law_seated_clients_are_heard(
    conn: ConnectionModel,
    room: Seq<char>,
    seat: usize,
    msg: ClientMsg,
    action: Action,
)
    requires
        conn.room_code == Some(room),
        conn.player_id == Some(seat),
        asks_for(conn, msg, action),
    ensures
        msg matches ClientMsg::Play { cards } ==> (action matches Action::Move {
            code,
            player_id,
            cards: played,
        } && code@ == room && player_id == seat && played == Some(cards)),
        msg is Pass ==> (action matches Action::Move { code, player_id, cards: played } && code@
            == room && player_id == seat && played is None),
        msg matches ClientMsg::Ready { ready } ==> (action matches Action::Ready {
            code,
            player_id,
            ready: mark,
        } && code@ == room && player_id == seat && mark == ready),
        msg matches ClientMsg::SetRoomSettings { play_limit_secs, winning_point } ==> (
        action matches Action::Settings {
            code,
            player_id,
            play_limit_secs: limit,
            winning_point: points,
        } && code@ == room && player_id == seat && limit == play_limit_secs && points
            == winning_point),
        msg is StartGame ==> (action matches Action::Start { code, player_id } && code@ == room
            && player_id == seat),
        msg is LeaveRoom ==> (action matches Action::Remove { code, player_id } && code@ == room
            && player_id == seat),
{
}

/// Anybody may open, join or look up a room, come back to it, and ping.
pub proof fn law_everybody_may_enter(conn: ConnectionModel, msg: ClientMsg, action: Action)
    requires
        asks_for(conn, msg, action),
    ensures
        msg matches ClientMsg::Create { name, is_public } ==> action == (Action::Create {
            name,
            is_public,
        }),
        msg matches ClientMsg::Join { code, name } ==> action == (Action::Join { code, name }),
        msg matches ClientMsg::Rejoin { code, name, token } ==> action == (Action::Rejoin {
            code,
            name,
            token,
        }),
        msg matches ClientMsg::CheckRoom { code, token } ==> action == (Action::Check {
            code,
            token,
        }),
        msg is Ping ==> (action matches Action::Reply { msg: answer } && answer@
            == MsgModel::Pong),
{
}

/// A connection that has entered a room belongs to it and to its seat until it
/// enters another; whoever enters owes the seat at the end and is registered.
pub proof fn law_entering(conn: ConnectionModel, code: Seq<char>, seat: usize, moved: usize)
    ensures
        ({
            let inside = conn.entered(code, Some(seat));
            &&& inside.room_code == Some(code)
            &&& inside.player_id == Some(seat)
            &&& inside.seat() == Some((code, seat))
            &&& inside.viewer() == seat
            &&& inside.registered() == Some(code)
            &&& !conn.cleaned_up ==> inside.owed() == Some((code, seat))
            &&& inside.moved_to(Some(moved)).seat() == Some((code, moved))
            &&& inside.moved_to(None) == inside
            &&& conn.player_id is None ==> conn.moved_to(Some(moved)) == conn
        }),
        ConnectionModel::fresh().seat() is None,
        ConnectionModel::fresh().registered() is None,
        ConnectionModel::fresh().owed() is None,
{
}

/// Whoever has asked for something is answered with the reply, or with the reason
/// for refusing; the seat that a reply gives is the seat.
pub proof fn law_answers(result: Result<ServerMsg, String>, msg: MsgModel)
    ensures
        result matches Ok(reply) ==> answer_to(result) == reply@,
        result matches Err(reason) ==> answer_to(result) == (MsgModel::Error {
            message: reason@,
        }),
        msg matches MsgModel::Joined { player_id, .. } ==> joined_seat(msg) == Some(player_id),
        msg matches MsgModel::Rejoined { player_id, .. } ==> rejoined_seat(msg) == Some(player_id),
        !(msg is Joined) ==> joined_seat(msg) is None,
        !(msg is Rejoined) ==> rejoined_seat(msg) is None,
{
}

} // verus!
