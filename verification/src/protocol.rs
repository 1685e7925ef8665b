//! The messages between clients and server, and what of them a viewer may see.
use crate::game::card::Card;
use crate::game::state;
use crate::game::state::GameModel;
use crate::game::state::GameState;
use crate::game::state::PlayerModel;
use crate::game::state::ThreeDiscardModel;
use vstd::prelude::*;

verus! {

/// What a client can ask for.
#[derive(Debug)]
pub enum ClientMsg {
    Create { name: String, is_public: bool },
    Join { code: String, name: String },
    Rejoin { code: String, name: String, token: String },
    Play { cards: Vec<String> },
    Pass,
    Ready { ready: bool },
    SetRoomSettings { play_limit_secs: Option<u32>, winning_point: Option<u32> },
    StartGame,
    LeaveRoom,
    CheckRoom { code: String, token: String },
    Ping,
}

/// What the server tells a client.
#[derive(Debug, PartialEq)]
pub enum ServerMsg {
    Created { code: String, player_id: usize, state: GameState, is_public: bool, token: String },
    Joined { player_id: usize, state: GameState, code: String, token: String },
    Rejoined { player_id: usize, state: GameState, code: String, token: String },
    State { state: GameState },
    PlayerJoined { player_id: usize, name: String },
    PlayerLeft { player_id: usize, name: String },
    PlayerReady { player_id: usize, name: String, ready: bool },
    RoomSettings { play_limit_secs: u32, winning_point: u32 },
    SeatChanged { renumbered: Vec<(usize, usize)> },
    RoomStatus { code: String, found: bool, rejoinable: bool },
    GameStarted,
    Error { message: String },
    Pong,
}

#[verifier::ext_equal]
pub enum MsgModel {
    Created {
        code: Seq<char>,
        player_id: usize,
        state: GameModel,
        is_public: bool,
        token: Seq<char>,
    },
    Joined { player_id: usize, state: GameModel, code: Seq<char>, token: Seq<char> },
    Rejoined { player_id: usize, state: GameModel, code: Seq<char>, token: Seq<char> },
    State { state: GameModel },
    PlayerJoined { player_id: usize, name: Seq<char> },
    PlayerLeft { player_id: usize, name: Seq<char> },
    PlayerReady { player_id: usize, name: Seq<char>, ready: bool },
    RoomSettings { play_limit_secs: u32, winning_point: u32 },
    SeatChanged { renumbered: Seq<(usize, usize)> },
    RoomStatus { code: Seq<char>, found: bool, rejoinable: bool },
    GameStarted,
    Error { message: Seq<char> },
    Pong,
}

impl View for ServerMsg {
    type V = MsgModel;

    open spec fn view(&self) -> MsgModel {
        match *self {
            ServerMsg::Created {
                code,
                player_id,
                state,
                is_public,
                token,
            } => MsgModel::Created {
                code: code@,
                player_id,
                state: state@,
                is_public,
                token: token@,
            },
            ServerMsg::Joined { player_id, state, code, token } => MsgModel::Joined {
                player_id,
                state: state@,
                code: code@,
                token: token@,
            },
            ServerMsg::Rejoined { player_id, state, code, token } => MsgModel::Rejoined {
                player_id,
                state: state@,
                code: code@,
                token: token@,
            },
            ServerMsg::State { state } => MsgModel::State { state: state@ },
            ServerMsg::PlayerJoined { player_id, name } => MsgModel::PlayerJoined {
                player_id,
                name: name@,
            },
            ServerMsg::PlayerLeft { player_id, name } => MsgModel::PlayerLeft {
                player_id,
                name: name@,
            },
            ServerMsg::PlayerReady { player_id, name, ready } => MsgModel::PlayerReady {
                player_id,
                name: name@,
                ready,
            },
            ServerMsg::RoomSettings { play_limit_secs, winning_point } => MsgModel::RoomSettings {
                play_limit_secs,
                winning_point,
            },
            ServerMsg::SeatChanged { renumbered } => MsgModel::SeatChanged {
                renumbered: renumbered@,
            },
            ServerMsg::RoomStatus { code, found, rejoinable } => MsgModel::RoomStatus {
                code: code@,
                found,
                rejoinable,
            },
            ServerMsg::GameStarted => MsgModel::GameStarted,
            ServerMsg::Error { message } => MsgModel::Error { message: message@ },
            ServerMsg::Pong => MsgModel::Pong,
        }
    }
}

impl Clone for ServerMsg {
    fn clone(&self) -> (r: Self)
        ensures
            r@ == self@,
    {
        match self {
            ServerMsg::Created {
                code,
                player_id,
                state,
                is_public,
                token,
            } => ServerMsg::Created {
                code: code.clone(),
                player_id: *player_id,
                state: state.clone(),
                is_public: *is_public,
                token: token.clone(),
            },
            ServerMsg::Joined { player_id, state, code, token } => ServerMsg::Joined {
                player_id: *player_id,
                state: state.clone(),
                code: code.clone(),
                token: token.clone(),
            },
            ServerMsg::Rejoined { player_id, state, code, token } => ServerMsg::Rejoined {
                player_id: *player_id,
                state: state.clone(),
                code: code.clone(),
                token: token.clone(),
            },
            ServerMsg::State { state } => ServerMsg::State { state: state.clone() },
            ServerMsg::PlayerJoined { player_id, name } => ServerMsg::PlayerJoined {
                player_id: *player_id,
                name: name.clone(),
            },
            ServerMsg::PlayerLeft { player_id, name } => ServerMsg::PlayerLeft {
                player_id: *player_id,
                name: name.clone(),
            },
            ServerMsg::PlayerReady { player_id, name, ready } => ServerMsg::PlayerReady {
                player_id: *player_id,
                name: name.clone(),
                ready: *ready,
            },
            ServerMsg::RoomSettings { play_limit_secs, winning_point } => ServerMsg::RoomSettings {
                play_limit_secs: *play_limit_secs,
                winning_point: *winning_point,
            },
            ServerMsg::SeatChanged { renumbered } => ServerMsg::SeatChanged {
                renumbered: copy_pairs(renumbered),
            },
            ServerMsg::RoomStatus { code, found, rejoinable } => ServerMsg::RoomStatus {
                code: code.clone(),
                found: *found,
                rejoinable: *rejoinable,
            },
            ServerMsg::GameStarted => ServerMsg::GameStarted,
            ServerMsg::Error { message } => ServerMsg::Error { message: message.clone() },
            ServerMsg::Pong => ServerMsg::Pong,
        }
    }
}

/// What a list of messages holds.
pub open spec fn msg_models(msgs: Seq<ServerMsg>) -> Seq<MsgModel> {
    msgs.map_values(|m: ServerMsg| m@)
}

/// What an optional message holds.
pub open spec fn opt_msg(m: Option<ServerMsg>) -> Option<MsgModel> {
    match m {
        Some(m) => Some(m@),
        None => None,
    }
}

/// A copy of a list of pairs of seats.
pub fn copy_pairs(v: &Vec<(usize, usize)>) -> (r: Vec<(usize, usize)>)
    ensures
        r@ == v@,
{
    let mut out: Vec<(usize, usize)> = Vec::new();
    let mut i: usize = 0;
    while i < v.len()
        invariant
            i <= v.len(),
            out@ == v@.take(i as int),
        decreases v.len() - i,
    {
        out.push(v[i]);
        assert(out@ =~= v@.take(i + 1));
        i += 1;
    }
    assert(v@.take(v.len() as int) =~= v@);
    out
}

// ---------------------------------------------------------------------------
// Card privacy
// ---------------------------------------------------------------------------

impl PlayerModel {
    /// As `viewer` sees the player: without cards, unless it is their own seat.
    pub open spec fn seen_by(self, viewer: usize) -> PlayerModel {
        if self.id == viewer {
            self
        } else {
            PlayerModel { hand: Seq::empty(), ..self }
        }
    }
}

impl ThreeDiscardModel {
    /// As `viewer` sees the discard: without the others' threes.
    pub open spec fn seen_by(self, viewer: usize) -> ThreeDiscardModel {
        ThreeDiscardModel {
            player_cards: Seq::new(
                self.player_cards.len(),
                |i: int|
                    if i == viewer {
                        self.player_cards[i]
                    } else {
                        Seq::empty()
                    },
            ),
            ..self
        }
    }
}

impl GameModel {
    /// As `viewer` sees the game: without the others' hands and threes.
    pub open spec fn seen_by(self, viewer: usize) -> GameModel {
        GameModel {
            players: self.players.map_values(|p: PlayerModel| p.seen_by(viewer)),
            three_discard: match self.three_discard {
                Some(td) => Some(td.seen_by(viewer)),
                None => None,
            },
            ..self
        }
    }

    /// How many cards each player holds, for everybody to see.
    pub open spec fn hand_counts(self) -> Seq<usize> {
        self.players.map_values(|p: PlayerModel| p.hand.len() as usize)
    }

    /// How many threes each seat gives up, for everybody to see.
    pub open spec fn three_counts(self) -> Option<Seq<usize>> {
        match self.three_discard {
            Some(td) => Some(td.player_cards.map_values(|c: Seq<Card>| c.len() as usize)),
            None => None,
        }
    }
}

impl MsgModel {
    /// The game that the message carries, if it carries one.
    pub open spec fn game(self) -> Option<GameModel> {
        match self {
            MsgModel::Created { state, .. } => Some(state),
            MsgModel::Joined { state, .. } => Some(state),
            MsgModel::Rejoined { state, .. } => Some(state),
            MsgModel::State { state } => Some(state),
            _ => None,
        }
    }

    /// The message as `viewer` gets it.
    pub open spec fn seen_by(self, viewer: usize) -> MsgModel {
        match self {
            MsgModel::Created { code, player_id, state, is_public, token } => MsgModel::Created {
                code,
                player_id,
                state: state.seen_by(viewer),
                is_public,
                token,
            },
            MsgModel::Joined { player_id, state, code, token } => MsgModel::Joined {
                player_id,
                state: state.seen_by(viewer),
                code,
                token,
            },
            MsgModel::Rejoined { player_id, state, code, token } => MsgModel::Rejoined {
                player_id,
                state: state.seen_by(viewer),
                code,
                token,
            },
            MsgModel::State { state } => MsgModel::State { state: state.seen_by(viewer) },
            _ => self,
        }
    }
}

/// Whose seat it is not sees no card of a hand, and no three of a discard; the
/// owner sees all of theirs.
pub proof fn law_viewer_sees_own_cards_only(game: GameModel, viewer: usize, i: int)
    requires
        0 <= i < game.players.len(),
    ensures
        game.seen_by(viewer).players.len() == game.players.len(),
        game.players[i].id != viewer ==> game.seen_by(viewer).players[i].hand.len() == 0,
        game.players[i].id == viewer ==> game.seen_by(viewer).players[i] == game.players[i],
        game.three_discard matches Some(td) ==> (0 <= i < td.player_cards.len() ==> {
            let shown = game.seen_by(viewer).three_discard.unwrap().player_cards[i];
            if i == viewer {
                shown == td.player_cards[i]
            } else {
                shown.len() == 0
            }
        }),
{
}

/// Two discards that differ in nothing but the threes of seats other than
/// `viewer`.
pub open spec fn same_but_for_threes(
    a: Option<ThreeDiscardModel>,
    b: Option<ThreeDiscardModel>,
    viewer: usize,
) -> bool {
    match (a, b) {
        (None, None) => true,
        (Some(x), Some(y)) => {
            &&& y == (ThreeDiscardModel { player_cards: y.player_cards, ..x })
            &&& x.player_cards.len() == y.player_cards.len()
            &&& viewer < x.player_cards.len() ==> x.player_cards[viewer as int]
                == y.player_cards[viewer as int]
        },
        _ => false,
    }
}

/// What a viewer sees does not depend on the others' cards: two games that
/// differ in nothing but those look the same.
pub proof fn law_view_hides_other_cards(a: GameModel, b: GameModel, viewer: usize)
    requires
        b == (GameModel { players: b.players, three_discard: b.three_discard, ..a }),
        same_but_for_threes(a.three_discard, b.three_discard, viewer),
        a.players.len() == b.players.len(),
        forall|i: int|
            0 <= i < a.players.len() ==> (#[trigger] a.players[i]).id == viewer ==> a.players[i]
                == b.players[i],
        forall|i: int|
            0 <= i < a.players.len() ==> #[trigger] b.players[i] == (PlayerModel {
                hand: b.players[i].hand,
                ..a.players[i]
            }),
    ensures
        a.seen_by(viewer) == b.seen_by(viewer),
{
    assert forall|i: int| 0 <= i < a.players.len() implies a.seen_by(viewer).players[i]
        == b.seen_by(viewer).players[i] by {
        assert(b.players[i] == (PlayerModel { hand: b.players[i].hand, ..a.players[i] }));
    }
    assert(a.seen_by(viewer).players =~= b.seen_by(viewer).players);
    if let Some(x) = a.three_discard {
        let y = b.three_discard.unwrap();
        assert(x.seen_by(viewer).player_cards =~= y.seen_by(viewer).player_cards);
    }
}

/// Looking twice shows nothing else.
pub proof fn law_masking_idempotent(game: GameModel, viewer: usize)
    ensures
        game.seen_by(viewer).seen_by(viewer) == game.seen_by(viewer),
{
    assert(game.seen_by(viewer).seen_by(viewer).players =~= game.seen_by(viewer).players);
    if let Some(td) = game.three_discard {
        assert(td.seen_by(viewer).seen_by(viewer).player_cards
            =~= td.seen_by(viewer).player_cards);
    }
}

/// The game as `viewer` may see it: their own hand and threes, and nobody
/// else's.
pub fn personalise_state(state: &GameState, viewer: usize) -> (r: GameState)
    ensures
        r@ == state@.seen_by(viewer),
{
    let mut copy = state.clone();
    let ghost before = copy@;
    let mut i: usize = 0;
    while i < copy.players.len()
        invariant
            i <= copy.players.len(),
            before == state@,
            copy.players.len() == before.players.len(),
            copy@ == (GameModel { players: copy@.players, ..before }),
            forall|k: int|
                0 <= k < i ==> #[trigger] copy@.players[k] == before.players[k].seen_by(viewer),
            forall|k: int|
                i <= k < copy.players.len() ==> #[trigger] copy@.players[k] == before.players[k],
        decreases before.players.len() - i,
    {
        let ghost prev = copy@;
        assert(prev.players[i as int] == copy.players@[i as int]@);
        if copy.players[i].id != viewer {
            copy.players[i].hand = Vec::new();
            assert(copy@.players =~= prev.players.update(
                i as int,
                prev.players[i as int].seen_by(viewer),
            ));
        } else {
            assert(copy@.players =~= prev.players);
        }
        assert(copy@ =~= (GameModel { players: copy@.players, ..before }));
        i += 1;
    }
    assert(copy@.players =~= before.players.map_values(|p: PlayerModel| p.seen_by(viewer)));
    match &mut copy.three_discard {
        Some(td) => {
            mask_lists(&mut td.player_cards, viewer);
        },
        None => {},
    }
    assert(copy@ =~= state@.seen_by(viewer));
    copy
}

/// Empties every list but the viewer's.
fn mask_lists(lists: &mut Vec<Vec<Card>>, viewer: usize)
    ensures
        state::card_lists(final(lists)@) == Seq::new(
            old(lists)@.len(),
            |i: int|
                if i == viewer {
                    old(lists)@[i]@
                } else {
                    Seq::empty()
                },
        ),
{
    let mut i: usize = 0;
    while i < lists.len()
        invariant
            i <= lists.len(),
            lists.len() == old(lists).len(),
            forall|k: int|
                0 <= k < i ==> (#[trigger] lists@[k])@ == if k == viewer {
                    old(lists)@[k]@
                } else {
                    Seq::empty()
                },
            forall|k: int| i <= k < lists.len() ==> #[trigger] lists@[k] == old(lists)@[k],
        decreases lists.len() - i,
    {
        if i != viewer {
            let empty: Vec<Card> = Vec::new();
            lists.set(i, empty);
        }
        i += 1;
    }
    assert(state::card_lists(lists@) =~= Seq::new(
        old(lists)@.len(),
        |i: int|
            if i == viewer {
                old(lists)@[i]@
            } else {
                Seq::empty()
            },
    ));
}

/// A message as one viewer gets it, with the counts that everybody may see of
/// the game it carries. Without a game there are no counts.
#[derive(Debug)]
pub struct PersonalMsg {
    pub msg: ServerMsg,
    pub hand_counts: Vec<usize>,
    pub three_counts: Option<Vec<usize>>,
}

/// Is this the message as `viewer` gets it? A game is cut to what they may see,
/// with the public counts beside it.
pub open spec fn is_view_of(payload: PersonalMsg, msg: MsgModel, viewer: usize) -> bool {
    &&& payload.msg@ == msg.seen_by(viewer)
    &&& match msg.game() {
        Some(game) => {
            &&& payload.hand_counts@ == game.hand_counts()
            &&& payload.three_counts is Some <==> game.three_counts() is Some
            &&& payload.three_counts matches Some(counts) ==> game.three_counts() == Some(counts@)
        },
        None => payload.hand_counts@.len() == 0 && payload.three_counts is None,
    }
}

/// Is this the message as it stands, for everybody?
pub open spec fn is_plain(payload: PersonalMsg, msg: MsgModel) -> bool {
    &&& payload.msg@ == msg
    &&& payload.hand_counts@.len() == 0
    &&& payload.three_counts is None
}

/// A message as it stands.
pub fn plain(msg: ServerMsg) -> (r: PersonalMsg)
    ensures
        is_plain(r, msg@),
{
    PersonalMsg { msg, hand_counts: Vec::new(), three_counts: None }
}

/// How many cards each player holds.
pub fn count_hands(game: &GameState) -> (r: Vec<usize>)
    ensures
        r@ == game@.hand_counts(),
{
    let mut out: Vec<usize> = Vec::new();
    let mut i: usize = 0;
    while i < game.players.len()
        invariant
            i <= game.players.len(),
            out.len() == i,
            forall|k: int| 0 <= k < i ==> #[trigger] out@[k] == game.players@[k].hand@.len(),
        decreases game.players.len() - i,
    {
        out.push(game.players[i].hand.len());
        i += 1;
    }
    assert(out@ =~= game@.hand_counts());
    out
}

/// How many threes each seat gives up, while threes are being discarded.
pub fn count_threes(game: &GameState) -> (r: Option<Vec<usize>>)
    ensures
        r is Some <==> game@.three_counts() is Some,
        r matches Some(counts) ==> game@.three_counts() == Some(counts@),
{
    match &game.three_discard {
        None => None,
        Some(td) => {
            let mut out: Vec<usize> = Vec::new();
            let mut i: usize = 0;
            while i < td.player_cards.len()
                invariant
                    i <= td.player_cards.len(),
                    out.len() == i,
                    forall|k: int|
                        0 <= k < i ==> #[trigger] out@[k] == td.player_cards@[k]@.len(),
                decreases td.player_cards.len() - i,
            {
                out.push(td.player_cards[i].len());
                i += 1;
            }
            assert(out@ =~= td@.player_cards.map_values(|c: Seq<Card>| c.len() as usize));
            Some(out)
        },
    }
}

fn with_counts(msg: ServerMsg, game: &GameState) -> (r: PersonalMsg)
    ensures
        r.msg == msg,
        r.hand_counts@ == game@.hand_counts(),
        r.three_counts is Some <==> game@.three_counts() is Some,
        r.three_counts matches Some(counts) ==> game@.three_counts() == Some(counts@),
{
    PersonalMsg { msg, hand_counts: count_hands(game), three_counts: count_threes(game) }
}

/// The message for one viewer. A message that carries a game shows the viewer's
/// own cards only, with everybody's card counts beside it; any other goes out
/// as it is.
pub fn personalise_for_viewer(msg: &ServerMsg, viewer: usize) -> (r: PersonalMsg)
    ensures
        is_view_of(r, msg@, viewer),
{
    match msg {
        ServerMsg::Created { code, player_id, state, is_public, token } => {
            let shown = ServerMsg::Created {
                code: code.clone(),
                player_id: *player_id,
                state: personalise_state(state, viewer),
                is_public: *is_public,
                token: token.clone(),
            };
            with_counts(shown, state)
        },
        ServerMsg::Joined { player_id, state, code, token } => {
            let shown = ServerMsg::Joined {
                player_id: *player_id,
                state: personalise_state(state, viewer),
                code: code.clone(),
                token: token.clone(),
            };
            with_counts(shown, state)
        },
        ServerMsg::Rejoined { player_id, state, code, token } => {
            let shown = ServerMsg::Rejoined {
                player_id: *player_id,
                state: personalise_state(state, viewer),
                code: code.clone(),
                token: token.clone(),
            };
            with_counts(shown, state)
        },
        ServerMsg::State { state } => {
            let shown = ServerMsg::State { state: personalise_state(state, viewer) };
            with_counts(shown, state)
        },
        _ => plain(msg.clone()),
    }
}

/// A message with a game in it shows the viewer that game without the others'
/// cards, with how many everybody holds and gives up; all else about the message
/// stays. A message without a game is the same for all.
pub proof fn law_messages_for_a_viewer(payload: PersonalMsg, msg: MsgModel, viewer: usize)
    requires
        is_view_of(payload, msg, viewer),
    ensures
        msg matches MsgModel::State { state } ==> payload.msg@ == (MsgModel::State {
            state: state.seen_by(viewer),
        }),
        msg matches MsgModel::Created { code, player_id, state, is_public, token } ==> payload.msg@
            == (MsgModel::Created {
            code,
            player_id,
            state: state.seen_by(viewer),
            is_public,
            token,
        }),
        msg matches MsgModel::Joined { player_id, state, code, token } ==> payload.msg@
            == (MsgModel::Joined { player_id, state: state.seen_by(viewer), code, token }),
        msg matches MsgModel::Rejoined { player_id, state, code, token } ==> payload.msg@
            == (MsgModel::Rejoined { player_id, state: state.seen_by(viewer), code, token }),
        !(msg is State) && !(msg is Created) && !(msg is Joined) && !(msg is Rejoined)
            ==> payload.msg@ == msg && payload.hand_counts@.len() == 0 && payload.three_counts
            is None,
        msg matches MsgModel::State { state } ==> counted_for_all(payload, state),
        msg matches MsgModel::Created { state, .. } ==> counted_for_all(payload, state),
        msg matches MsgModel::Joined { state, .. } ==> counted_for_all(payload, state),
        msg matches MsgModel::Rejoined { state, .. } ==> counted_for_all(payload, state),
{
}

/// Does the message come with the counts of the game's cards: of every hand, and
/// of every seat's threes while they are discarded?
pub open spec fn counted_for_all(payload: PersonalMsg, game: GameModel) -> bool {
    &&& payload.hand_counts@.len() == game.players.len()
    &&& forall|i: int|
        0 <= i < game.players.len() && game.players[i].hand.len() <= usize::MAX
            ==> #[trigger] payload.hand_counts@[i] == game.players[i].hand.len()
    &&& payload.three_counts is Some <==> game.three_discard is Some
    &&& game.three_discard matches Some(td) ==> {
        &&& payload.three_counts.unwrap()@.len() == td.player_cards.len()
        &&& forall|i: int|
            0 <= i < td.player_cards.len() && td.player_cards[i].len() <= usize::MAX
                ==> #[trigger] payload.three_counts.unwrap()@[i] == td.player_cards[i].len()
    }
}

/// What is counted for everybody: each player's cards, and each seat's threes
/// while they are discarded.
pub proof fn law_counts_are_public(game: GameModel, i: int)
    ensures
        game.hand_counts().len() == game.players.len(),
        0 <= i < game.players.len() && game.players[i].hand.len() <= usize::MAX
            ==> game.hand_counts()[i] == game.players[i].hand.len(),
        game.three_counts() is Some <==> game.three_discard is Some,
        game.three_discard matches Some(td) ==> {
            &&& game.three_counts().unwrap().len() == td.player_cards.len()
            &&& 0 <= i < td.player_cards.len() && td.player_cards[i].len() <= usize::MAX
                ==> game.three_counts().unwrap()[i] == td.player_cards[i].len()
        },
{
}

/// Beside the cards nothing of a game is kept from anybody.
pub proof fn law_all_but_cards_is_public(game: GameModel, viewer: usize, i: int)
    requires
        0 <= i < game.players.len(),
    ensures
        ({
            let shown = game.seen_by(viewer);
            &&& shown.phase == game.phase
            &&& shown.current_player == game.current_player
            &&& shown.trick == game.trick
            &&& shown.scores == game.scores
            &&& shown.total_scores == game.total_scores
            &&& shown.finished_order == game.finished_order
            &&& shown.round == game.round
            &&& shown.log == game.log
            &&& shown.turn_seq == game.turn_seq
            &&& shown.game_winner == game.game_winner
            &&& shown.play_limit_secs == game.play_limit_secs
            &&& shown.winning_point == game.winning_point
            &&& shown.players[i].name == game.players[i].name
            &&& shown.players[i].id == game.players[i].id
            &&& shown.players[i].finished == game.players[i].finished
            &&& shown.players[i].is_bot == game.players[i].is_bot
            &&& shown.players[i].connected == game.players[i].connected
            &&& shown.players[i].is_creator == game.players[i].is_creator
            &&& shown.three_discard is Some <==> game.three_discard is Some
            &&& game.three_discard matches Some(td) ==> shown.three_discard.unwrap().order
                == td.order && shown.three_discard.unwrap().discarded == td.discarded
        }),
{
}

} // verus!
