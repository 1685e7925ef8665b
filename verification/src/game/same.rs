//! Comparing rooms: is anything different from what was there before?
use crate::game::card::Card;
use crate::game::room;
use crate::game::room::Room;
use crate::game::room::RoomPlayer;
use crate::game::state;
use crate::game::state::GameState;
use crate::game::state::Player;
use crate::game::state::ThreeDiscardState;
use crate::game::state::TrickState;
use crate::text;
use vstd::prelude::*;

verus! {

/// Are the two lists of cards the same?
fn same_cards(a: &Vec<Card>, b: &Vec<Card>) -> (r: bool)
    ensures
        r == (a@ == b@),
{
    if a.len() != b.len() {
        return false;
    }
    let mut i: usize = 0;
    while i < a.len()
        invariant
            i <= a.len(),
            a.len() == b.len(),
            forall|k: int| 0 <= k < i ==> #[trigger] a@[k] == b@[k],
        decreases a.len() - i,
    {
        if a[i] != b[i] {
            assert(a@[i as int] != b@[i as int]);
            return false;
        }
        i += 1;
    }
    assert(a@ =~= b@);
    true
}

/// Are the two lists of seats the same?
fn same_seats(a: &Vec<usize>, b: &Vec<usize>) -> (r: bool)
    ensures
        r == (a@ == b@),
{
    if a.len() != b.len() {
        return false;
    }
    let mut i: usize = 0;
    while i < a.len()
        invariant
            i <= a.len(),
            a.len() == b.len(),
            forall|k: int| 0 <= k < i ==> #[trigger] a@[k] == b@[k],
        decreases a.len() - i,
    {
        if a[i] != b[i] {
            assert(a@[i as int] != b@[i as int]);
            return false;
        }
        i += 1;
    }
    assert(a@ =~= b@);
    true
}

/// Are the two lists of flags the same?
fn same_flags(a: &Vec<bool>, b: &Vec<bool>) -> (r: bool)
    ensures
        r == (a@ == b@),
{
    if a.len() != b.len() {
        return false;
    }
    let mut i: usize = 0;
    while i < a.len()
        invariant
            i <= a.len(),
            a.len() == b.len(),
            forall|k: int| 0 <= k < i ==> #[trigger] a@[k] == b@[k],
        decreases a.len() - i,
    {
        if a[i] != b[i] {
            assert(a@[i as int] != b@[i as int]);
            return false;
        }
        i += 1;
    }
    assert(a@ =~= b@);
    true
}

/// Are the two lists of scores the same?
fn same_scores(a: &Vec<i32>, b: &Vec<i32>) -> (r: bool)
    ensures
        r == (a@ == b@),
{
    if a.len() != b.len() {
        return false;
    }
    let mut i: usize = 0;
    while i < a.len()
        invariant
            i <= a.len(),
            a.len() == b.len(),
            forall|k: int| 0 <= k < i ==> #[trigger] a@[k] == b@[k],
        decreases a.len() - i,
    {
        if a[i] != b[i] {
            assert(a@[i as int] != b@[i as int]);
            return false;
        }
        i += 1;
    }
    assert(a@ =~= b@);
    true
}

/// Are the two lists of lists of cards the same?
fn same_card_lists(a: &Vec<Vec<Card>>, b: &Vec<Vec<Card>>) -> (r: bool)
    ensures
        r == (state::card_lists(a@) == state::card_lists(b@)),
{
    if a.len() != b.len() {
        assert(state::card_lists(a@).len() != state::card_lists(b@).len());
        return false;
    }
    let mut i: usize = 0;
    while i < a.len()
        invariant
            i <= a.len(),
            a.len() == b.len(),
            forall|k: int|
                0 <= k < i ==> #[trigger] state::card_lists(a@)[k] == state::card_lists(b@)[k],
        decreases a.len() - i,
    {
        if !same_cards(&a[i], &b[i]) {
            assert(state::card_lists(a@)[i as int] != state::card_lists(b@)[i as int]);
            return false;
        }
        i += 1;
    }
    assert(state::card_lists(a@) =~= state::card_lists(b@));
    true
}

/// Are the two players the same?
fn same_player(a: &Player, b: &Player) -> (r: bool)
    ensures
        r == (a@ == b@),
{
    a.id == b.id && a.name == b.name && same_cards(&a.hand, &b.hand) && a.finished == b.finished
        && a.is_bot == b.is_bot && a.connected == b.connected && a.is_creator == b.is_creator
}

/// Are the two lists of players the same?
fn same_players(a: &Vec<Player>, b: &Vec<Player>) -> (r: bool)
    ensures
        r == (state::player_models(a@) == state::player_models(b@)),
{
    if a.len() != b.len() {
        assert(state::player_models(a@).len() != state::player_models(b@).len());
        return false;
    }
    let mut i: usize = 0;
    while i < a.len()
        invariant
            i <= a.len(),
            a.len() == b.len(),
            forall|k: int|
                0 <= k < i ==> #[trigger] state::player_models(a@)[k] == state::player_models(b@)[k],
        decreases a.len() - i,
    {
        if !same_player(&a[i], &b[i]) {
            assert(state::player_models(a@)[i as int] != state::player_models(b@)[i as int]);
            return false;
        }
        i += 1;
    }
    assert(state::player_models(a@) =~= state::player_models(b@));
    true
}

/// Are the two tricks the same?
fn same_trick(a: &TrickState, b: &TrickState) -> (r: bool)
    ensures
        r == (a@ == b@),
{
    same_cards(&a.cards, &b.cards) && a.combo_type == b.combo_type && a.combo_player
        == b.combo_player && same_seats(&a.passed, &b.passed) && same_seats(&a.played, &b.played)
}

/// Are the two discards the same?
fn same_discard(a: &Option<ThreeDiscardState>, b: &Option<ThreeDiscardState>) -> (r: bool)
    ensures
        r == (state::discard_model(*a) == state::discard_model(*b)),
{
    match (a, b) {
        (Some(x), Some(y)) => same_seats(&x.order, &y.order) && x.index == y.index
            && same_card_lists(&x.player_cards, &y.player_cards) && same_flags(
            &x.discarded,
            &y.discarded,
        ),
        (None, None) => true,
        _ => false,
    }
}

/// Are the two games the same?
fn same_game(a: &GameState, b: &GameState) -> (r: bool)
    ensures
        r == (a@ == b@),
{
    a.phase == b.phase && same_players(&a.players, &b.players) && same_flags(&a.ready, &b.ready)
        && a.current_player == b.current_player && same_trick(&a.trick, &b.trick) && same_seats(
        &a.finished_order,
        &b.finished_order,
    ) && same_scores(&a.scores, &b.scores) && a.round == b.round && same_scores(
        &a.total_scores,
        &b.total_scores,
    ) && same_discard(&a.three_discard, &b.three_discard) && text::same_texts(&a.log, &b.log)
        && a.play_limit_secs == b.play_limit_secs && a.winning_point == b.winning_point
        && a.game_winner == b.game_winner && a.turn_seq == b.turn_seq
}

/// Are the two tokens the same?
fn same_token(a: &Option<String>, b: &Option<String>) -> (r: bool)
    ensures
        r == (text::opt_text(*a) == text::opt_text(*b)),
{
    match (a, b) {
        (Some(x), Some(y)) => text::same_text(x.as_str(), y.as_str()),
        (None, None) => true,
        _ => false,
    }
}

/// Do the two seats hold the same?
fn same_sitter(a: &RoomPlayer, b: &RoomPlayer) -> (r: bool)
    ensures
        r == (a@ == b@),
{
    a.id == b.id && a.name == b.name && a.is_bot == b.is_bot && a.connected == b.connected
        && a.disconnect_time == b.disconnect_time && a.is_creator == b.is_creator && same_token(
        &a.token,
        &b.token,
    )
}

/// Do the two lists of seats hold the same?
fn same_sitters(a: &Vec<RoomPlayer>, b: &Vec<RoomPlayer>) -> (r: bool)
    ensures
        r == (room::seat_models(a@) == room::seat_models(b@)),
{
    if a.len() != b.len() {
        assert(room::seat_models(a@).len() != room::seat_models(b@).len());
        return false;
    }
    let mut i: usize = 0;
    while i < a.len()
        invariant
            i <= a.len(),
            a.len() == b.len(),
            forall|k: int|
                0 <= k < i ==> #[trigger] room::seat_models(a@)[k] == room::seat_models(b@)[k],
        decreases a.len() - i,
    {
        if !same_sitter(&a[i], &b[i]) {
            assert(room::seat_models(a@)[i as int] != room::seat_models(b@)[i as int]);
            return false;
        }
        i += 1;
    }
    assert(room::seat_models(a@) =~= room::seat_models(b@));
    true
}

/// Are the two entries the same?
fn same_dropout(a: &(usize, String, u64), b: &(usize, String, u64)) -> (r: bool)
    ensures
        r == ((a.0, a.1@, a.2) == (b.0, b.1@, b.2)),
{
    a.0 == b.0 && a.1 == b.1 && a.2 == b.2
}

/// Are the two lists of dropped-out players the same?
fn same_dropouts(a: &Vec<(usize, String, u64)>, b: &Vec<(usize, String, u64)>) -> (r: bool)
    ensures
        r == (room::dropout_models(a@) == room::dropout_models(b@)),
{
    if a.len() != b.len() {
        assert(room::dropout_models(a@).len() != room::dropout_models(b@).len());
        return false;
    }
    let mut i: usize = 0;
    while i < a.len()
        invariant
            i <= a.len(),
            a.len() == b.len(),
            forall|k: int|
                0 <= k < i ==> #[trigger] room::dropout_models(a@)[k] == room::dropout_models(b@)[k],
        decreases a.len() - i,
    {
        if !same_dropout(&a[i], &b[i]) {
            assert(room::dropout_models(a@)[i as int] != room::dropout_models(b@)[i as int]);
            return false;
        }
        i += 1;
    }
    assert(room::dropout_models(a@) =~= room::dropout_models(b@));
    true
}

impl Room {
    /// Are the two rooms the same?
    pub fn same_as(&self, other: &Room) -> (r: bool)
        ensures
            r == (self@ == other@),
    {
        self.code == other.code && same_game(&self.state, &other.state) && same_sitters(
            &self.players,
            &other.players,
        ) && self.started == other.started && self.is_public == other.is_public && same_flags(
            &self.ready,
            &other.ready,
        ) && same_dropouts(&self.disconnected_players, &other.disconnected_players)
            && self.last_human_disconnect_at == other.last_human_disconnect_at && self.driver
            == other.driver
    }
}

} // verus!
