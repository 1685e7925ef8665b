//! What is written and told of a game: cards by name, the lines of the log, and
//! the events of a move.
use crate::driver;
use crate::game::bot;
use crate::game::card;
use crate::game::card::Card;
use crate::game::card::Rank;
use crate::game::card::Suit;
use crate::game::combo;
use crate::game::combo::ComboModel;
use crate::game::combo::ComboType;
use crate::game::course;
use crate::game::engine;
use crate::game::engine::EventModel;
use crate::game::rules;
use crate::game::state::GameModel;
use crate::game::state::GamePhase;
use crate::text;
use vstd::prelude::*;

verus! {

/// A rank that is a number is written as that number, and the others by their
/// first letters.
pub proof fn law_ranks_by_name(rank: Rank)
    ensures
        rank == Rank::Two ==> rank.text() == text::decimal(2),
        rank == Rank::Jack ==> rank.text() == "J"@,
        rank == Rank::Queen ==> rank.text() == "Q"@,
        rank == Rank::King ==> rank.text() == "K"@,
        rank == Rank::Ace ==> rank.text() == "A"@,
        rank.index() <= 7 ==> rank.text() == text::decimal((rank.index() + 3) as nat),
{
    reveal_strlit("2");
    reveal_strlit("3");
    reveal_strlit("4");
    reveal_strlit("5");
    reveal_strlit("6");
    reveal_strlit("7");
    reveal_strlit("8");
    reveal_strlit("9");
    reveal_strlit("10");
    reveal_with_fuel(text::decimal, 2);
    assert("2"@ =~= seq!['2']);
    assert("3"@ =~= seq!['3']);
    assert("4"@ =~= seq!['4']);
    assert("5"@ =~= seq!['5']);
    assert("6"@ =~= seq!['6']);
    assert("7"@ =~= seq!['7']);
    assert("8"@ =~= seq!['8']);
    assert("9"@ =~= seq!['9']);
    assert("10"@ =~= seq!['1'].push('0'));
    assert(text::decimal(10) == text::decimal(1).push('0'));
}

/// A card is shown by its rank and the sign of its suit, and named by its rank, a
/// colon and the word for its suit.
pub proof fn law_cards_by_name(c: Card)
    ensures
        c.suit == Suit::Diamonds ==> c.text() == c.rank.text() + "♦"@ && c.id() == c.rank.text()
            + ":"@ + "diamonds"@,
        c.suit == Suit::Clubs ==> c.text() == c.rank.text() + "♣"@ && c.id() == c.rank.text() + ":"@
            + "clubs"@,
        c.suit == Suit::Hearts ==> c.text() == c.rank.text() + "♥"@ && c.id() == c.rank.text()
            + ":"@ + "hearts"@,
        c.suit == Suit::Spades ==> c.text() == c.rank.text() + "♠"@ && c.id() == c.rank.text()
            + ":"@ + "spades"@,
{
}

/// The kinds of combinations and the phases of a game have their names.
pub proof fn law_kinds_and_phases_by_name(kind: ComboType, phase: GamePhase)
    ensures
        kind == ComboType::Single ==> kind.text() == "Single"@,
        kind == ComboType::Pair ==> kind.text() == "Pair"@,
        kind == ComboType::Triple ==> kind.text() == "Triple"@,
        kind == ComboType::Straight ==> kind.text() == "Straight"@,
        kind == ComboType::FullHouse ==> kind.text() == "Full House"@,
        kind == ComboType::FourKind ==> kind.text() == "Four of a Kind"@,
        kind == ComboType::Bomb ==> kind.text() == "Bomb"@,
        phase == GamePhase::Lobby ==> phase.text() == "lobby"@,
        phase == GamePhase::ThreeDiscard ==> phase.text() == "three_discard"@,
        phase == GamePhase::Playing ==> phase.text() == "playing"@,
        phase == GamePhase::GameOver ==> phase.text() == "game_over"@,
{
}

/// The texts of cards, one for each, in their order.
pub proof fn law_card_texts(cards: Seq<Card>, i: int)
    ensures
        card::card_texts(cards).len() == cards.len(),
        0 <= i < cards.len() ==> card::card_texts(cards)[i] == cards[i].text(),
{
}

/// A play that is refused for its kind or size is told what would match; one that
/// is not high enough, what it cannot beat.
pub proof fn law_what_a_refused_play_is_told(cards: Seq<Card>, table: ComboModel)
    ensures
        rules::must_match_text(table) == "Must match: "@ + table.combo_type.text() + " ("@
            + text::decimal(table.cards.len()) + " cards)."@,
        rules::cannot_beat_text(table) == "Cannot beat: "@ + text::joined(
            card::card_texts(table.cards),
            " "@,
        ),
        ({
            let verdict = rules::verdict(cards, Some(table));
            verdict.combo matches Some(c) ==> !verdict.valid && c.combo_type != ComboType::Bomb ==> {
                &&& c.combo_type != table.combo_type || c.cards.len() != table.cards.len()
                    ==> verdict.error == rules::must_match_text(table)
                &&& c.combo_type == table.combo_type && c.cards.len() == table.cards.len()
                    ==> verdict.error == rules::cannot_beat_text(table)
            }
        }),
        combo::combo_type_of(cards) == Some(ComboType::Bomb) ==> {
            &&& rules::verdict(cards, None).error == "Invalid combo"@
            &&& table.combo_type != ComboType::Bomb && !rules::verdict(cards, Some(table)).valid
                ==> rules::verdict(cards, Some(table)).error == "Invalid combo"@
            &&& table.combo_type == ComboType::Bomb && table.cards.len() == 4 && !rules::verdict(
                cards,
                Some(table),
            ).valid ==> rules::verdict(cards, Some(table)).error == rules::cannot_beat_text(table)
        },
{
    card::lemma_sorted_cards(cards);
}

// ---------------------------------------------------------------------------
// The log
// ---------------------------------------------------------------------------

/// A pass is logged under the name of whoever passes.
pub proof fn law_passes_are_logged(game: GameModel, seat: usize)
    requires
        game.current_player == seat,
        game.finished_order.len() < 3,
        game.trick.combo_player is Some,
        game.trick.combo_player != Some(seat),
    ensures
        game.after_pass(seat).log == game.log.push(game.players[seat as int].name + " passes"@),
{
    let noted = game.pass_noted(seat);
    assert(game.after_pass(seat).log == noted.log);
}

/// A play is logged under the name of whoever plays, with the cards and their
/// kind. Whoever runs out of cards has a second line, with their place and its
/// points.
pub proof fn law_plays_are_logged(game: GameModel, seat: usize, places: Seq<usize>)
    ensures
        ({
            let p = game.players[seat as int];
            let cards = bot::cards_at(p.hand, places);
            let line = p.name + " plays "@ + text::joined(card::card_texts(cards), " "@) + " ("@
                + game.kind_at(seat, places).text() + ")"@;
            let after = game.play_noted(seat, places).settled(true).log;
            let runs_out = game.cards_down(
                seat,
                places,
                game.kind_at(seat, places),
            ).finished_order.len() > game.finished_order.len();
            &&& !runs_out ==> after == game.log.push(line)
            &&& runs_out && game.finished_order.len() == 0 ==> after == game.log.push(line).push(
                p.name + " finished ("@ + "1st"@ + "th, "@ + text::decimal(10) + " pts)"@,
            )
            &&& runs_out && game.finished_order.len() == 1 ==> after == game.log.push(line).push(
                p.name + " finished ("@ + "2nd"@ + "th, "@ + text::decimal(5) + " pts)"@,
            )
            &&& runs_out && game.finished_order.len() == 2 ==> after == game.log.push(line).push(
                p.name + " finished ("@ + "3rd"@ + "th, "@ + text::decimal(0) + " pts)"@,
            )
        }),
{
    let noted = game.play_noted(seat, places);
    assert(noted.settled(true).log == noted.log);
}

/// A play against the rules is logged with the reason.
pub proof fn law_refusals_are_logged(
    game: GameModel,
    seat: usize,
    ids: Seq<Seq<char>>,
    places: Seq<usize>,
)
    requires
        game.current_player == seat,
        game.finished_order.len() < 3,
        engine::places_of(game.players[seat as int].hand, ids) == Some(places),
        !game.verdict_on(seat, places).valid,
    ensures
        game.played(seat, ids).log == game.log.push(
            game.players[seat as int].name + "'s play is invalid: "@ + game.verdict_on(
                seat,
                places,
            ).error,
        ),
{
}

/// The log tells everybody how many threes a seat gives up and not which; who
/// leads; and what was done for whom when their time was over.
pub proof fn law_lines_of_the_driver(name: Seq<char>, count: nat, round: usize, ids: Seq<char>)
    ensures
        count > 0 ==> driver::discard_line(name, count) == name + " discarded their 3s ("@
            + text::decimal(count) + " 3s)"@,
        driver::discard_line(name, 0) == name + " has no 3s"@,
        round <= 1 ==> driver::lead_text(round, name) == "Game starts! "@ + name
            + " leads first trick."@,
        round > 1 ==> driver::lead_text(round, name) == "Round "@ + text::decimal(round as nat)
            + "! "@ + name + " leads first trick."@,
        driver::idle_line(name, Some(ids)) == name + " hit the time limit — auto-move "@ + ids,
        driver::idle_line(name, None) == name + " hit the time limit — auto-move "@ + "pass"@,
{
}

/// When all threes are told at once, each seat of the order has its line, in the
/// order, with its cards.
pub proof fn law_discards_told_in_order(game: GameModel, n: int)
    requires
        game.three_discard matches Some(td) && 0 < n <= td.order.len(),
    ensures
        ({
            let td = game.three_discard.unwrap();
            let seat = td.order[n - 1] as int;
            let cards = td.player_cards[seat];
            let line = if cards.len() > 0 {
                game.players[seat].name + " discarded "@ + text::joined(
                    card::card_texts(cards),
                    " "@,
                ) + " ("@ + text::decimal(cards.len()) + " 3s)"@
            } else {
                game.players[seat].name + " has no 3s"@
            };
            &&& game.discards_told(n).log == game.discards_told(n - 1).log.push(line)
            &&& game.discards_told(0) == game
            &&& game.discards_told(n) == (GameModel { log: game.discards_told(n).log, ..game })
        }),
    decreases n,
{
    if n > 1 {
        law_discards_told_in_order(game, n - 1);
    } else {
        assert(game.discards_told(0) == game);
    }
}

// ---------------------------------------------------------------------------
// Events
// ---------------------------------------------------------------------------

/// A pass is told as such. Where it gives the trick away, that is told first.
pub proof fn law_events_of_a_pass(game: GameModel, seat: usize, leader: usize, other: int)
    requires
        course::table_of_four(game),
        seat < 4,
        leader < 4,
        game.current_player == seat,
        game.phase == GamePhase::Playing,
        game.finished_order.len() < 3,
        game.turn_seq < u32::MAX,
        game.trick.combo_player == Some(leader),
        game.trick.combo_type != Some(ComboType::Bomb),
        leader != seat,
    ensures
        ({
            let told = EventModel::CardsPlayed {
                player_id: seat,
                player_name: game.players[seat as int].name,
                cards: seq!["pass"@],
                combo_name: "pass"@,
            };
            let taken = EventModel::TrickResolved {
                winner_id: leader,
                winner_name: game.players[leader as int].name,
            };
            &&& 0 <= other < 4 && other != seat && other != leader && !course::is_out(game, other)
                ==> game.pass_events(seat) == seq![told]
            &&& (forall|i: int|
                0 <= i < 4 && i != seat && i != leader ==> #[trigger] course::is_out(game, i))
                ==> game.pass_events(seat) == seq![taken, told]
        }),
{
    let noted = game.pass_noted(seat);
    let told = EventModel::CardsPlayed {
        player_id: seat,
        player_name: game.players[seat as int].name,
        cards: seq!["pass"@],
        combo_name: "pass"@,
    };
    let taken = EventModel::TrickResolved {
        winner_id: leader,
        winner_name: game.players[leader as int].name,
    };
    course::law_trick_goes_to_the_last_one_in(noted, leader);
    if 0 <= other < 4 && other != seat && other != leader && !course::is_out(game, other) {
        assert(!course::is_out(noted, other)) by {
            if noted.trick.passed.contains(other as usize) {
                let k = choose|k: int|
                    0 <= k < noted.trick.passed.len() && noted.trick.passed[k] == other as usize;
                assert(game.trick.passed[k] == other as usize);
            }
        }
        assert(game.pass_events(seat) =~= seq![told]);
    }
    if forall|i: int| 0 <= i < 4 && i != seat && i != leader ==> #[trigger] course::is_out(game, i) {
        assert forall|i: int| 0 <= i < 4 && i != leader implies #[trigger] course::is_out(
            noted,
            i,
        ) by {
            if i == seat {
                assert(noted.trick.passed[game.trick.passed.len() as int] == seat);
            } else {
                assert(course::is_out(game, i));
                if game.trick.passed.contains(i as usize) {
                    let k = choose|k: int|
                        0 <= k < game.trick.passed.len() && game.trick.passed[k] == i as usize;
                    assert(noted.trick.passed[k] == i as usize);
                }
            }
        }
        let settled = noted.settled(true);
        assert(settled.phase == GamePhase::Playing);
        assert(game.pass_events(seat) =~= seq![taken, told]);
    }
}

/// The end of a round is told last, with everybody's points and places.
pub proof fn law_end_is_told(game: GameModel, seat: usize, ids: Seq<Seq<char>>)
    requires
        game.sound(),
        game.current_player == seat,
        game.phase == GamePhase::Playing,
        game.finished_order.len() < 3,
        game.turn_seq < u32::MAX,
    ensures
        ({
            let after = game.played(seat, ids);
            after.phase == GamePhase::GameOver ==> game.played_events(seat, ids).len() > 0
                && game.played_events(seat, ids).last() == (EventModel::GameOver {
                final_scores: after.scores,
                finished_order: after.finished_order,
            })
        }),
        ({
            let after = game.after_pass(seat);
            after.phase == GamePhase::GameOver ==> game.pass_events(seat).len() > 0
                && game.pass_events(seat).last() == (EventModel::GameOver {
                final_scores: after.scores,
                finished_order: after.finished_order,
            })
        }),
{
}

/// A play after which the round goes on is told last, with its cards and their
/// kind.
pub proof fn law_plays_are_told(
    game: GameModel,
    seat: usize,
    ids: Seq<Seq<char>>,
    places: Seq<usize>,
)
    requires
        game.current_player == seat,
        game.finished_order.len() < 3,
        engine::places_of(game.players[seat as int].hand, ids) == Some(places),
        game.verdict_on(seat, places).valid,
        game.played(seat, ids).phase != GamePhase::GameOver,
    ensures
        ({
            let hand = game.players[seat as int].hand;
            game.played_events(seat, ids).last() == (EventModel::CardsPlayed {
                player_id: seat,
                player_name: game.players[seat as int].name,
                cards: card::card_texts(bot::cards_at(hand, places)),
                combo_name: game.kind_at(seat, places).text(),
            })
        }),
{
}

} // verus!
