use poker_banting_server::game::bot::{bot_beat_play, bot_free_play, bot_play, combo_strength};
use poker_banting_server::game::bot::{find_valid_combos, pick_cards, ValidCombo};
use poker_banting_server::game::card::{create_deck, labels, shuffle, sort_cards, Card, Rank, Suit};
use poker_banting_server::game::combo::{compare_combos, detect_combo, Combo, ComboType};
use poker_banting_server::game::fairness::{share_twos, unfair_seat};
use poker_banting_server::game::engine::{ids_can_be_played, GameEngine, GameEvent};
use poker_banting_server::game::rules::{
    deal_cards, deal_from, finalize_game, finish_three_discard, idle_auto_move,
    maybe_end_game_by_bomb, player_finished, process_bot_turns, process_one_bot_turn,
    process_three_discard, resolve_trick, skip_finished, start_three_discard, validate_play,
};
use poker_banting_server::game::state::{
    DriverState, GamePhase, GameState, PendingAction, Player, TrickState,
};
use poker_banting_server::game::turn::{can_take_out, take_out};

fn card(rank: Rank, suit: Suit) -> Card {
    Card::new(rank, suit)
}

fn player(id: usize, hand: Vec<Card>) -> Player {
    Player {
        id,
        name: format!("P{}", id),
        hand,
        finished: false,
        is_bot: false,
        connected: true,
        is_creator: id == 0,
    }
}

fn game(hands: Vec<Vec<Card>>) -> GameState {
    GameState {
        phase: GamePhase::Playing,
        players: hands.into_iter().enumerate().map(|(i, h)| player(i, h)).collect(),
        ready: vec![true; 4],
        current_player: 0,
        trick: TrickState::new(),
        finished_order: Vec::new(),
        scores: vec![0; 4],
        round: 1,
        total_scores: vec![0; 4],
        three_discard: None,
        log: Vec::new(),
        play_limit_secs: 10,
        winning_point: 50,
        game_winner: None,
        turn_seq: 0,
    }
}

fn small_game() -> GameState {
    game(vec![
        vec![card(Rank::Four, Suit::Clubs), card(Rank::King, Suit::Hearts)],
        vec![card(Rank::Five, Suit::Clubs), card(Rank::Queen, Suit::Hearts)],
        vec![card(Rank::Six, Suit::Clubs), card(Rank::Jack, Suit::Hearts)],
        vec![card(Rank::Seven, Suit::Clubs), card(Rank::Ten, Suit::Hearts)],
    ])
}

fn combo(cards: &[Card]) -> Combo {
    detect_combo(cards).unwrap()
}

fn ids(list: &[&str]) -> Vec<String> {
    list.iter().map(|s| s.to_string()).collect()
}

fn sorted(mut cards: Vec<Card>) -> Vec<Card> {
    sort_cards(&mut cards);
    cards
}

// Cards and combinations

#[test]
fn deck_holds_every_card_once() {
    let deck = create_deck();
    for (i, a) in deck.iter().enumerate() {
        for b in deck.iter().skip(i + 1) {
            assert_ne!(a, b);
        }
    }
    assert!(deck.contains(&card(Rank::Two, Suit::Spades)));
}

#[test]
fn shuffling_keeps_the_cards() {
    let mut deck = create_deck();
    shuffle(&mut deck);
    assert_eq!(sorted(deck), sorted(create_deck()));
}

#[test]
fn card_ids_and_labels() {
    assert_eq!(card(Rank::Ten, Suit::Diamonds).card_id(), "10:diamonds");
    assert_eq!(card(Rank::Two, Suit::Spades).card_id(), "2:spades");
    assert_eq!(card(Rank::Ace, Suit::Clubs).to_string(), "A♣");
    assert_eq!(
        labels(&vec![card(Rank::Queen, Suit::Hearts), card(Rank::Three, Suit::Spades)]),
        ids(&["Q♥", "3♠"])
    );
    let deck = create_deck();
    for a in &deck {
        for b in &deck {
            assert_eq!(a.card_id() == b.card_id(), a == b);
        }
    }
}

#[test]
fn comparing_combinations_is_an_order() {
    let low = combo(&[card(Rank::Four, Suit::Spades), card(Rank::Four, Suit::Hearts)]);
    let mid = combo(&[card(Rank::Nine, Suit::Spades), card(Rank::Nine, Suit::Hearts)]);
    let high = combo(&[card(Rank::Two, Suit::Spades), card(Rank::Two, Suit::Hearts)]);
    assert_eq!(compare_combos(&mid, &low), Some(5));
    assert_eq!(compare_combos(&low, &mid), Some(-5));
    assert_eq!(compare_combos(&high, &mid), Some(6));
    assert_eq!(compare_combos(&high, &low), Some(11));
    let other = combo(&[card(Rank::Four, Suit::Diamonds), card(Rank::Four, Suit::Clubs)]);
    assert_eq!(compare_combos(&low, &other), Some(0));
}

#[test]
fn bombs_and_names_of_combinations() {
    let bomb = combo(&[
        card(Rank::Nine, Suit::Diamonds),
        card(Rank::Nine, Suit::Clubs),
        card(Rank::Nine, Suit::Hearts),
        card(Rank::Nine, Suit::Spades),
    ]);
    assert_eq!(bomb.combo_type, ComboType::Bomb);
    assert!(detect_combo(&[]).is_none());
}

// What may be played

#[test]
fn an_accepted_play_is_higher() {
    let table = combo(&[card(Rank::Nine, Suit::Clubs)]);
    let higher = validate_play(&[card(Rank::Ten, Suit::Clubs)], Some(&table));
    assert!(higher.valid);
    let played = higher.combo.unwrap();
    assert!(compare_combos(&played, &table).unwrap() > 0);
    assert!(!validate_play(&[card(Rank::Nine, Suit::Spades)], Some(&table)).valid);
}

#[test]
fn a_bomb_only_reacts_to_a_single_two() {
    let bomb = [
        card(Rank::Nine, Suit::Diamonds),
        card(Rank::Nine, Suit::Clubs),
        card(Rank::Nine, Suit::Hearts),
        card(Rank::Nine, Suit::Spades),
    ];
    assert!(!validate_play(&bomb, None).valid);
    let ace = combo(&[card(Rank::Ace, Suit::Spades)]);
    assert!(!validate_play(&bomb, Some(&ace)).valid);
    let two = combo(&[card(Rank::Two, Suit::Spades)]);
    assert!(validate_play(&bomb, Some(&two)).valid);
    let lower = combo(&[
        card(Rank::Four, Suit::Diamonds),
        card(Rank::Four, Suit::Clubs),
        card(Rank::Four, Suit::Hearts),
        card(Rank::Four, Suit::Spades),
    ]);
    assert!(validate_play(&bomb, Some(&lower)).valid);
    assert!(!validate_play(&lower.cards, Some(&combo(&bomb))).valid);
}

#[test]
fn refusals_say_why() {
    assert_eq!(validate_play(&[], None).error, "No cards selected");
    let mixed = [card(Rank::Three, Suit::Diamonds), card(Rank::Four, Suit::Diamonds)];
    assert_eq!(validate_play(&mixed, None).error, "Invalid combo");
    let table = combo(&[card(Rank::King, Suit::Clubs)]);
    let low = validate_play(&[card(Rank::Four, Suit::Clubs)], Some(&table));
    assert!(low.combo.is_some());
    assert_eq!(low.error, "Cannot beat: K♣");
    let pair = [card(Rank::Four, Suit::Clubs), card(Rank::Four, Suit::Hearts)];
    assert_eq!(
        validate_play(&pair, Some(&table)).error,
        format!("Must match: {} (1 cards).", ComboType::Single.to_string())
    );
    let fine = validate_play(&[card(Rank::Two, Suit::Clubs)], Some(&table));
    assert_eq!(fine.error, "");
    assert!(fine.valid);
}

// Bots

#[test]
fn found_combinations_are_in_the_hand() {
    let hand = vec![
        card(Rank::Four, Suit::Clubs),
        card(Rank::Five, Suit::Clubs),
        card(Rank::Six, Suit::Clubs),
        card(Rank::Six, Suit::Hearts),
    ];
    let found = find_valid_combos(&hand);
    // Four singles, the pair of sixes and the straight.
    assert_eq!(found.len(), 6);
    for f in &found {
        assert_eq!(pick_cards(&hand, &f.indices), f.combo.cards);
        assert_eq!(detect_combo(&f.combo.cards).unwrap().combo_type, f.combo.combo_type);
    }
}

#[test]
fn bots_take_the_weakest() {
    let hand = vec![card(Rank::Four, Suit::Clubs), card(Rank::Nine, Suit::Clubs)];
    let found = find_valid_combos(&hand);
    assert!(combo_strength(&hand, &found[0]) < combo_strength(&hand, &found[1]));
    assert_eq!(bot_free_play(&hand), Some(vec![0]));
    let table = combo(&[card(Rank::Five, Suit::Clubs)]);
    assert_eq!(bot_beat_play(&hand, &table), Some(vec![1]));
    let high = combo(&[card(Rank::Ten, Suit::Clubs)]);
    assert_eq!(bot_beat_play(&hand, &high), None);
}

fn entry(hand: &[Card], indices: Vec<usize>) -> ValidCombo {
    let combo = combo(&pick_cards(hand, &indices));
    ValidCombo { indices, combo }
}

#[test]
fn a_weaker_full_house_scores_lower() {
    let hand = vec![
        card(Rank::Four, Suit::Diamonds),
        card(Rank::Four, Suit::Clubs),
        card(Rank::Five, Suit::Diamonds),
        card(Rank::Five, Suit::Clubs),
        card(Rank::Five, Suit::Hearts),
        card(Rank::Six, Suit::Diamonds),
        card(Rank::Six, Suit::Clubs),
        card(Rank::King, Suit::Diamonds),
        card(Rank::King, Suit::Clubs),
        card(Rank::King, Suit::Hearts),
    ];
    let fives = entry(&hand, vec![2, 3, 4, 5, 6]);
    let kings = entry(&hand, vec![0, 1, 7, 8, 9]);
    assert_eq!(combo_strength(&hand, &fives), 70);
    assert_eq!(combo_strength(&hand, &kings), 150);
    assert!(compare_combos(&fives.combo, &kings.combo).unwrap() < 0);
}

#[test]
fn a_weaker_four_of_a_kind_scores_lower() {
    let mut hand = vec![card(Rank::Four, Suit::Clubs)];
    for rank in [Rank::Nine, Rank::Jack] {
        for suit in [Suit::Diamonds, Suit::Clubs, Suit::Hearts, Suit::Spades] {
            hand.push(card(rank, suit));
        }
    }
    hand.push(card(Rank::Ace, Suit::Clubs));
    let nines = entry(&hand, vec![1, 2, 3, 4, 9]);
    let jacks = entry(&hand, vec![0, 5, 6, 7, 8]);
    assert_eq!(combo_strength(&hand, &nines), 160);
    assert_eq!(combo_strength(&hand, &jacks), 180);
    assert!(compare_combos(&nines.combo, &jacks.combo).unwrap() < 0);
}

#[test]
fn each_kind_has_its_strength() {
    let hand = vec![
        card(Rank::Four, Suit::Diamonds),
        card(Rank::Four, Suit::Clubs),
        card(Rank::Four, Suit::Hearts),
        card(Rank::Four, Suit::Spades),
        card(Rank::Five, Suit::Spades),
        card(Rank::Six, Suit::Spades),
    ];
    assert_eq!(combo_strength(&hand, &entry(&hand, vec![5])), 930);
    assert_eq!(combo_strength(&hand, &entry(&hand, vec![0, 1])), 12);
    assert_eq!(combo_strength(&hand, &entry(&hand, vec![0, 1, 2])), 13);
    assert_eq!(combo_strength(&hand, &entry(&hand, vec![3, 4, 5])), 33);
    assert_eq!(combo_strength(&hand, &entry(&hand, vec![0, 1, 2, 3])), 9010);
}

/// A hand with a combination of every kind, and some that are close to one.
fn rich_hand() -> Vec<Card> {
    sorted(vec![
        card(Rank::Four, Suit::Diamonds),
        card(Rank::Four, Suit::Spades),
        card(Rank::Five, Suit::Diamonds),
        card(Rank::Six, Suit::Diamonds),
        card(Rank::Seven, Suit::Diamonds),
        card(Rank::Eight, Suit::Diamonds),
        card(Rank::Eight, Suit::Clubs),
        card(Rank::Eight, Suit::Hearts),
        card(Rank::Eight, Suit::Spades),
        card(Rank::Ten, Suit::Diamonds),
        card(Rank::Ten, Suit::Clubs),
        card(Rank::Ten, Suit::Hearts),
        card(Rank::Two, Suit::Clubs),
    ])
}

/// Every combination of the hand, by trying all choices of up to five cards.
fn all_combos(hand: &[Card]) -> Vec<(Vec<usize>, Combo)> {
    let mut out = Vec::new();
    for mask in 1u32..1 << hand.len() {
        if mask.count_ones() > 5 {
            continue;
        }
        let places: Vec<usize> = (0..hand.len()).filter(|i| mask & (1 << i) != 0).collect();
        if let Some(combo) = detect_combo(&pick_cards(hand, &places)) {
            out.push((places, combo));
        }
    }
    out
}

#[test]
fn the_search_finds_every_combination() {
    let hand = rich_hand();
    let found = find_valid_combos(&hand);
    let all = all_combos(&hand);
    assert!(all.len() > 50);
    for (places, combo) in &all {
        let hit = found.iter().find(|f| f.indices == *places).unwrap();
        assert_eq!(hit.combo.combo_type, combo.combo_type);
    }
    assert!(found.iter().all(|f| all.iter().any(|(places, _)| *places == f.indices)));
}

#[test]
fn an_answer_is_the_lowest_that_wins() {
    let hand = rich_hand();
    let all = all_combos(&hand);
    let tables = [
        vec![card(Rank::Three, Suit::Clubs)],
        vec![card(Rank::Two, Suit::Spades)],
        vec![card(Rank::Five, Suit::Clubs), card(Rank::Five, Suit::Hearts)],
        vec![
            card(Rank::Three, Suit::Clubs),
            card(Rank::Four, Suit::Clubs),
            card(Rank::Five, Suit::Clubs),
        ],
        vec![
            card(Rank::Three, Suit::Diamonds),
            card(Rank::Three, Suit::Clubs),
            card(Rank::Three, Suit::Hearts),
            card(Rank::Ace, Suit::Clubs),
            card(Rank::Ace, Suit::Hearts),
        ],
        vec![
            card(Rank::Three, Suit::Diamonds),
            card(Rank::Three, Suit::Clubs),
            card(Rank::Three, Suit::Hearts),
            card(Rank::Three, Suit::Spades),
            card(Rank::Ace, Suit::Hearts),
        ],
    ];
    for cards in &tables {
        let table = combo(cards);
        let places = bot_beat_play(&hand, &table).unwrap();
        let answer = combo(&pick_cards(&hand, &places));
        assert!(validate_play(&pick_cards(&hand, &places), Some(&table)).valid);
        for (other, other_combo) in &all {
            if validate_play(&pick_cards(&hand, other), Some(&table)).valid {
                assert!(compare_combos(&answer, other_combo).unwrap() <= 0);
            }
        }
    }
    let house = combo(&tables[4]);
    let best = pick_cards(&hand, &bot_beat_play(&hand, &house).unwrap());
    assert_eq!(best.iter().filter(|c| c.rank == Rank::Four).count(), 2);
    assert_eq!(best.iter().filter(|c| c.rank == Rank::Eight).count(), 3);
}

#[test]
fn a_lead_is_the_weakest_of_the_hand() {
    let hand = rich_hand();
    let places = bot_free_play(&hand).unwrap();
    let lead = entry(&hand, places);
    for f in find_valid_combos(&hand) {
        assert!(combo_strength(&hand, &lead) <= combo_strength(&hand, &f));
        if f.combo.cards.len() == lead.combo.cards.len() {
            if let Some(d) = compare_combos(&lead.combo, &f.combo) {
                assert!(d <= 0);
            }
        }
    }
}

#[test]
fn hands_stay_in_order() {
    let mut state = game(vec![Vec::new(), Vec::new(), Vec::new(), Vec::new()]);
    deal_cards(&mut state);
    start_three_discard(&mut state);
    for p in &mut state.players {
        assert_eq!(sorted(p.hand.clone()), p.hand);
        take_out(&mut p.hand, &vec![0, 4, 7]);
        assert_eq!(sorted(p.hand.clone()), p.hand);
    }
}

#[test]
fn a_free_choice_never_bombs() {
    let hand = vec![
        card(Rank::Four, Suit::Diamonds),
        card(Rank::Four, Suit::Clubs),
        card(Rank::Four, Suit::Hearts),
        card(Rank::Four, Suit::Spades),
    ];
    let chosen = bot_free_play(&hand).unwrap();
    assert_ne!(combo(&pick_cards(&hand, &chosen)).combo_type, ComboType::Bomb);
}

#[test]
fn bots_play_by_the_rules() {
    let mut state = small_game();
    state.trick.cards = vec![card(Rank::Eight, Suit::Spades)];
    state.trick.combo_type = Some(ComboType::Single);
    state.trick.combo_player = Some(3);
    let chosen = bot_play(&state, 0).unwrap();
    let table = combo(&state.trick.cards);
    let cards = pick_cards(&state.players[0].hand, &chosen);
    assert!(validate_play(&cards, Some(&table)).valid);
}

// Turns

#[test]
fn skipping_finds_a_player_with_cards() {
    let mut state = small_game();
    state.players[0].finished = true;
    state.players[1].finished = true;
    state.finished_order = vec![0, 1];
    skip_finished(&mut state);
    assert_eq!(state.current_player, 2);
    skip_finished(&mut state);
    assert_eq!(state.current_player, 2);
    assert!(player_finished(&state, 0));
    assert!(!player_finished(&state, 2));
}

#[test]
fn skipping_needs_no_scores() {
    let mut state = small_game();
    state.scores = Vec::new();
    state.players[0].finished = true;
    skip_finished(&mut state);
    assert_eq!(state.current_player, 1);
}

#[test]
fn large_totals_are_added_up() {
    let mut state = small_game();
    state.total_scores = vec![2_000_000_000, -2_000_000_000, 0, i32::MIN + 15];
    state.finished_order = vec![0, 1, 2];
    state.scores = vec![10, 5, 0, 0];
    for seat in 0..3 {
        state.players[seat].finished = true;
    }
    assert!(finalize_game(&mut state));
    assert_eq!(state.total_scores, vec![2_000_000_010, -1_999_999_995, 0, i32::MIN]);
}

#[test]
fn taking_cards_out_loses_none() {
    let mut hand = vec![
        card(Rank::Four, Suit::Clubs),
        card(Rank::Nine, Suit::Clubs),
        card(Rank::King, Suit::Clubs),
    ];
    let taken = pick_cards(&hand, &vec![0, 2]);
    assert!(can_take_out(hand.len(), &vec![0, 2]));
    take_out(&mut hand, &vec![0, 2]);
    assert_eq!(hand, vec![card(Rank::Nine, Suit::Clubs)]);
    assert_eq!(taken, vec![card(Rank::Four, Suit::Clubs), card(Rank::King, Suit::Clubs)]);
    assert!(!can_take_out(1, &vec![0, 0]));
}

#[test]
fn a_play_moves_the_cards_and_counts_once() {
    let mut engine = GameEngine::new(small_game());
    let events = engine.apply_play(0, &ids(&["4:clubs"]));
    let state = engine.state();
    assert_eq!(state.players[0].hand, vec![card(Rank::King, Suit::Hearts)]);
    assert_eq!(state.trick.cards, vec![card(Rank::Four, Suit::Clubs)]);
    assert_eq!(state.trick.combo_player, Some(0));
    assert_eq!(state.turn_seq, 1);
    assert_eq!(state.current_player, 1);
    assert!(matches!(&events[0], GameEvent::CardsPlayed { player_id: 0, .. }));
}

#[test]
fn only_the_player_at_turn_moves() {
    let mut engine = GameEngine::new(small_game());
    assert!(engine.apply_play(1, &ids(&["5:clubs"])).is_empty());
    assert!(engine.apply_pass(2).is_empty());
    assert_eq!(*engine.state(), small_game());
}

#[test]
fn nobody_passes_on_a_free_table() {
    let mut engine = GameEngine::new(small_game());
    assert!(engine.apply_pass(0).is_empty());
    assert_eq!(*engine.state(), small_game());
}

#[test]
fn a_card_that_is_not_held_is_not_played() {
    let mut engine = GameEngine::new(small_game());
    assert!(engine.apply_play(0, &ids(&["A:spades"])).is_empty());
    assert_eq!(*engine.state(), small_game());
}

#[test]
fn a_play_against_the_rules_goes_into_the_log_only() {
    let mut engine = GameEngine::new(small_game());
    assert!(engine.apply_play(0, &ids(&["4:clubs", "K:hearts"])).is_empty());
    let state = engine.state();
    assert_eq!(state.log, ids(&["P0's play is invalid: Invalid combo"]));
    assert_eq!(state.turn_seq, 0);
    assert_eq!(state.players[0].hand.len(), 2);
}

#[test]
fn ids_of_different_cards_can_be_played() {
    let mut state = small_game();
    state.players[0].hand = vec![card(Rank::Four, Suit::Clubs)];
    assert!(ids_can_be_played(&state, 0, &ids(&["4:clubs"])));
    // Two times the same card would be a pair that is not there.
    assert!(!ids_can_be_played(&state, 0, &ids(&["4:clubs", "4:clubs"])));
}

#[test]
fn the_turn_goes_round_until_all_have_passed() {
    let mut engine = GameEngine::new(small_game());
    engine.apply_play(0, &ids(&["K:hearts"]));
    engine.apply_pass(1);
    engine.apply_pass(2);
    assert_eq!(engine.state().current_player, 3);
    engine.apply_pass(3);
    let state = engine.state();
    assert_eq!(state.current_player, 0);
    assert!(state.trick.cards.is_empty());
    assert_eq!(state.trick.combo_player, None);
    assert_eq!(state.turn_seq, 4);
}

#[test]
fn places_are_scored_as_hands_run_out() {
    let mut state = small_game();
    state.players[0].hand = vec![card(Rank::Four, Suit::Clubs)];
    let mut engine = GameEngine::new(state);
    let events = engine.apply_play(0, &ids(&["4:clubs"]));
    let state = engine.state();
    assert_eq!(state.finished_order, vec![0]);
    assert_eq!(state.scores[0], 10);
    assert!(state.players[0].finished);
    assert!(matches!(&events[0], GameEvent::PlayerFinished { position: 1, score: 10, .. }));
}

#[test]
fn the_round_ends_with_the_third_player_out() {
    let mut state = small_game();
    state.players[0].finished = true;
    state.players[1].finished = true;
    state.finished_order = vec![0, 1];
    state.scores = vec![10, 5, 0, 0];
    state.players[0].hand.clear();
    state.players[1].hand.clear();
    state.players[2].hand = vec![card(Rank::Six, Suit::Clubs)];
    state.current_player = 2;
    let mut engine = GameEngine::new(state);
    engine.apply_play(2, &ids(&["6:clubs"]));
    let state = engine.into_state();
    assert_eq!(state.phase, GamePhase::GameOver);
    assert_eq!(state.scores, vec![10, 5, 0, -15]);
    assert_eq!(state.finished_order, vec![0, 1, 2, 3]);
    assert_eq!(state.total_scores, vec![10, 5, 0, -15]);
    assert_eq!(state.round, 2);
}

#[test]
fn a_round_is_scored_once_and_the_winner_stays() {
    let mut state = small_game();
    state.total_scores = vec![45, 48, 0, 0];
    for i in 0..3 {
        state.players[i].finished = true;
    }
    state.finished_order = vec![0, 1, 2];
    state.scores = vec![10, 5, 0, 0];
    assert!(finalize_game(&mut state));
    // Both have reached fifty: the lower seat wins.
    assert_eq!(state.total_scores, vec![55, 53, 0, -15]);
    assert_eq!(state.game_winner, Some(0));
    let over = state.clone();
    assert!(!finalize_game(&mut state));
    assert_eq!(state, over);
}

#[test]
fn a_bomb_places_everyone() {
    let mut state = small_game();
    state.trick.combo_type = Some(ComboType::Bomb);
    state.trick.combo_player = Some(2);
    state.trick.played = vec![0, 2];
    state.trick.passed = vec![3, 0, 1];
    assert!(maybe_end_game_by_bomb(&mut state));
    let mut order = state.finished_order.clone();
    assert_eq!(order[0], 2);
    order.sort();
    assert_eq!(order, vec![0, 1, 2, 3]);
    assert_eq!(state.scores[2], 10);
    assert_eq!(state.phase, GamePhase::GameOver);
    let mut plain = small_game();
    assert!(!maybe_end_game_by_bomb(&mut plain));
    assert_eq!(plain, small_game());
}

#[test]
fn the_winner_of_a_trick_leads() {
    let mut state = small_game();
    state.trick.combo_player = Some(3);
    state.trick.cards = vec![card(Rank::Ten, Suit::Hearts)];
    resolve_trick(&mut state, 3);
    assert_eq!(state.current_player, 3);
    assert!(state.trick.cards.is_empty());
}

// Time limits

#[test]
fn the_idle_choice_is_the_lowest_single() {
    let mut state = small_game();
    assert_eq!(idle_auto_move(&state, 0), Some(ids(&["4:clubs"])));
    state.trick.cards = vec![card(Rank::Nine, Suit::Clubs)];
    state.trick.combo_type = Some(ComboType::Single);
    state.trick.combo_player = Some(3);
    assert_eq!(idle_auto_move(&state, 0), Some(ids(&["K:hearts"])));
    let mut engine = GameEngine::new(state);
    engine.apply_play(0, &ids(&["K:hearts"]));
    assert_eq!(engine.state().turn_seq, 1);
}

#[test]
fn a_watchdog_fires_after_the_limit_and_for_its_turn_only() {
    let mut state = small_game();
    let mut driver = DriverState::default();
    driver.arm_watchdog_at(&state, 1_000);
    assert_eq!(driver.watchdog_deadline_ms, Some(11_000));
    assert!(!driver.watchdog_due_at(&state, 10_999));
    assert!(driver.watchdog_due_at(&state, 11_000));
    state.phase = GamePhase::GameOver;
    assert!(!driver.watchdog_due_at(&state, 20_000));
    state.phase = GamePhase::Playing;
    state.turn_seq = 1;
    assert!(!driver.watchdog_due_at(&state, 20_000));
}

#[test]
fn a_watchdog_beyond_the_clock_is_silent() {
    let state = small_game();
    let mut driver = DriverState::default();
    driver.arm_watchdog_at(&state, u64::MAX - 5);
    assert!(!driver.watchdog_due_at(&state, u64::MAX - 1));
    assert!(driver.watchdog_due_at(&state, u64::MAX));
}

#[test]
fn a_turn_lasts_at_least_a_second() {
    let mut state = small_game();
    state.play_limit_secs = 0;
    let mut driver = DriverState::default();
    driver.arm_watchdog_at(&state, 1_000);
    assert!(!driver.watchdog_due_at(&state, 1_999));
    assert!(driver.watchdog_due_at(&state, 2_000));
}

#[test]
fn bots_have_no_time_limit() {
    let mut state = small_game();
    state.players[0].is_bot = true;
    let mut driver = DriverState::default();
    driver.arm_watchdog_at(&state, 1_000);
    assert_eq!(driver.watchdog_deadline_ms, None);
}

#[test]
fn an_action_is_due_at_its_time() {
    let mut driver = DriverState::default();
    driver.arm_at(PendingAction::BotTurn, 2_500, 1_000);
    assert!(!driver.is_due_at(3_499));
    assert!(driver.is_due_at(3_500));
    assert_eq!(driver.pending, Some(PendingAction::BotTurn));
    driver.clear_pending();
    assert!(!driver.is_due_at(9_999));
}

// Dealing and discarding

#[test]
fn a_deal_hands_out_the_whole_deck() {
    let mut state = game(vec![Vec::new(), Vec::new(), Vec::new(), Vec::new()]);
    deal_cards(&mut state);
    let mut all: Vec<Card> = Vec::new();
    for p in &state.players {
        assert_eq!(p.hand.len(), 13);
        assert_eq!(sorted(p.hand.clone()), p.hand);
        all.extend(p.hand.iter());
    }
    assert_eq!(sorted(all), sorted(create_deck()));
}

#[test]
fn a_deal_goes_seat_by_seat() {
    let mut state = game(vec![Vec::new(), Vec::new(), Vec::new(), Vec::new()]);
    let deck = create_deck();
    deal_from(&mut state, &deck);
    for seat in 0..4 {
        assert_eq!(state.players[seat].hand, sorted(deck[13 * seat..13 * seat + 13].to_vec()));
    }
}

#[test]
fn four_twos_for_one_seat_are_shared() {
    let mut deck = sorted(create_deck());
    assert_eq!(unfair_seat(&deck), Some(3));
    let before = deck.clone();
    share_twos(&mut deck, 3);
    assert_eq!(unfair_seat(&deck), None);
    assert_eq!(deck[0].rank, Rank::Two);
    assert_eq!(deck.iter().zip(&before).filter(|(a, b)| a != b).count(), 2);
    assert_eq!(sorted(deck), before);
    assert_eq!(unfair_seat(&create_deck()), None);
}

#[test]
fn threes_are_set_aside_and_discarded_in_order() {
    let mut state = game(vec![
        vec![card(Rank::Three, Suit::Diamonds), card(Rank::Nine, Suit::Clubs)],
        vec![card(Rank::Three, Suit::Spades), card(Rank::Ten, Suit::Clubs)],
        vec![card(Rank::Three, Suit::Hearts), card(Rank::Three, Suit::Clubs)],
        vec![card(Rank::Jack, Suit::Clubs)],
    ]);
    start_three_discard(&mut state);
    let td = state.three_discard.clone().unwrap();
    let mut order = td.order.clone();
    order.sort();
    assert_eq!(order, vec![0, 1, 2, 3]);
    assert_eq!(td.player_cards[0], vec![card(Rank::Three, Suit::Diamonds)]);
    assert_eq!(state.players[0].hand, vec![card(Rank::Nine, Suit::Clubs)]);
    assert!(state.players[2].hand.is_empty());
    assert_eq!(state.current_player, td.order[0]);
    for (k, seat) in td.order.iter().enumerate() {
        assert_eq!(process_three_discard(&mut state, *seat), k == 3);
    }
    assert_eq!(state.phase, GamePhase::Playing);
    assert_eq!(state.current_player, td.order[0]);
    assert!(state.three_discard.is_none());
}

#[test]
fn a_discard_can_be_finished_at_once() {
    let mut state = small_game();
    start_three_discard(&mut state);
    let first = state.three_discard.as_ref().unwrap().order[0];
    finish_three_discard(&mut state);
    assert_eq!(state.phase, GamePhase::Playing);
    assert_eq!(state.current_player, first);
}

#[test]
fn the_engine_discards_and_tells() {
    let mut engine = GameEngine::new(small_game());
    engine.start_three_discard();
    assert_eq!(engine.state().phase, GamePhase::ThreeDiscard);
    engine.complete_three_discard();
    assert_eq!(engine.state().phase, GamePhase::Playing);
}

#[test]
fn the_engine_lends_its_game() {
    let mut engine = GameEngine::new(small_game());
    engine.state_mut().current_player = 2;
    assert_eq!(engine.state().current_player, 2);
    engine.deal_cards();
    assert!(engine.state().players.iter().all(|p| p.hand.len() == 13));
}

#[test]
fn a_play_lies_on_the_table() {
    let mut engine = GameEngine::new(small_game());
    engine.apply_play(0, &ids(&["4:clubs"]));
    let trick = &engine.state().trick;
    assert_eq!(trick.cards, vec![card(Rank::Four, Suit::Clubs)]);
    assert_eq!(trick.combo_type, Some(ComboType::Single));
    assert_eq!(trick.combo_player, Some(0));
    engine.apply_play(1, &ids(&["5:clubs"]));
    let trick = &engine.state().trick;
    assert_eq!(trick.cards, vec![card(Rank::Five, Suit::Clubs)]);
    assert_eq!(trick.combo_player, Some(1));
    assert_eq!(trick.played, vec![0]);
}

// Bots at turn

#[test]
fn bots_leave_humans_alone() {
    let mut state = small_game();
    state.players[0].is_bot = true;
    state.players[1].is_bot = true;
    let before = state.clone();
    process_one_bot_turn(&mut state);
    assert_eq!(state.players[2..], before.players[2..]);
    process_bot_turns(&mut state);
    assert_eq!(state.players[2..], before.players[2..]);
    assert_ne!(state.players[0], before.players[0]);
}

#[test]
fn bots_play_until_a_human_is_at_turn() {
    let mut state = small_game();
    state.players[0].is_bot = true;
    state.players[1].is_bot = true;
    process_bot_turns(&mut state);
    assert_eq!(state.current_player, 2);
    assert_eq!(state.turn_seq, 2);
    assert_eq!(state.trick.cards, vec![card(Rank::Five, Suit::Clubs)]);
}

#[test]
fn one_bot_takes_one_turn() {
    let mut state = small_game();
    state.players[0].is_bot = true;
    state.players[1].is_bot = true;
    assert!(process_one_bot_turn(&mut state));
    assert_eq!(state.current_player, 1);
    assert!(!process_one_bot_turn(&mut state));
    assert_eq!(state.current_player, 2);
    assert!(!process_one_bot_turn(&mut state));
    assert_eq!(state.turn_seq, 2);
}
