use blackjack::{
    begin_player_turn, calculate_hand_value, can_hit, can_settle, can_start_round, check_bet,
    checked_hand_value, create_shuffled_deck, deal_card, deal_opening, dealer_can_play,
    dealer_turn, decide_outcome, determine_winner, normalize, out_of_money, parse_amount,
    parse_answer, parse_choice, place_bet, player_turn, read_answer, read_choice, start_round,
    Answer, BetCheck, Card, Choice, Outcome, Player, TurnState, STARTING_BALANCE,
};

const RANK_LABELS: [&str; 13] = [
    "2", "3", "4", "5", "6", "7", "8", "9", "10", "Jack", "Queen", "King", "Ace",
];
const SUIT_LABELS: [&str; 4] = ["Hearts", "Diamonds", "Clubs", "Spades"];

fn card(rank: &'static str, value: i32) -> Card {
    Card { rank, suit: "Spades", value }
}

fn hand_of(cards: Vec<Card>) -> Player {
    Player { cards, total_value: 0, balance: 100 }
}

fn points_of(rank: &str) -> i32 {
    match rank {
        "Jack" | "Queen" | "King" => 10,
        "Ace" => 11,
        numeral => numeral.parse().unwrap(),
    }
}

#[test]
fn deck_holds_each_rank_and_suit_once() {
    let deck = create_shuffled_deck();
    assert_eq!(deck.len(), 52);
    for suit in SUIT_LABELS {
        for rank in RANK_LABELS {
            let matching: Vec<&Card> =
                deck.iter().filter(|c| c.rank == rank && c.suit == suit).collect();
            assert_eq!(matching.len(), 1, "{rank} of {suit}");
            assert_eq!(matching[0].value, points_of(rank));
        }
    }
}

#[test]
fn deck_points_add_up_to_380() {
    let deck = create_shuffled_deck();
    assert_eq!(deck.iter().map(|c| c.value).sum::<i32>(), 380);
}

#[test]
fn deck_leaves_the_factory_order() {
    let in_order = |deck: &Vec<Card>| {
        deck.iter().enumerate().all(|(i, c)| {
            c.rank == RANK_LABELS[i % 13] && c.suit == SUIT_LABELS[i / 13]
        })
    };
    let first = create_shuffled_deck();
    let second = create_shuffled_deck();
    assert!(!in_order(&first) || !in_order(&second));
}

#[test]
fn deal_takes_the_top_card() {
    let mut deck = vec![card("2", 2), card("King", 10), card("Ace", 11)];
    let mut hand = hand_of(vec![card("5", 5)]);
    hand.total_value = 5;
    deal_card(&mut hand, &mut deck);
    assert_eq!(deck, vec![card("2", 2), card("King", 10)]);
    assert_eq!(hand.cards, vec![card("5", 5), card("Ace", 11)]);
    assert_eq!(hand.total_value, 5);
    assert_eq!(hand.balance, 100);
}

#[test]
fn deal_from_an_empty_deck_changes_nothing() {
    let mut deck: Vec<Card> = Vec::new();
    let mut hand = hand_of(vec![card("5", 5)]);
    deal_card(&mut hand, &mut deck);
    assert_eq!(deck.len(), 0);
    assert_eq!(hand.cards, vec![card("5", 5)]);
}

#[test]
fn deal_moves_one_card_at_a_time() {
    let mut deck = create_shuffled_deck();
    let mut hand = hand_of(Vec::new());
    for dealt in 1..=52 {
        deal_card(&mut hand, &mut deck);
        assert_eq!(hand.cards.len(), dealt);
        assert_eq!(deck.len(), 52 - dealt);
    }
    deal_card(&mut hand, &mut deck);
    assert_eq!(hand.cards.len(), 52);
    assert_eq!(deck.len(), 0);
}

#[test]
fn empty_hand_scores_zero() {
    let mut hand = hand_of(Vec::new());
    hand.total_value = 7;
    assert_eq!(calculate_hand_value(&mut hand), 0);
    assert_eq!(hand.total_value, 0);
}

#[test]
fn two_aces_and_an_eight_score_twenty() {
    let mut hand = hand_of(vec![card("Ace", 11), card("Ace", 11), card("8", 8)]);
    assert_eq!(calculate_hand_value(&mut hand), 20);
}

#[test]
fn only_one_ace_is_demoted() {
    let mut hand =
        hand_of(vec![card("Ace", 11), card("Ace", 11), card("Ace", 11), card("9", 9)]);
    assert_eq!(calculate_hand_value(&mut hand), 32);
    assert_eq!(hand.total_value, 32);
}

#[test]
fn ace_keeps_eleven_points_up_to_twenty_one() {
    let mut hand = hand_of(vec![card("Ace", 11), card("King", 10)]);
    assert_eq!(calculate_hand_value(&mut hand), 21);
    let mut hand = hand_of(vec![card("Ace", 11), card("King", 10), card("2", 2)]);
    assert_eq!(calculate_hand_value(&mut hand), 13);
}

#[test]
fn bust_without_an_ace_keeps_its_points() {
    let mut hand = hand_of(vec![card("King", 10), card("9", 9), card("5", 5)]);
    assert_eq!(calculate_hand_value(&mut hand), 24);
}

#[test]
fn ace_is_told_by_its_rank() {
    let mut hand = hand_of(vec![card("Eleven", 11), card("King", 10), card("5", 5)]);
    assert_eq!(calculate_hand_value(&mut hand), 26);
    let mut hand = hand_of(vec![card("ace", 11), card("King", 10), card("5", 5)]);
    assert_eq!(calculate_hand_value(&mut hand), 26);
}

#[test]
fn scoring_twice_gives_the_same() {
    let mut hand = hand_of(vec![card("Ace", 11), card("7", 7), card("9", 9)]);
    let first = calculate_hand_value(&mut hand);
    assert_eq!(first, 17);
    assert_eq!(hand.total_value, 17);
    let second = calculate_hand_value(&mut hand);
    assert_eq!(second, first);
    assert_eq!(hand.total_value, 17);
    assert_eq!(hand.cards, vec![card("Ace", 11), card("7", 7), card("9", 9)]);
    assert_eq!(hand.balance, 100);
}

#[test]
fn checked_score_of_a_sound_hand() {
    assert_eq!(checked_hand_value(&vec![card("Ace", 11), card("Ace", 11), card("6", 6)]), Some(18));
    assert_eq!(checked_hand_value(&Vec::new()), Some(0));
}

#[test]
fn checked_score_refuses_points_out_of_range() {
    assert_eq!(checked_hand_value(&vec![card("2", 2), card("1", 1)]), None);
    assert_eq!(checked_hand_value(&vec![card("12", 12)]), None);
    assert_eq!(checked_hand_value(&vec![card("King", -10)]), None);
}

#[test]
fn dealer_draws_until_seventeen() {
    let mut deck = vec![card("9", 9), card("King", 10), card("3", 3), card("2", 2)];
    let mut dealer = hand_of(vec![card("10", 10), card("2", 2)]);
    dealer_turn(&mut dealer, &mut deck);
    assert_eq!(dealer.cards, vec![card("10", 10), card("2", 2), card("2", 2), card("3", 3)]);
    assert_eq!(dealer.total_value, 17);
    assert_eq!(deck, vec![card("9", 9), card("King", 10)]);
    assert_eq!(dealer.balance, 100);
}

#[test]
fn dealer_stops_on_a_bust() {
    let mut deck = vec![card("2", 2), card("King", 10)];
    let mut dealer = hand_of(vec![card("10", 10), card("6", 6)]);
    dealer_turn(&mut dealer, &mut deck);
    assert_eq!(dealer.total_value, 26);
    assert_eq!(deck, vec![card("2", 2)]);
}

#[test]
fn dealer_with_seventeen_draws_nothing() {
    let mut deck = create_shuffled_deck();
    let mut dealer = hand_of(vec![card("10", 10), card("7", 7)]);
    dealer_turn(&mut dealer, &mut deck);
    assert_eq!(dealer.cards, vec![card("10", 10), card("7", 7)]);
    assert_eq!(dealer.total_value, 17);
    assert_eq!(deck.len(), 52);
}

#[test]
fn dealer_counts_a_soft_ace_down() {
    let mut deck = vec![card("5", 5), card("King", 10)];
    let mut dealer = hand_of(vec![card("Ace", 11), card("5", 5)]);
    dealer_turn(&mut dealer, &mut deck);
    assert_eq!(dealer.total_value, 21);
    assert_eq!(dealer.cards.len(), 4);
    assert_eq!(deck.len(), 0);
}

#[test]
fn dealer_always_ends_at_seventeen_or_more() {
    for _ in 0..50 {
        let mut deck = create_shuffled_deck();
        let mut dealer = hand_of(Vec::new());
        assert!(dealer_can_play(&dealer, &deck));
        dealer_turn(&mut dealer, &mut deck);
        assert!(dealer.total_value >= 17);
        assert_eq!(dealer.cards.len() + deck.len(), 52);
        let mut without_last = hand_of(dealer.cards);
        without_last.cards.pop();
        assert!(calculate_hand_value(&mut without_last) < 17);
    }
}

#[test]
fn dealer_cannot_play_from_a_short_deck() {
    let dealer = hand_of(vec![card("10", 10), card("2", 2)]);
    assert!(!dealer_can_play(&dealer, &vec![card("2", 2), card("2", 2)]));
    assert!(!dealer_can_play(&dealer, &Vec::new()));
    assert!(dealer_can_play(&dealer, &vec![card("5", 5)]));
    assert!(dealer_can_play(&dealer, &vec![card("King", 10), card("2", 2), card("3", 3)]));
}

#[test]
fn dealer_cannot_play_with_points_out_of_range() {
    let dealer = hand_of(vec![card("10", 10), card("8", 8)]);
    assert!(dealer_can_play(&dealer, &Vec::new()));
    assert!(!dealer_can_play(&dealer, &vec![card("0", 0)]));
    let dealer = hand_of(vec![card("10", 10), card("18", 18)]);
    assert!(!dealer_can_play(&dealer, &Vec::new()));
}

#[test]
fn outcome_for_each_pair_of_scores() {
    assert_eq!(decide_outcome(18, 17), Outcome::PlayerWins);
    assert_eq!(decide_outcome(18, 20), Outcome::DealerWins);
    assert_eq!(decide_outcome(17, 17), Outcome::Push);
    assert_eq!(decide_outcome(21, 21), Outcome::Push);
    assert_eq!(decide_outcome(30, 17), Outcome::DealerWins);
    assert_eq!(decide_outcome(17, 26), Outcome::PlayerWins);
    assert_eq!(decide_outcome(21, 22), Outcome::PlayerWins);
    assert_eq!(decide_outcome(22, 21), Outcome::DealerWins);
    assert_eq!(decide_outcome(22, 30), Outcome::DealerWins);
    assert_eq!(decide_outcome(0, 0), Outcome::Push);
}

#[test]
fn equal_scores_over_twenty_one_go_to_the_dealer() {
    assert_eq!(decide_outcome(25, 25), Outcome::DealerWins);
    let mut player = hand_of(vec![card("King", 10), card("9", 9), card("6", 6)]);
    let mut dealer = hand_of(vec![card("Queen", 10), card("8", 8), card("7", 7)]);
    assert_eq!(determine_winner(&mut player, &mut dealer, 40), Outcome::DealerWins);
    assert_eq!(player.balance, 60);
}

#[test]
fn settlement_scores_both_hands() {
    let mut player = hand_of(vec![card("10", 10), card("9", 9)]);
    let mut dealer = hand_of(vec![card("10", 10), card("8", 8)]);
    dealer.balance = 0;
    let outcome = determine_winner(&mut player, &mut dealer, 25);
    assert_eq!(outcome, Outcome::PlayerWins);
    assert_eq!(player.balance, 150);
    assert_eq!(player.total_value, 19);
    assert_eq!(dealer.total_value, 18);
    assert_eq!(dealer.balance, 0);
    assert_eq!(player.cards.len(), 2);
    assert_eq!(dealer.cards.len(), 2);
}

#[test]
fn push_leaves_the_balance() {
    let mut player = hand_of(vec![card("10", 10), card("9", 9)]);
    let mut dealer = hand_of(vec![card("Ace", 11), card("8", 8)]);
    assert_eq!(determine_winner(&mut player, &mut dealer, 25), Outcome::Push);
    assert_eq!(player.balance, 100);
}

#[test]
fn settlement_is_refused_where_the_balance_would_overflow() {
    let mut player = hand_of(vec![card("10", 10), card("9", 9)]);
    let dealer = hand_of(vec![card("10", 10), card("8", 8)]);
    assert!(can_settle(&player, &dealer, 50));
    player.balance = i32::MAX - 99;
    assert!(!can_settle(&player, &dealer, 50));
    assert!(can_settle(&player, &dealer, 49));
    player.balance = 0;
    assert!(!can_settle(&player, &dealer, 1 << 30));
    assert!(can_settle(&player, &dealer, (1 << 30) - 1));
    let loser = Player { cards: vec![card("5", 5)], total_value: 0, balance: i32::MIN + 10 };
    assert!(can_settle(&loser, &dealer, 10));
    assert!(!can_settle(&loser, &dealer, 11));
    let unsound = hand_of(vec![card("1", 1)]);
    assert!(!can_settle(&unsound, &dealer, 1));
    assert!(!can_settle(&dealer, &unsound, 1));
}

#[test]
fn amounts_are_read_as_the_standard_library_reads_them() {
    let samples = [
        "0", "7", "50", "+50", "-50", "007", "-0", "+0", "2147483647", "2147483648",
        "-2147483648", "-2147483649", "99999999999999999999", "", "+", "-", "+-5", "--5", "5-",
        "5 ", " 5", "5.0", "1_000", "0x10", "fifty", "٣", "５", "1e3", "\u{a0}5",
    ];
    for text in samples {
        assert_eq!(parse_amount(text), text.parse::<i32>().ok(), "{text:?}");
    }
}

#[test]
fn amounts_have_their_decimal_value() {
    assert_eq!(parse_amount("50"), Some(50));
    assert_eq!(parse_amount("-2147483648"), Some(i32::MIN));
    assert_eq!(parse_amount("2147483647"), Some(i32::MAX));
    assert_eq!(parse_amount("2147483648"), None);
    assert_eq!(parse_amount("12a"), None);
}

#[test]
fn bet_is_checked_against_the_balance() {
    assert_eq!(check_bet(100, Some(50)), BetCheck::Accepted(50));
    assert_eq!(check_bet(100, Some(100)), BetCheck::Accepted(100));
    assert_eq!(check_bet(100, Some(101)), BetCheck::ExceedsBalance);
    assert_eq!(check_bet(100, Some(0)), BetCheck::NonPositive);
    assert_eq!(check_bet(100, Some(-5)), BetCheck::NonPositive);
    assert_eq!(check_bet(100, None), BetCheck::NotANumber);
    assert_eq!(check_bet(-10, Some(-5)), BetCheck::ExceedsBalance);
    assert_eq!(check_bet(0, Some(0)), BetCheck::NonPositive);
}

#[test]
fn bet_is_read_from_a_line_of_input() {
    let player = hand_of(Vec::new());
    assert_eq!(place_bet(&player, "50\n"), BetCheck::Accepted(50));
    assert_eq!(place_bet(&player, "  100  \r\n"), BetCheck::Accepted(100));
    assert_eq!(place_bet(&player, "101\n"), BetCheck::ExceedsBalance);
    assert_eq!(place_bet(&player, "0\n"), BetCheck::NonPositive);
    assert_eq!(place_bet(&player, "-20\n"), BetCheck::NonPositive);
    assert_eq!(place_bet(&player, "ten\n"), BetCheck::NotANumber);
    assert_eq!(place_bet(&player, "\n"), BetCheck::NotANumber);
    assert_eq!(place_bet(&player, "5 0\n"), BetCheck::NotANumber);
}

#[test]
fn input_is_trimmed_and_lowered() {
    assert_eq!(normalize("  Hit \n"), "hit");
    assert_eq!(normalize("STAND"), "stand");
    assert_eq!(normalize("\tYes\r\n"), "yes");
    assert_eq!(normalize("h i t"), "h i t");
    assert_eq!(normalize(""), "");
}

#[test]
fn choice_is_read_whatever_the_case() {
    assert_eq!(parse_choice("hit\n"), Choice::Hit);
    assert_eq!(parse_choice("  HIT  \n"), Choice::Hit);
    assert_eq!(parse_choice("Stand\n"), Choice::Stand);
    assert_eq!(parse_choice("stay\n"), Choice::Invalid);
    assert_eq!(parse_choice("\n"), Choice::Invalid);
    assert_eq!(parse_choice("hit me\n"), Choice::Invalid);
}

#[test]
fn normalized_choice_is_matched_exactly() {
    assert_eq!(read_choice("hit"), Choice::Hit);
    assert_eq!(read_choice("stand"), Choice::Stand);
    assert_eq!(read_choice("Hit"), Choice::Invalid);
    assert_eq!(read_choice("hit "), Choice::Invalid);
    assert_eq!(read_choice("hi"), Choice::Invalid);
}

#[test]
fn answer_is_read_whatever_the_case() {
    assert_eq!(parse_answer("yes\n"), Answer::Yes);
    assert_eq!(parse_answer(" YES\n"), Answer::Yes);
    assert_eq!(parse_answer("No\n"), Answer::No);
    assert_eq!(parse_answer("y\n"), Answer::Other);
    assert_eq!(parse_answer("\n"), Answer::Other);
    assert_eq!(read_answer("yes"), Answer::Yes);
    assert_eq!(read_answer("no"), Answer::No);
    assert_eq!(read_answer("NO"), Answer::Other);
}

#[test]
fn turn_opens_awaiting_a_choice_below_twenty_one() {
    let mut player = hand_of(vec![card("10", 10), card("6", 6)]);
    assert_eq!(begin_player_turn(&mut player), TurnState::AwaitingChoice);
    assert_eq!(player.total_value, 16);
}

#[test]
fn turn_opens_stood_at_twenty_one() {
    let mut player = hand_of(vec![card("Ace", 11), card("King", 10)]);
    assert_eq!(begin_player_turn(&mut player), TurnState::Stood);
    assert_eq!(player.total_value, 21);
    let mut player = hand_of(vec![card("10", 10), card("King", 10), card("5", 5)]);
    assert_eq!(begin_player_turn(&mut player), TurnState::Stood);
    assert_eq!(player.total_value, 25);
}

#[test]
fn hit_deals_one_card_and_scores_again() {
    let mut deck = vec![card("King", 10), card("3", 3)];
    let mut player = hand_of(vec![card("10", 10), card("6", 6)]);
    let state = begin_player_turn(&mut player);
    let state = player_turn(&mut player, &mut deck, state, Choice::Hit);
    assert_eq!(state, TurnState::AwaitingChoice);
    assert_eq!(player.total_value, 19);
    assert_eq!(player.cards.len(), 3);
    assert_eq!(deck.len(), 1);
    let state = player_turn(&mut player, &mut deck, state, Choice::Hit);
    assert_eq!(state, TurnState::Busted);
    assert_eq!(player.total_value, 29);
    assert_eq!(deck.len(), 0);
}

#[test]
fn hit_to_twenty_one_ends_the_turn() {
    let mut deck = vec![card("5", 5)];
    let mut player = hand_of(vec![card("10", 10), card("6", 6)]);
    let state = begin_player_turn(&mut player);
    let state = player_turn(&mut player, &mut deck, state, Choice::Hit);
    assert_eq!(state, TurnState::Stood);
    assert_eq!(player.total_value, 21);
}

#[test]
fn stand_ends_the_turn_without_a_card() {
    let mut deck = vec![card("5", 5)];
    let mut player = hand_of(vec![card("10", 10), card("6", 6)]);
    let state = begin_player_turn(&mut player);
    let state = player_turn(&mut player, &mut deck, state, Choice::Stand);
    assert_eq!(state, TurnState::Stood);
    assert_eq!(player.total_value, 16);
    assert_eq!(player.cards.len(), 2);
    assert_eq!(deck.len(), 1);
}

#[test]
fn invalid_choice_changes_nothing() {
    let mut deck = vec![card("5", 5)];
    let mut player = hand_of(vec![card("10", 10), card("6", 6)]);
    let state = begin_player_turn(&mut player);
    let state = player_turn(&mut player, &mut deck, state, Choice::Invalid);
    assert_eq!(state, TurnState::AwaitingChoice);
    assert_eq!(player.cards.len(), 2);
    assert_eq!(deck.len(), 1);
}

#[test]
fn no_choice_counts_once_the_turn_is_over() {
    let mut deck = vec![card("5", 5)];
    let mut player = hand_of(vec![card("10", 10), card("6", 6)]);
    for state in [TurnState::Busted, TurnState::Stood] {
        for choice in [Choice::Hit, Choice::Stand, Choice::Invalid] {
            assert_eq!(player_turn(&mut player, &mut deck, state, choice), state);
            assert_eq!(player.cards.len(), 2);
            assert_eq!(deck.len(), 1);
        }
    }
}

#[test]
fn hit_on_an_empty_deck_leaves_the_hand() {
    let mut deck: Vec<Card> = Vec::new();
    let mut player = hand_of(vec![card("10", 10), card("6", 6)]);
    assert!(can_hit(&player, &deck));
    let state = player_turn(&mut player, &mut deck, TurnState::AwaitingChoice, Choice::Hit);
    assert_eq!(state, TurnState::AwaitingChoice);
    assert_eq!(player.cards.len(), 2);
    assert_eq!(player.total_value, 16);
}

#[test]
fn hit_is_refused_where_the_hand_could_not_be_scored() {
    let player = hand_of(vec![card("10", 10), card("6", 6)]);
    assert!(can_hit(&player, &vec![card("5", 5)]));
    assert!(!can_hit(&player, &vec![card("5", 5), card("12", 12)]));
    assert!(can_hit(&player, &vec![card("12", 12), card("5", 5)]));
    let unsound = hand_of(vec![card("1", 1)]);
    assert!(!can_hit(&unsound, &vec![card("5", 5)]));
    assert!(!can_hit(&unsound, &Vec::new()));
}

#[test]
fn opening_deals_two_cards_to_the_player_and_one_to_the_dealer() {
    let mut deck = vec![card("2", 2), card("3", 3), card("4", 4), card("5", 5), card("6", 6)];
    let mut player = hand_of(vec![card("King", 10), card("Queen", 10)]);
    let mut dealer = hand_of(vec![card("Jack", 10)]);
    deal_opening(&mut player, &mut dealer, &mut deck);
    assert_eq!(player.cards, vec![card("6", 6), card("5", 5)]);
    assert_eq!(player.total_value, 11);
    assert_eq!(dealer.cards, vec![card("Jack", 10), card("4", 4)]);
    assert_eq!(dealer.total_value, 14);
    assert_eq!(deck, vec![card("2", 2), card("3", 3)]);
}

#[test]
fn opening_from_a_short_deck_deals_what_there_is() {
    let mut deck = vec![card("2", 2)];
    let mut player = hand_of(vec![card("King", 10)]);
    let mut dealer = hand_of(Vec::new());
    deal_opening(&mut player, &mut dealer, &mut deck);
    assert_eq!(player.cards, vec![card("2", 2)]);
    assert_eq!(player.total_value, 2);
    assert_eq!(dealer.cards.len(), 0);
    assert_eq!(dealer.total_value, 0);
    assert_eq!(deck.len(), 0);
}

#[test]
fn round_starts_with_a_fresh_deck() {
    let mut player = Player {
        cards: vec![card("King", 10), card("Queen", 10), card("2", 2)],
        total_value: 22,
        balance: STARTING_BALANCE,
    };
    let mut dealer =
        Player { cards: vec![card("10", 10), card("7", 7)], total_value: 17, balance: 0 };
    assert!(can_start_round(&dealer));
    let deck = start_round(&mut player, &mut dealer);
    assert_eq!(deck.len(), 49);
    assert_eq!(player.cards.len(), 2);
    assert_eq!(dealer.cards.len(), 3);
    assert_eq!(dealer.cards[0], card("10", 10));
    assert_eq!(dealer.cards[1], card("7", 7));
    assert_eq!(player.balance, 100);
    assert_eq!(dealer.balance, 0);
    let expected = checked_hand_value(&player.cards);
    assert_eq!(Some(player.total_value), expected);
    assert_eq!(Some(dealer.total_value), checked_hand_value(&dealer.cards));
    let mut seen: Vec<(&str, &str)> = Vec::new();
    for c in deck.iter().chain(player.cards.iter()).chain(dealer.cards[2..].iter()) {
        assert!(!seen.contains(&(c.rank, c.suit)));
        seen.push((c.rank, c.suit));
    }
    assert_eq!(seen.len(), 52);
}

#[test]
fn round_cannot_start_with_an_unsound_dealer_hand() {
    assert!(can_start_round(&hand_of(Vec::new())));
    assert!(!can_start_round(&hand_of(vec![card("1", 1)])));
}

#[test]
fn session_ends_without_money() {
    let mut player = hand_of(Vec::new());
    assert!(!out_of_money(&player));
    player.balance = 1;
    assert!(!out_of_money(&player));
    player.balance = 0;
    assert!(out_of_money(&player));
    player.balance = -50;
    assert!(out_of_money(&player));
}

#[test]
fn starting_balance_is_one_hundred() {
    assert_eq!(STARTING_BALANCE, 100);
}
