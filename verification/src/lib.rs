//! Rules engine for a single-player game of Blackjack against a dealer.
//!
//! The crate models cards, a shuffled deck, hands, scoring with the soft-Ace
//! rule, the player's and the dealer's turns, betting and settlement. Every
//! function carries a contract that Verus proves; the few calls into `rand`
//! and into unspecified parts of `std` sit behind small trusted wrappers.

pub mod bet;
pub mod card;
pub mod dealer;
pub mod deck;
pub mod hand;
pub mod round;
pub mod settle;
pub mod text;
pub mod turn;

pub use crate::bet::{check_bet, parse_amount, place_bet, BetCheck};
pub use crate::card::{Card, CardView};
pub use crate::dealer::{dealer_can_play, dealer_turn};
pub use crate::deck::{create_shuffled_deck, deal_card};
pub use crate::hand::{calculate_hand_value, checked_hand_value, Player, PlayerView};
pub use crate::round::{
    can_start_round, deal_opening, out_of_money, parse_answer, read_answer, start_round, Answer,
    STARTING_BALANCE,
};
pub use crate::settle::{can_settle, decide_outcome, determine_winner, Outcome};
pub use crate::text::normalize;
pub use crate::turn::{
    begin_player_turn, can_hit, parse_choice, player_turn, read_choice, Choice, TurnState,
};
