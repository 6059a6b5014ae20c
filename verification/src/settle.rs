//! Settling a round: who won, and what that does to the player's balance.

use vstd::prelude::*;
use crate::hand::{
    calculate_hand_value, checked_hand_value, hand_value, scorable, Player, PlayerView,
};

verus! {

/// The highest score that is not a bust.
pub const BLACKJACK: i32 = 21;

/// How a round ended for the player.
#[derive(Clone, Copy, Debug, PartialEq, Eq, Structural)]
pub enum Outcome {
    /// The player wins twice the bet.
    PlayerWins,
    /// A tie: the balance stays as it is.
    Push,
    /// The player loses the bet.
    DealerWins,
}

/// The outcome for two final scores. A player over 21 loses, whatever the
/// dealer holds: two equal scores over 21 are no tie. Otherwise the player
/// wins when the dealer is over 21 or has the lower score, ties on equal
/// scores, and loses to a higher one.
pub open spec fn outcome_of(player_total: int, dealer_total: int) -> Outcome {
    if player_total > BLACKJACK {
        Outcome::DealerWins
    } else if dealer_total > BLACKJACK || player_total > dealer_total {
        Outcome::PlayerWins
    } else if player_total == dealer_total {
        Outcome::Push
    } else {
        Outcome::DealerWins
    }
}

/// The balance after a round that ended in `outcome` with `bet` at stake.
pub open spec fn settled_balance(balance: int, bet: int, outcome: Outcome) -> int {
    match outcome {
        Outcome::PlayerWins => balance + 2 * bet,
        Outcome::Push => balance,
        Outcome::DealerWins => balance - bet,
    }
}

/// Whether settling `outcome` stays within 32 bits: the winnings and the new
/// balance for a win, the new balance for a loss.
pub open spec fn settlement_fits(balance: int, bet: int, outcome: Outcome) -> bool {
    match outcome {
        Outcome::PlayerWins => i32::MIN <= 2 * bet <= i32::MAX && i32::MIN <= balance + 2 * bet
            <= i32::MAX,
        Outcome::Push => true,
        Outcome::DealerWins => i32::MIN <= balance - bet <= i32::MAX,
    }
}

/// Whether a round can be settled for `bet`: both hands can be scored and
/// the outcome they give stays within 32 bits.
pub open spec fn settle_ready(player: PlayerView, dealer: PlayerView, bet: int) -> bool {
    &&& scorable(player.cards)
    &&& scorable(dealer.cards)
    &&& settlement_fits(
        player.balance,
        bet,
        outcome_of(hand_value(player.cards), hand_value(dealer.cards)),
    )
}

/// Decides the round from the two final scores: first whether the player
/// wins, then whether the scores tie at 21 or below; what is left goes to the
/// dealer.
pub fn decide_outcome(player_total: i32, dealer_total: i32) -> (outcome: Outcome)
    ensures
        outcome == outcome_of(player_total as int, dealer_total as int),
{
    if (player_total <= BLACKJACK && player_total > dealer_total) || (dealer_total > BLACKJACK
        && player_total <= BLACKJACK) {
        Outcome::PlayerWins
    } else if player_total == dealer_total && player_total <= BLACKJACK {
        Outcome::Push
    } else {
        Outcome::DealerWins
    }
}

/// Whether the round can be settled for `bet`: tells at run time what
/// [`determine_winner`] requires.
pub fn can_settle(player: &Player, dealer: &Player, bet: i32) -> (ok: bool)
    ensures
        ok == settle_ready(player@, dealer@, bet as int),
{
    let player_total = match checked_hand_value(&player.cards) {
        Some(total) => total,
        None => {
            return false;
        },
    };
    let dealer_total = match checked_hand_value(&dealer.cards) {
        Some(total) => total,
        None => {
            return false;
        },
    };
    let balance = player.balance as i64;
    let stake = bet as i64;
    let low = i32::MIN as i64;
    let high = i32::MAX as i64;
    match decide_outcome(player_total, dealer_total) {
        Outcome::PlayerWins => low <= 2 * stake && 2 * stake <= high && low <= balance + 2 * stake
            && balance + 2 * stake <= high,
        Outcome::Push => true,
        Outcome::DealerWins => low <= balance - stake && balance - stake <= high,
    }
}

/// Scores both hands, decides the round and settles `bet` against the
/// player's balance. Returns the outcome for the caller to report.
pub fn determine_winner(player: &mut Player, dealer: &mut Player, bet: i32) -> (outcome: Outcome)
    requires
        settle_ready(old(player)@, old(dealer)@, bet as int),
    ensures
        outcome == outcome_of(hand_value(old(player)@.cards), hand_value(old(dealer)@.cards)),
        final(player)@.balance == settled_balance(old(player)@.balance, bet as int, outcome),
        final(player)@.cards == old(player)@.cards,
        final(player)@.total_value == hand_value(old(player)@.cards),
        final(dealer)@ == old(dealer)@.scored(),
{
    let player_total = calculate_hand_value(player);
    let dealer_total = calculate_hand_value(dealer);
    let outcome = decide_outcome(player_total, dealer_total);
    match outcome {
        Outcome::PlayerWins => {
            let winnings = bet * 2;
            player.balance = player.balance + winnings;
        },
        Outcome::Push => {},
        Outcome::DealerWins => {
            player.balance = player.balance - bet;
        },
    }
    outcome
}

} // verus!
