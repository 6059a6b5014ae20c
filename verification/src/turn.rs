//! The player's turn as a state machine driven by the player's choices.
//!
//! The caller owns the conversation: it shows the hand, asks for a line of
//! input while the state is [`TurnState::AwaitingChoice`], and feeds each
//! answer to [`player_turn`].

use vstd::prelude::*;
use crate::card::Card;
use crate::deck::{deal_card, deck_after_deal, hand_after_deal};
use crate::hand::{all_in_range, calculate_hand_value, hand_value, scorable, tally, Player};
use crate::settle::BLACKJACK;
use crate::text::{normalize, normalized, same_text};

verus! {

/// What the player asked for.
#[derive(Clone, Copy, Debug, PartialEq, Eq, Structural)]
pub enum Choice {
    /// Take another card.
    Hit,
    /// Take no more cards.
    Stand,
    /// Anything else: the question is asked again.
    Invalid,
}

/// Where the player's turn stands.
#[derive(Clone, Copy, Debug, PartialEq, Eq, Structural)]
pub enum TurnState {
    /// The hand is worth less than 21 and the player has yet to stand.
    AwaitingChoice,
    /// A hit took the hand over 21. The turn is over.
    Busted,
    /// The player stood, or the hand reached 21. The turn is over.
    Stood,
}

/// The choice that a normalized line of input expresses.
pub open spec fn choice_of(line: Seq<char>) -> Choice {
    if line == "hit"@ {
        Choice::Hit
    } else if line == "stand"@ {
        Choice::Stand
    } else {
        Choice::Invalid
    }
}

/// The state in which a turn starts, or goes on after a hit that did not
/// bust: with 21 or more there is nothing left to choose.
pub open spec fn entry_state(total: int) -> TurnState {
    if total >= BLACKJACK {
        TurnState::Stood
    } else {
        TurnState::AwaitingChoice
    }
}

/// The state after a hit that brought the hand to `total`.
pub open spec fn state_after_hit(total: int) -> TurnState {
    if total > BLACKJACK {
        TurnState::Busted
    } else {
        entry_state(total)
    }
}

/// Reads the player's choice from a line of input that is already trimmed
/// and in lower case.
pub fn read_choice(line: &str) -> (choice: Choice)
    ensures
        choice == choice_of(line@),
{
    if same_text(line, "hit") {
        Choice::Hit
    } else if same_text(line, "stand") {
        Choice::Stand
    } else {
        Choice::Invalid
    }
}

/// Reads the player's choice from a raw line of input: `hit` or `stand`, in
/// any case and with any whitespace around it.
pub fn parse_choice(input: &str) -> (choice: Choice)
    ensures
        choice == choice_of(normalized(input@)),
{
    let line = normalize(input);
    read_choice(line.as_str())
}

/// Opens the player's turn: scores the hand and says whether there is a
/// choice to make.
pub fn begin_player_turn(player: &mut Player) -> (state: TurnState)
    requires
        scorable(old(player)@.cards),
    ensures
        final(player)@ == old(player)@.scored(),
        state == entry_state(hand_value(old(player)@.cards)),
{
    let total_value = calculate_hand_value(player);
    if total_value >= BLACKJACK {
        TurnState::Stood
    } else {
        TurnState::AwaitingChoice
    }
}

/// Whether the player can take a hit: tells at run time what
/// [`player_turn`] requires for one, that the hand can be scored with the top
/// card of the deck added to it.
pub fn can_hit(player: &Player, deck: &Vec<Card>) -> (ok: bool)
    ensures
        ok == scorable(hand_after_deal(player@.cards, deck.deep_view())),
{
    let ghost cards = player@.cards;
    let ghost dealt = hand_after_deal(cards, deck.deep_view());
    proof {
        if deck.len() > 0 {
            assert(dealt.drop_last() =~= cards);
            if all_in_range(dealt) {
                assert forall|i: int| 0 <= i < cards.len() implies (#[trigger] cards[i]).in_range(
                ) by {
                    assert(dealt[i].in_range());
                }
                assert(dealt.last().in_range());
            }
            if all_in_range(cards) && deck.deep_view().last().in_range() {
                assert forall|i: int| 0 <= i < dealt.len() implies (#[trigger] dealt[i]).in_range(
                ) by {
                    if i < cards.len() {
                        assert(cards[i].in_range());
                    }
                }
            }
        }
    }
    match tally(&player.cards) {
        Some((total, _)) => {
            if deck.len() == 0 {
                true
            } else {
                let value = deck[deck.len() - 1].value;
                2 <= value && value <= 11 && total <= i32::MAX - value
            }
        },
        None => false,
    }
}

/// Advances the player's turn by one choice.
///
/// While a choice is awaited, a hit deals one card and scores the hand again:
/// over 21 the player is bust, at 21 the turn ends, below 21 the next choice
/// is awaited. A stand ends the turn. An invalid choice changes nothing.
/// Once the turn is over no choice has any effect.
pub fn player_turn(
    player_hand: &mut Player,
    deck: &mut Vec<Card>,
    state: TurnState,
    choice: Choice,
) -> (next: TurnState)
    requires
        state == TurnState::AwaitingChoice && choice == Choice::Hit ==> scorable(
            hand_after_deal(old(player_hand)@.cards, old(deck).deep_view()),
        ),
    ensures
        state == TurnState::AwaitingChoice && choice == Choice::Hit ==> {
            let cards = hand_after_deal(old(player_hand)@.cards, old(deck).deep_view());
            &&& final(player_hand)@ == old(player_hand)@.with_cards(cards).scored()
            &&& final(deck).deep_view() == deck_after_deal(old(deck).deep_view())
            &&& next == state_after_hit(hand_value(cards))
        },
        state == TurnState::AwaitingChoice && choice == Choice::Stand ==> {
            &&& final(player_hand)@ == old(player_hand)@
            &&& final(deck).deep_view() == old(deck).deep_view()
            &&& next == TurnState::Stood
        },
        state != TurnState::AwaitingChoice || choice == Choice::Invalid ==> {
            &&& final(player_hand)@ == old(player_hand)@
            &&& final(deck).deep_view() == old(deck).deep_view()
            &&& next == state
        },
{
    match state {
        TurnState::AwaitingChoice => match choice {
            Choice::Hit => {
                deal_card(player_hand, deck);
                let total_value = calculate_hand_value(player_hand);
                if total_value > BLACKJACK {
                    TurnState::Busted
                } else if total_value >= BLACKJACK {
                    TurnState::Stood
                } else {
                    TurnState::AwaitingChoice
                }
            },
            Choice::Stand => TurnState::Stood,
            Choice::Invalid => TurnState::AwaitingChoice,
        },
        TurnState::Busted => TurnState::Busted,
        TurnState::Stood => TurnState::Stood,
    }
}

} // verus!
