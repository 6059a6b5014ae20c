//! The frame of a round: whether one can start, the opening deal, and
//! whether another follows.

use vstd::prelude::*;
use crate::card::{Card, CardView, DECK_SIZE};
use crate::deck::{
    create_shuffled_deck, deal_card, deck_after_deal, drawn, hand_after_deal, is_full_deck,
    lemma_full_deck_complete,
};
use crate::hand::{all_in_range, calculate_hand_value, raw_total, scorable, tally, Player};
use crate::text::{normalize, normalized, same_text};

verus! {

/// The balance a player sits down with.
pub const STARTING_BALANCE: i32 = 100;

/// An answer to a yes-or-no question.
#[derive(Clone, Copy, Debug, PartialEq, Eq, Structural)]
pub enum Answer {
    Yes,
    No,
    /// Neither of the two.
    Other,
}

/// The answer that a normalized line of input expresses.
pub open spec fn answer_of(line: Seq<char>) -> Answer {
    if line == "yes"@ {
        Answer::Yes
    } else if line == "no"@ {
        Answer::No
    } else {
        Answer::Other
    }
}

/// Reads an answer from a line of input that is already trimmed and in
/// lower case.
pub fn read_answer(line: &str) -> (answer: Answer)
    ensures
        answer == answer_of(line@),
{
    if same_text(line, "yes") {
        Answer::Yes
    } else if same_text(line, "no") {
        Answer::No
    } else {
        Answer::Other
    }
}

/// Reads an answer from a raw line of input: `yes` or `no`, in any case and
/// with any whitespace around it.
pub fn parse_answer(input: &str) -> (answer: Answer)
    ensures
        answer == answer_of(normalized(input@)),
{
    let line = normalize(input);
    read_answer(line.as_str())
}

/// Whether the player has nothing left to bet: the session ends before the
/// next round.
pub fn out_of_money(player: &Player) -> (broke: bool)
    ensures
        broke == (player@.balance <= 0),
{
    player.balance <= 0
}

/// Deals the opening of a round from `deck`: the player's hand is emptied
/// and gets two cards, then the dealer's hand, kept as it is, gets one; both
/// hands are scored.
pub fn deal_opening(player: &mut Player, dealer: &mut Player, deck: &mut Vec<Card>)
    requires
        scorable(drawn_up_to(old(deck).deep_view(), 2)),
        scorable(
            hand_after_deal(
                old(dealer)@.cards,
                deck_after_deal(deck_after_deal(old(deck).deep_view())),
            ),
        ),
    ensures
        final(player)@ == old(player)@.with_cards(drawn_up_to(old(deck).deep_view(), 2)).scored(),
        final(dealer)@ == old(dealer)@.with_cards(
            hand_after_deal(
                old(dealer)@.cards,
                deck_after_deal(deck_after_deal(old(deck).deep_view())),
            ),
        ).scored(),
        final(deck).deep_view() == deck_after_deal(
            deck_after_deal(deck_after_deal(old(deck).deep_view())),
        ),
{
    player.cards.clear();
    assert(player@.cards =~= Seq::<CardView>::empty());
    deal_card(player, deck);
    deal_card(player, deck);
    assert(player@.cards =~= drawn_up_to(old(deck).deep_view(), 2));
    deal_card(dealer, deck);
    calculate_hand_value(player);
    calculate_hand_value(dealer);
}

/// The first `k` cards dealt from `deck`, or all of them where it holds
/// fewer, in the order dealt.
pub open spec fn drawn_up_to(deck: Seq<CardView>, k: int) -> Seq<CardView> {
    if k <= deck.len() {
        drawn(deck, k)
    } else {
        drawn(deck, deck.len() as int)
    }
}

/// Whether a round can start for a dealer holding `cards`: they are worth 2
/// to 11 points each and can be scored with any one card added.
pub open spec fn round_ready(cards: Seq<CardView>) -> bool {
    all_in_range(cards) && raw_total(cards) + 11 <= i32::MAX
}

/// Whether a round can start: tells at run time what [`start_round`]
/// requires of the dealer's hand.
pub fn can_start_round(dealer: &Player) -> (ok: bool)
    ensures
        ok == round_ready(dealer@.cards),
{
    match tally(&dealer.cards) {
        Some((total, _)) => total <= i32::MAX - 11,
        None => false,
    }
}

/// Starts a round: shuffles a fresh deck, deals the opening from it and
/// returns what is left of the deck, 49 cards.
///
/// The player holds the two top cards of the new deck, the dealer the third
/// on top of what the dealer held before.
pub fn start_round(player: &mut Player, dealer: &mut Player) -> (deck: Vec<Card>)
    requires
        round_ready(old(dealer)@.cards),
    ensures
        deck.len() == DECK_SIZE - 3,
        exists|full: Seq<CardView>|
            {
                &&& #[trigger] is_full_deck(full)
                &&& full.len() == DECK_SIZE
                &&& final(player)@ == old(player)@.with_cards(drawn(full, 2)).scored()
                &&& final(dealer)@ == old(dealer)@.with_cards(
                    old(dealer)@.cards.push(full[DECK_SIZE - 3]),
                ).scored()
                &&& deck.deep_view() == full.take(DECK_SIZE - 3)
            },
{
    let mut deck = create_shuffled_deck();
    let ghost full = deck.deep_view();
    proof {
        lemma_full_deck_complete(full);
        let opening = drawn(full, 2);
        assert(opening.drop_last().drop_last() =~= Seq::<CardView>::empty());
        assert(opening[0].in_range() && opening[1].in_range());
        assert(raw_total(opening) <= 22) by {
            reveal_with_fuel(raw_total, 3);
        }
        let third = full[DECK_SIZE - 3];
        let dealt = dealer@.cards.push(third);
        assert(third.in_range());
        assert(deck_after_deal(deck_after_deal(full)).last() == third);
        assert(dealt.drop_last() =~= dealer@.cards);
        assert(all_in_range(dealt)) by {
            assert forall|i: int| 0 <= i < dealt.len() implies (#[trigger] dealt[i]).in_range() by {
                if i < dealer@.cards.len() {
                    assert(dealer@.cards[i].in_range());
                }
            }
        }
    }
    deal_opening(player, dealer, &mut deck);
    proof {
        assert(deck.deep_view() =~= full.take(DECK_SIZE - 3));
    }
    deck
}

} // verus!
