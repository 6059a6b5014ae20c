//! The dealer's fixed strategy: draw until the hand is worth 17 or more.

use vstd::prelude::*;
use crate::card::{Card, CardView};
use crate::deck::{deal_card, drawn};
use crate::hand::{
    all_in_range, calculate_hand_value, hand_value, has_ace, lemma_next_card,
    lemma_raw_total_bounds, raw_total, soften, tally, Player,
};
use crate::text::same_text;

verus! {

/// The score from which the dealer draws no more.
pub const DEALER_STANDS_AT: i32 = 17;

/// Whether a dealer holding `cards` reaches 17 by drawing from `deck` before
/// the deck runs out.
pub open spec fn dealer_can_finish(cards: Seq<CardView>, deck: Seq<CardView>) -> bool {
    exists|k: int|
        0 <= k <= deck.len() && hand_value(cards + #[trigger] drawn(deck, k)) >= DEALER_STANDS_AT
}

/// Whether the dealer's turn can be played with `cards` in hand and `deck`
/// to draw from: every card is worth 2 to 11 points, all of them together
/// can be added up in 32 bits, and the dealer reaches 17 before the deck runs
/// out.
pub open spec fn dealer_ready(cards: Seq<CardView>, deck: Seq<CardView>) -> bool {
    &&& all_in_range(cards)
    &&& all_in_range(deck)
    &&& raw_total(cards) + raw_total(deck) <= i32::MAX
    &&& dealer_can_finish(cards, deck)
}

/// Whether a dealer holding `cards` draws exactly `n` cards from `deck`: the
/// hand is worth 17 or more with them and less than 17 with any fewer.
pub open spec fn dealer_draws(cards: Seq<CardView>, deck: Seq<CardView>, n: int) -> bool {
    &&& 0 <= n <= deck.len()
    &&& hand_value(cards + drawn(deck, n)) >= DEALER_STANDS_AT
    &&& forall|j: int|
        0 <= j < n ==> hand_value(cards + #[trigger] drawn(deck, j)) < DEALER_STANDS_AT
}

/// The points of two runs of cards add up.
pub proof fn lemma_raw_total_concat(a: Seq<CardView>, b: Seq<CardView>)
    ensures
        raw_total(a + b) == raw_total(a) + raw_total(b),
    decreases b.len(),
{
    if b.len() == 0 {
        assert(a + b =~= a);
    } else {
        lemma_raw_total_concat(a, b.drop_last());
        assert((a + b).drop_last() =~= a + b.drop_last());
    }
}

/// A dealer whose deck holds enough cards to bring the hand's points to 27
/// reaches 17 whatever the cards are: a card is worth at least 2, and an Ace
/// takes off 10 at most.
pub proof fn lemma_deck_suffices(cards: Seq<CardView>, deck: Seq<CardView>)
    requires
        all_in_range(cards),
        all_in_range(deck),
        raw_total(cards) + 2 * deck.len() >= 27,
    ensures
        dealer_can_finish(cards, deck),
{
    let all = drawn(deck, deck.len() as int);
    assert forall|i: int| 0 <= i < all.len() implies (#[trigger] all[i]).in_range() by {
        assert(deck[deck.len() - 1 - i].in_range());
    }
    lemma_raw_total_bounds(all);
    lemma_raw_total_concat(cards, all);
}

/// The points of the first `k` cards dealt and of those left in the deck
/// add up to the points of the deck.
pub proof fn lemma_drawn_total(deck: Seq<CardView>, k: int)
    requires
        0 <= k <= deck.len(),
    ensures
        raw_total(drawn(deck, k)) + raw_total(deck.take(deck.len() - k)) == raw_total(deck),
    decreases k,
{
    if k == 0 {
        assert(deck.take(deck.len() - 0) =~= deck);
        assert(drawn(deck, 0) =~= Seq::<CardView>::empty());
    } else {
        lemma_drawn_total(deck, k - 1);
        let shorter = deck.take(deck.len() - (k - 1));
        assert(drawn(deck, k).drop_last() =~= drawn(deck, k - 1));
        assert(shorter.drop_last() =~= deck.take(deck.len() - k));
        assert(drawn(deck, k).last() == shorter.last());
    }
}

/// Whether the dealer's turn can be played: tells at run time what
/// [`dealer_turn`] requires.
pub fn dealer_can_play(dealer: &Player, deck: &Vec<Card>) -> (ok: bool)
    ensures
        ok == dealer_ready(dealer@.cards, deck.deep_view()),
{
    let ghost cards0 = dealer@.cards;
    let ghost deck0 = deck.deep_view();
    let (hand_total, hand_ace) = match tally(&dealer.cards) {
        Some(sums) => sums,
        None => {
            proof {
                if all_in_range(cards0) && all_in_range(deck0) {
                    lemma_raw_total_bounds(deck0);
                }
            }
            return false;
        },
    };
    let deck_total = match tally(deck) {
        Some(sums) => sums.0,
        None => {
            proof {
                if all_in_range(cards0) && all_in_range(deck0) {
                    lemma_raw_total_bounds(cards0);
                }
            }
            return false;
        },
    };
    proof {
        lemma_raw_total_bounds(cards0);
        lemma_raw_total_bounds(deck0);
    }
    if hand_total > i32::MAX - deck_total {
        return false;
    }
    let mut total: i32 = hand_total;
    let mut ace = hand_ace;
    let mut k: usize = 0;
    proof {
        assert(cards0 + drawn(deck0, 0) =~= cards0);
    }
    loop
        invariant
            k <= deck.len(),
            cards0 == dealer@.cards,
            deck0 == deck.deep_view(),
            all_in_range(cards0),
            all_in_range(deck0),
            raw_total(cards0) + raw_total(deck0) <= i32::MAX,
            0 <= total == raw_total(cards0 + drawn(deck0, k as int)),
            ace == has_ace(cards0 + drawn(deck0, k as int)),
            forall|j: int|
                0 <= j < k ==> hand_value(cards0 + #[trigger] drawn(deck0, j)) < DEALER_STANDS_AT,
        decreases deck.len() - k,
    {
        if soften(total, ace) >= DEALER_STANDS_AT {
            return true;
        }
        if k == deck.len() {
            return false;
        }
        let card = &deck[deck.len() - 1 - k];
        proof {
            let now = cards0 + drawn(deck0, k as int);
            let next = cards0 + drawn(deck0, k + 1);
            let held = now.len() as int;
            assert(next.take(held) =~= now);
            assert(next.take(held + 1) =~= next);
            assert(next[held] == card@);
            lemma_next_card(next, held);
            lemma_raw_total_concat(cards0, drawn(deck0, k + 1));
            lemma_drawn_total(deck0, k + 1);
            lemma_raw_total_bounds(deck0.take(deck0.len() - (k + 1)));
        }
        total += card.value;
        if same_text(card.rank, "Ace") {
            ace = true;
        }
        k += 1;
    }
}

/// Plays the dealer's turn: scores the hand and, as long as it is worth less
/// than 17, deals it the top card of the deck and scores it again.
///
/// The deck must hold enough cards for the dealer to reach 17: a deal from an
/// empty deck changes nothing, so without them the turn would never end.
pub fn dealer_turn(dealer_hand: &mut Player, deck: &mut Vec<Card>)
    requires
        dealer_ready(old(dealer_hand)@.cards, old(deck).deep_view()),
    ensures
        dealer_draws(
            old(dealer_hand)@.cards,
            old(deck).deep_view(),
            final(dealer_hand).cards.len() - old(dealer_hand).cards.len(),
        ),
        final(dealer_hand)@.cards == old(dealer_hand)@.cards + drawn(
            old(deck).deep_view(),
            final(dealer_hand).cards.len() - old(dealer_hand).cards.len(),
        ),
        final(deck).deep_view() == old(deck).deep_view().take(
            old(deck).len() - (final(dealer_hand).cards.len() - old(dealer_hand).cards.len()),
        ),
        final(dealer_hand)@.total_value == hand_value(final(dealer_hand)@.cards),
        final(dealer_hand)@.total_value >= DEALER_STANDS_AT,
        final(dealer_hand)@.balance == old(dealer_hand)@.balance,
        hand_value(old(dealer_hand)@.cards) >= DEALER_STANDS_AT ==> final(dealer_hand)@.cards
            == old(dealer_hand)@.cards && final(deck).deep_view() == old(deck).deep_view(),
{
    let ghost cards0 = dealer_hand@.cards;
    let ghost deck0 = deck.deep_view();
    let ghost mut n: int = 0;
    proof {
        assert(drawn(deck0, 0) =~= Seq::<CardView>::empty());
        assert(cards0 + drawn(deck0, 0) =~= cards0);
        assert(deck0.take(deck0.len() - 0) =~= deck0);
        lemma_raw_total_bounds(deck0);
    }
    let mut total_value = calculate_hand_value(dealer_hand);
    while total_value < DEALER_STANDS_AT
        invariant
            0 <= n <= deck0.len(),
            n == dealer_hand.cards.len() - old(dealer_hand).cards.len(),
            deck.len() == deck0.len() - n,
            dealer_hand@.cards == cards0 + drawn(deck0, n),
            deck.deep_view() == deck0.take(deck0.len() - n),
            forall|j: int|
                0 <= j < n ==> hand_value(cards0 + #[trigger] drawn(deck0, j)) < DEALER_STANDS_AT,
            dealer_hand@.total_value == hand_value(dealer_hand@.cards),
            dealer_hand@.balance == old(dealer_hand)@.balance,
            total_value == dealer_hand@.total_value,
            all_in_range(dealer_hand@.cards),
            all_in_range(deck.deep_view()),
            raw_total(dealer_hand@.cards) + raw_total(deck.deep_view()) <= i32::MAX,
            0 <= raw_total(deck.deep_view()),
            dealer_can_finish(cards0, deck0),
            cards0 == old(dealer_hand)@.cards,
            deck0 == old(deck).deep_view(),
        decreases deck.len(),
    {
        proof {
            let k = choose|k: int|
                0 <= k <= deck0.len() && hand_value(cards0 + #[trigger] drawn(deck0, k))
                    >= DEALER_STANDS_AT;
            assert(k > n);
        }
        let ghost hand_before = dealer_hand@.cards;
        let ghost deck_before = deck.deep_view();
        deal_card(dealer_hand, deck);
        proof {
            let top = deck_before.last();
            assert(top == deck0[deck0.len() - 1 - n]);
            assert(top.in_range());
            assert(hand_before.push(top).drop_last() =~= hand_before);
            assert(cards0 + drawn(deck0, n + 1) =~= hand_before.push(top));
            assert(deck_before.drop_last() =~= deck0.take(deck0.len() - (n + 1)));
            lemma_raw_total_bounds(deck_before.drop_last());
            n = n + 1;
        }
        total_value = calculate_hand_value(dealer_hand);
    }
}

} // verus!
