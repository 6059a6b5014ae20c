//! A participant's hand and its score.

use vstd::prelude::*;
use crate::card::{Card, CardView};
use crate::text::same_text;

verus! {

/// A participant: the cards held, the score last computed for them, and the
/// money left to bet with.
///
/// `total_value` is a cache: scoring writes it, dealing leaves it stale.
pub struct Player {
    pub cards: Vec<Card>,
    pub total_value: i32,
    pub balance: i32,
}

/// The mathematical content of a [`Player`].
pub ghost struct PlayerView {
    pub cards: Seq<CardView>,
    pub total_value: int,
    pub balance: int,
}

impl View for Player {
    type V = PlayerView;

    open spec fn view(&self) -> PlayerView {
        PlayerView {
            cards: self.cards.deep_view(),
            total_value: self.total_value as int,
            balance: self.balance as int,
        }
    }
}

impl PlayerView {
    /// The participant once the hand has been scored: the cache holds the
    /// hand's value, nothing else has changed.
    pub open spec fn scored(self) -> PlayerView {
        PlayerView { total_value: hand_value(self.cards), ..self }
    }

    /// The participant holding `cards` instead. The cached score is not
    /// touched.
    pub open spec fn with_cards(self, cards: Seq<CardView>) -> PlayerView {
        PlayerView { cards, ..self }
    }
}

/// The sum of the cards' points, every Ace counted as 11.
pub open spec fn raw_total(cards: Seq<CardView>) -> int
    decreases cards.len(),
{
    if cards.len() == 0 {
        0
    } else {
        raw_total(cards.drop_last()) + cards.last().value
    }
}

/// Whether at least one of the cards is an Ace.
pub open spec fn has_ace(cards: Seq<CardView>) -> bool {
    exists|i: int| 0 <= i < cards.len() && (#[trigger] cards[i]).is_ace()
}

/// The score of a hand: the sum of its points, less 10 (once, however many
/// Aces there are) when the sum is over 21 and the hand holds an Ace.
pub open spec fn hand_value(cards: Seq<CardView>) -> int {
    if has_ace(cards) && raw_total(cards) > 21 {
        raw_total(cards) - 10
    } else {
        raw_total(cards)
    }
}

/// Every card counts for between 2 and 11 points.
pub open spec fn all_in_range(cards: Seq<CardView>) -> bool {
    forall|i: int| 0 <= i < cards.len() ==> (#[trigger] cards[i]).in_range()
}

/// The cards can be scored in 32 bits: each is worth 2 to 11 points and
/// their sum does not exceed `i32::MAX`.
pub open spec fn scorable(cards: Seq<CardView>) -> bool {
    all_in_range(cards) && raw_total(cards) <= i32::MAX
}

/// The sum of a prefix of cards in range lies between twice its length and
/// the sum of the whole.
pub proof fn lemma_raw_total_prefix(cards: Seq<CardView>, n: int)
    requires
        all_in_range(cards),
        0 <= n <= cards.len(),
    ensures
        2 * n <= raw_total(cards.take(n)) <= raw_total(cards),
        raw_total(cards.take(n)) <= 11 * n,
    decreases cards.len() - n,
{
    if n == cards.len() {
        assert(cards.take(n) =~= cards);
        lemma_raw_total_bounds(cards);
    } else {
        lemma_raw_total_prefix(cards, n + 1);
        assert(cards.take(n + 1).drop_last() =~= cards.take(n));
        assert(cards.take(n + 1).last() == cards[n]);
        assert(cards[n].in_range());
        lemma_raw_total_bounds(cards.take(n));
    }
}

/// The sum of `n` cards in range lies between `2 * n` and `11 * n`.
pub proof fn lemma_raw_total_bounds(cards: Seq<CardView>)
    requires
        all_in_range(cards),
    ensures
        2 * cards.len() <= raw_total(cards) <= 11 * cards.len(),
    decreases cards.len(),
{
    if cards.len() > 0 {
        assert(cards.last().in_range());
        lemma_raw_total_bounds(cards.drop_last());
    }
}

/// Taking one more card into account adds its points to the sum and finds an
/// Ace if there was one before or the card is one.
pub proof fn lemma_next_card(cards: Seq<CardView>, i: int)
    requires
        0 <= i < cards.len(),
    ensures
        raw_total(cards.take(i + 1)) == raw_total(cards.take(i)) + cards[i].value,
        has_ace(cards.take(i + 1)) == (has_ace(cards.take(i)) || cards[i].is_ace()),
{
    let before = cards.take(i);
    let after = cards.take(i + 1);
    assert(after.drop_last() =~= before);
    assert(after.last() == cards[i]);
    if has_ace(before) {
        let k = choose|k: int| 0 <= k < before.len() && (#[trigger] before[k]).is_ace();
        assert(after[k].is_ace());
    }
    if cards[i].is_ace() {
        assert(after[i].is_ace());
    }
    if has_ace(after) {
        let k = choose|k: int| 0 <= k < after.len() && (#[trigger] after[k]).is_ace();
        if k < i {
            assert(before[k].is_ace());
        }
    }
}

/// Scoring a hand that has just been scored changes nothing and finds the
/// same value.
pub proof fn lemma_scoring_is_idempotent(hand: PlayerView)
    ensures
        scorable(hand.scored().cards) == scorable(hand.cards),
        hand_value(hand.scored().cards) == hand_value(hand.cards),
        hand.scored().scored() == hand.scored(),
{
}

/// The score for a sum of points: 10 less for a sum over 21 where an Ace is
/// held, the sum itself otherwise.
pub(crate) fn soften(total: i32, ace: bool) -> (value: i32)
    requires
        0 <= total,
    ensures
        value == if ace && total > 21 {
            total - 10
        } else {
            total as int
        },
{
    if ace && total > 21 {
        total - 10
    } else {
        total
    }
}

/// Computes the score of `hand`, stores it in the hand's cache and returns it.
pub fn calculate_hand_value(hand: &mut Player) -> (total: i32)
    requires
        scorable(old(hand)@.cards),
    ensures
        total == hand_value(old(hand)@.cards),
        final(hand)@ == old(hand)@.scored(),
{
    let ghost cards = hand@.cards;
    let mut total_value: i32 = 0;
    let mut ace = false;
    let mut i: usize = 0;
    while i < hand.cards.len()
        invariant
            i <= hand.cards.len(),
            hand@.cards == cards,
            scorable(cards),
            total_value == raw_total(cards.take(i as int)),
            ace == has_ace(cards.take(i as int)),
        decreases hand.cards.len() - i,
    {
        proof {
            lemma_next_card(cards, i as int);
            lemma_raw_total_prefix(cards, i as int);
            lemma_raw_total_prefix(cards, i + 1);
        }
        total_value += hand.cards[i].value;
        if same_text(hand.cards[i].rank, "Ace") {
            ace = true;
        }
        i += 1;
    }
    assert(cards.take(i as int) =~= cards);
    if ace && total_value > 21 {
        total_value -= 10;
    }
    hand.total_value = total_value;
    total_value
}

/// Adds up the points of `cards` and notes whether an Ace is among them.
/// There is no result where the cards cannot be scored: a card is worth
/// less than 2 or more than 11, or the sum does not fit in 32 bits.
pub(crate) fn tally(cards: &Vec<Card>) -> (sums: Option<(i32, bool)>)
    ensures
        sums is Some <==> scorable(cards.deep_view()),
        sums matches Some((total, ace)) ==> total == raw_total(cards.deep_view()) && ace
            == has_ace(cards.deep_view()),
{
    let ghost all = cards.deep_view();
    let mut total: i32 = 0;
    let mut ace = false;
    let mut i: usize = 0;
    while i < cards.len()
        invariant
            i <= cards.len(),
            all == cards.deep_view(),
            all_in_range(all.take(i as int)),
            total == raw_total(all.take(i as int)),
            ace == has_ace(all.take(i as int)),
        decreases cards.len() - i,
    {
        let value = cards[i].value;
        proof {
            lemma_next_card(all, i as int);
            lemma_raw_total_bounds(all.take(i as int));
        }
        if value < 2 || value > 11 {
            assert(!all[i as int].in_range());
            return None;
        }
        if total > i32::MAX - value {
            proof {
                if all_in_range(all) {
                    lemma_raw_total_prefix(all, i + 1);
                }
            }
            return None;
        }
        total += value;
        if same_text(cards[i].rank, "Ace") {
            ace = true;
        }
        proof {
            let longer = all.take(i + 1);
            assert forall|k: int| 0 <= k < longer.len() implies (#[trigger] longer[k]).in_range(
            ) by {
                if k < i {
                    assert(all.take(i as int)[k].in_range());
                }
            }
        }
        i += 1;
    }
    assert(all.take(i as int) =~= all);
    Some((total, ace))
}

/// The score of `cards`, where they can be scored: every card worth between
/// 2 and 11 points and the sum within 32 bits.
pub fn checked_hand_value(cards: &Vec<Card>) -> (value: Option<i32>)
    ensures
        value is Some <==> scorable(cards.deep_view()),
        value matches Some(v) ==> v == hand_value(cards.deep_view()),
{
    match tally(cards) {
        Some((total, ace)) => {
            proof {
                lemma_raw_total_bounds(cards.deep_view());
            }
            Some(soften(total, ace))
        },
        None => None,
    }
}

} // verus!
