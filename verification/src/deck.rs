//! Building, shuffling and dealing from the deck.
//!
//! A deck is a `Vec<Card>` whose last element is the top card.

use vstd::prelude::*;
use vstd::seq_lib::{
    to_multiset_build, to_multiset_contains, to_multiset_insert, to_multiset_len,
    to_multiset_remove,
};
use rand::rngs::ThreadRng;
use rand::seq::SliceRandom;
use crate::card::{
    is_standard_card, lemma_rank_labels_distinct, lemma_standard_deck_distinct,
    lemma_suit_labels_distinct, rank_label, rank_points, standard_card, standard_deck, suit_label,
    Card, CardView, DECK_SIZE, RANKS, SUITS,
};
use crate::hand::{all_in_range, Player};

verus! {

/// `rand::rngs::ThreadRng`, the handle to the thread-local generator. Nothing
/// is known of its state.
#[verifier::external_type_specification]
#[verifier::external_body]
pub struct ExThreadRng(ThreadRng);

/// `rand::thread_rng` hands out the calling thread's generator, which the
/// operating system seeds on first use. Nothing is claimed of the generator
/// it returns.
pub assume_specification[ rand::thread_rng ]() -> (rng: ThreadRng);

/// `rand::seq::SliceRandom::shuffle` on the vector's slice. It walks the
/// slice from the back and swaps each position with a randomly chosen one at
/// or before it, so whatever the generator yields the vector ends up holding
/// the same items as before, each as often as before, in some order.
#[verifier::external_body]
fn shuffle_in_place<T>(items: &mut Vec<T>, rng: &mut ThreadRng)
    ensures
        final(items)@.to_multiset() == old(items)@.to_multiset(),
{
    items.shuffle(rng);
}

/// A complete deck in some order: the same cards as the standard deck, each
/// exactly as often.
pub open spec fn is_full_deck(cards: Seq<CardView>) -> bool {
    cards.to_multiset() == standard_deck().to_multiset()
}

/// A full deck holds 52 cards: each pairing of a rank with a suit once and no
/// pairing twice, every card with the points of its rank.
pub proof fn lemma_full_deck_complete(deck: Seq<CardView>)
    requires
        is_full_deck(deck),
    ensures
        deck.len() == 52,
        forall|r: int, s: int|
            0 <= r < 13 && 0 <= s < 4 ==> deck.contains(#[trigger] standard_card(r, s)),
        forall|i: int| 0 <= i < deck.len() ==> is_standard_card(#[trigger] deck[i]),
        forall|i: int, j: int|
            0 <= i < j < deck.len() ==> !((#[trigger] deck[i]).rank == (#[trigger] deck[j]).rank
                && deck[i].suit == deck[j].suit),
        all_in_range(deck),
{
    let standard = standard_deck();
    lemma_standard_deck_distinct();
    to_multiset_len(deck);
    to_multiset_len(standard);
    standard.lemma_multiset_has_no_duplicates();
    deck.lemma_multiset_has_no_duplicates_conv();
    assert forall|r: int, s: int| 0 <= r < 13 && 0 <= s < 4 implies deck.contains(
        #[trigger] standard_card(r, s),
    ) by {
        assert(standard[13 * s + r] == standard_card(r, s));
        to_multiset_contains(standard, standard_card(r, s));
        to_multiset_contains(deck, standard_card(r, s));
    }
    assert forall|i: int| 0 <= i < deck.len() implies is_standard_card(#[trigger] deck[i])
        && deck[i].in_range() by {
        to_multiset_contains(deck, deck[i]);
        to_multiset_contains(standard, deck[i]);
        let j = choose|j: int| 0 <= j < standard.len() && standard[j] == deck[i];
        assert(deck[i] == standard_card(j % 13, j / 13));
        assert(standard[j].in_range());
    }
    lemma_rank_labels_distinct();
    lemma_suit_labels_distinct();
    assert forall|i: int, j: int| 0 <= i < j < deck.len() implies !((#[trigger] deck[i]).rank
        == (#[trigger] deck[j]).rank && deck[i].suit == deck[j].suit) by {
        if deck[i].rank == deck[j].rank && deck[i].suit == deck[j].suit {
            assert(is_standard_card(deck[i]));
            assert(is_standard_card(deck[j]));
            let (r1, s1) = choose|r: int, s: int|
                0 <= r < 13 && 0 <= s < 4 && deck[i] == #[trigger] standard_card(r, s);
            let (r2, s2) = choose|r: int, s: int|
                0 <= r < 13 && 0 <= s < 4 && deck[j] == #[trigger] standard_card(r, s);
            assert(rank_label(r1)@ == rank_label(r2)@);
            assert(suit_label(s1)@ == suit_label(s2)@);
            assert(deck[i] == deck[j]);
        }
    }
}

/// The first `k` cards dealt from `deck`, in the order dealt: the top card
/// first.
pub open spec fn drawn(deck: Seq<CardView>, k: int) -> Seq<CardView> {
    Seq::new(k as nat, |i: int| deck[deck.len() - 1 - i])
}

/// Two sequences with the same elements keep the same elements when one
/// function is applied to every element of both.
pub proof fn lemma_map_values_to_multiset<A, B>(a: Seq<A>, b: Seq<A>, f: spec_fn(A) -> B)
    requires
        a.to_multiset() == b.to_multiset(),
    ensures
        a.map_values(f).to_multiset() == b.map_values(f).to_multiset(),
    decreases a.len(),
{
    to_multiset_len(a);
    to_multiset_len(b);
    if a.len() == 0 {
        assert(a.map_values(f) =~= b.map_values(f));
    } else {
        let x = a.last();
        assert(a.drop_last().push(x) =~= a);
        to_multiset_build(a.drop_last(), x);
        to_multiset_contains(b, x);
        let j = choose|j: int| 0 <= j < b.len() && b[j] == x;
        to_multiset_remove(b, j);
        assert(a.drop_last().to_multiset() =~= a.to_multiset().remove(x));
        lemma_map_values_to_multiset(a.drop_last(), b.remove(j), f);
        assert(a.map_values(f) =~= a.drop_last().map_values(f).push(f(x)));
        assert(b.map_values(f) =~= b.remove(j).map_values(f).insert(j, f(x)));
        to_multiset_build(a.drop_last().map_values(f), f(x));
        to_multiset_insert(b.remove(j).map_values(f), j, f(x));
    }
}

/// The label of the rank at position `r`.
fn rank_name(r: usize) -> (name: &'static str)
    requires
        r < RANKS,
    ensures
        name@ == rank_label(r as int)@,
{
    if r == 0 {
        "2"
    } else if r == 1 {
        "3"
    } else if r == 2 {
        "4"
    } else if r == 3 {
        "5"
    } else if r == 4 {
        "6"
    } else if r == 5 {
        "7"
    } else if r == 6 {
        "8"
    } else if r == 7 {
        "9"
    } else if r == 8 {
        "10"
    } else if r == 9 {
        "Jack"
    } else if r == 10 {
        "Queen"
    } else if r == 11 {
        "King"
    } else {
        "Ace"
    }
}

/// The label of the suit at position `s`.
fn suit_name(s: usize) -> (name: &'static str)
    requires
        s < SUITS,
    ensures
        name@ == suit_label(s as int)@,
{
    if s == 0 {
        "Hearts"
    } else if s == 1 {
        "Diamonds"
    } else if s == 2 {
        "Clubs"
    } else {
        "Spades"
    }
}

/// The points of the rank at position `r`.
fn rank_value(r: usize) -> (value: i32)
    requires
        r < RANKS,
    ensures
        value == rank_points(r as int),
{
    if r <= 8 {
        r as i32 + 2
    } else if r <= 11 {
        10
    } else {
        11
    }
}

/// Builds the 52 cards of a deck, one for each pairing of the 13 ranks with
/// the 4 suits, and shuffles them.
pub fn create_shuffled_deck() -> (deck: Vec<Card>)
    ensures
        deck.len() == DECK_SIZE,
        is_full_deck(deck.deep_view()),
{
    let mut deck: Vec<Card> = Vec::new();
    let mut s: usize = 0;
    while s < SUITS
        invariant
            s <= SUITS,
            deck.deep_view() =~= standard_deck().take(13 * s),
        decreases SUITS - s,
    {
        let mut r: usize = 0;
        while r < RANKS
            invariant
                s < SUITS,
                r <= RANKS,
                deck.deep_view() =~= standard_deck().take(13 * s + r),
            decreases RANKS - r,
        {
            let card = Card { rank: rank_name(r), suit: suit_name(s), value: rank_value(r) };
            assert(card@ == standard_card(r as int, s as int));
            assert(standard_deck()[13 * s + r] == standard_card(r as int, s as int));
            let ghost before = deck.deep_view();
            deck.push(card);
            assert(deck.deep_view() =~= before.push(standard_card(r as int, s as int)));
            r += 1;
        }
        s += 1;
    }
    assert(deck.deep_view() =~= standard_deck());
    let ghost ordered = deck@;
    let mut rng = rand::thread_rng();
    shuffle_in_place(&mut deck, &mut rng);
    proof {
        let face = |c: Card| c.deep_view();
        lemma_map_values_to_multiset(deck@, ordered, face);
        assert(deck@.map_values(face) =~= deck.deep_view());
        assert(ordered.map_values(face) =~= standard_deck());
        lemma_full_deck_complete(deck.deep_view());
    }
    deck
}

/// The hand after one deal from `deck`: the top card joins it, unless the
/// deck is empty.
pub open spec fn hand_after_deal(cards: Seq<CardView>, deck: Seq<CardView>) -> Seq<CardView> {
    if deck.len() > 0 {
        cards.push(deck.last())
    } else {
        cards
    }
}

/// The deck after one deal from it.
pub open spec fn deck_after_deal(deck: Seq<CardView>) -> Seq<CardView> {
    if deck.len() > 0 {
        deck.drop_last()
    } else {
        deck
    }
}

/// Moves the top card of `deck` to the end of `hand`'s cards. With an empty
/// deck nothing happens. The hand's cached score is left as it was.
pub fn deal_card(hand: &mut Player, deck: &mut Vec<Card>)
    ensures
        final(hand)@ == old(hand)@.with_cards(
            hand_after_deal(old(hand)@.cards, old(deck).deep_view()),
        ),
        final(deck).deep_view() == deck_after_deal(old(deck).deep_view()),
        old(deck).len() == 0 ==> {
            &&& final(deck).len() == 0
            &&& final(hand).cards.len() == old(hand).cards.len()
        },
        old(deck).len() > 0 ==> {
            &&& final(deck).len() == old(deck).len() - 1
            &&& final(hand).cards.len() == old(hand).cards.len() + 1
        },
{
    if let Some(card) = deck.pop() {
        hand.cards.push(card);
        assert(hand@.cards =~= old(hand)@.cards.push(old(deck).deep_view().last()));
        assert(deck.deep_view() =~= old(deck).deep_view().drop_last());
    } else {
        assert(deck.deep_view() =~= old(deck).deep_view());
    }
}

} // verus!
