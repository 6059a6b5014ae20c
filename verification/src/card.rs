//! Cards and the composition of the standard 52-card deck.

use vstd::prelude::*;

verus! {

/// A playing card: a rank label, a suit label and the points it counts for.
#[derive(Debug, PartialEq)]
pub struct Card {
    pub rank: &'static str,
    pub suit: &'static str,
    pub value: i32,
}

/// The mathematical content of a [`Card`]: the text of its labels and its points.
pub ghost struct CardView {
    pub rank: Seq<char>,
    pub suit: Seq<char>,
    pub value: int,
}

impl View for Card {
    type V = CardView;

    open spec fn view(&self) -> CardView {
        CardView { rank: self.rank@, suit: self.suit@, value: self.value as int }
    }
}

impl DeepView for Card {
    type V = CardView;

    open spec fn deep_view(&self) -> CardView {
        self@
    }
}

impl CardView {
    /// A card counts for between 2 and 11 points.
    pub open spec fn in_range(self) -> bool {
        2 <= self.value <= 11
    }

    /// Whether the card's rank is the Ace.
    pub open spec fn is_ace(self) -> bool {
        self.rank == "Ace"@
    }
}

/// Number of ranks in a suit.
pub const RANKS: usize = 13;

/// Number of suits in a deck.
pub const SUITS: usize = 4;

/// Number of cards in a full deck.
pub const DECK_SIZE: usize = 52;

/// The label of the `r`-th rank, counting from the deuce up to the Ace.
pub open spec fn rank_label(r: int) -> &'static str {
    if r == 0 {
        "2"
    } else if r == 1 {
        "3"
    } else if r == 2 {
        "4"
    } else if r == 3 {
        "5"
    } else if r == 4 {
        "6"
    } else if r == 5 {
        "7"
    } else if r == 6 {
        "8"
    } else if r == 7 {
        "9"
    } else if r == 8 {
        "10"
    } else if r == 9 {
        "Jack"
    } else if r == 10 {
        "Queen"
    } else if r == 11 {
        "King"
    } else {
        "Ace"
    }
}

/// The label of the `s`-th suit.
pub open spec fn suit_label(s: int) -> &'static str {
    if s == 0 {
        "Hearts"
    } else if s == 1 {
        "Diamonds"
    } else if s == 2 {
        "Clubs"
    } else {
        "Spades"
    }
}

/// The points of the `r`-th rank: face value for the numerals, 10 for the
/// court cards, 11 for the Ace.
pub open spec fn rank_points(r: int) -> int {
    if r <= 8 {
        r + 2
    } else if r <= 11 {
        10
    } else {
        11
    }
}

/// The card of rank `r` and suit `s`.
pub open spec fn standard_card(r: int, s: int) -> CardView {
    CardView { rank: rank_label(r)@, suit: suit_label(s)@, value: rank_points(r) }
}

/// The full deck in its factory order: suit by suit, each from the deuce to the Ace.
pub open spec fn standard_deck() -> Seq<CardView> {
    Seq::new(DECK_SIZE as nat, |i: int| standard_card(i % 13, i / 13))
}

/// Whether `card` is one of the 52 cards of the standard deck.
pub open spec fn is_standard_card(card: CardView) -> bool {
    exists|r: int, s: int| 0 <= r < 13 && 0 <= s < 4 && card == #[trigger] standard_card(r, s)
}

/// No two ranks share a label.
pub proof fn lemma_rank_labels_distinct()
    ensures
        forall|a: int, b: int|
            0 <= a < 13 && 0 <= b < 13 && (#[trigger] rank_label(a))@ == (#[trigger] rank_label(
                b,
            ))@ ==> a == b,
{
    reveal_strlit("2");
    reveal_strlit("3");
    reveal_strlit("4");
    reveal_strlit("5");
    reveal_strlit("6");
    reveal_strlit("7");
    reveal_strlit("8");
    reveal_strlit("9");
    reveal_strlit("10");
    reveal_strlit("Jack");
    reveal_strlit("Queen");
    reveal_strlit("King");
    reveal_strlit("Ace");
    assert forall|a: int, b: int|
        0 <= a < 13 && 0 <= b < 13 && (#[trigger] rank_label(a))@ == (#[trigger] rank_label(
            b,
        ))@ implies a == b by {
        let x = rank_label(a)@;
        let y = rank_label(b)@;
        assert(x.len() == y.len());
        assert(x[0] == y[0]);
    }
}

/// No two suits share a label.
pub proof fn lemma_suit_labels_distinct()
    ensures
        forall|a: int, b: int|
            0 <= a < 4 && 0 <= b < 4 && (#[trigger] suit_label(a))@ == (#[trigger] suit_label(
                b,
            ))@ ==> a == b,
{
    reveal_strlit("Hearts");
    reveal_strlit("Diamonds");
    reveal_strlit("Clubs");
    reveal_strlit("Spades");
    assert forall|a: int, b: int|
        0 <= a < 4 && 0 <= b < 4 && (#[trigger] suit_label(a))@ == (#[trigger] suit_label(
            b,
        ))@ implies a == b by {
        let x = suit_label(a)@;
        let y = suit_label(b)@;
        assert(x[0] == y[0]);
    }
}

/// The standard deck holds no card twice, and each of its cards is worth
/// between 2 and 11 points.
pub proof fn lemma_standard_deck_distinct()
    ensures
        standard_deck().len() == 52,
        standard_deck().no_duplicates(),
        forall|i: int| 0 <= i < 52 ==> (#[trigger] standard_deck()[i]).in_range(),
{
    lemma_rank_labels_distinct();
    lemma_suit_labels_distinct();
    let deck = standard_deck();
    assert forall|i: int, j: int|
        0 <= i < deck.len() && 0 <= j < deck.len() && i != j implies deck[i] != deck[j] by {
        if deck[i] == deck[j] {
            assert(rank_label(i % 13)@ == rank_label(j % 13)@);
            assert(suit_label(i / 13)@ == suit_label(j / 13)@);
            assert(i % 13 == j % 13);
            assert(i / 13 == j / 13);
        }
    }
}

} // verus!
