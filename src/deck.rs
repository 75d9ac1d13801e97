use vstd::prelude::*;
use rand::seq::SliceRandom;
use crate::card::{suit_at, Card, Rank, Suit, MAX_RANK};

verus! {

/// The number of cards in a full deck.
pub const DECK_SIZE: usize = 52;

/// Card `i` of a fresh deck: ranks ascend, and within a rank the suits follow
/// the order Spades, Hearts, Diamonds, Clubs.
pub open spec fn standard_card(i: int) -> Card {
    Card { suit: suit_at(i % 4), rank: (i / 4 + 1) as u8 }
}

/// A fresh, unshuffled deck.
pub open spec fn standard_order() -> Seq<Card> {
    Seq::new(DECK_SIZE as nat, |i: int| standard_card(i))
}


/// The 52 cards of a fresh deck are pairwise distinct.
pub proof fn lemma_standard_order_distinct()
    ensures
        standard_order().no_duplicates(),
{
    assert forall|i: int, j: int|
        0 <= i < DECK_SIZE && 0 <= j < DECK_SIZE && i != j implies #[trigger] standard_order()[i]
        != #[trigger] standard_order()[j] by {
        if standard_card(i) == standard_card(j) {
            assert(i % 4 == j % 4);
            assert(i / 4 == j / 4);
        }
    }
}

/// Relies on rand's `SliceRandom::shuffle`, driven by the thread-local generator:
/// it only swaps elements, so the result is a permutation of the input.
#[verifier::external_body]
fn shuffle_cards(cards: &mut Vec<Card>)
    ensures
        final(cards)@.to_multiset() == old(cards)@.to_multiset(),
{
    cards.shuffle(&mut rand::thread_rng());
}

/// A deck of the 52 distinct cards, in some order.
pub struct Deck {
    cards: Vec<Card>,
}

impl View for Deck {
    type V = Seq<Card>;

    closed spec fn view(&self) -> Seq<Card> {
        self.cards@
    }
}

impl Deck {
    /// The deck holds the standard 52 cards, each once, in any order.
    pub open spec fn wf(&self) -> bool {
        self@.to_multiset() == standard_order().to_multiset()
    }

    pub proof fn lemma_wf(&self)
        requires
            self.wf(),
        ensures
            self@.len() == DECK_SIZE,
            forall|i: int| 0 <= i < self@.len() ==> (#[trigger] self@[i]).valid(),
    {
        broadcast use vstd::seq_lib::to_multiset_len, vstd::seq_lib::to_multiset_contains;

        assert(self@.len() == self@.to_multiset().len());
        assert(standard_order().len() == standard_order().to_multiset().len());
        assert forall|i: int| 0 <= i < self@.len() implies (#[trigger] self@[i]).valid() by {
            let c = self@[i];
            assert(self@.contains(c));
            assert(self@.to_multiset().count(c) > 0);
            assert(standard_order().contains(c));
            let j = choose|j: int| 0 <= j < standard_order().len() && standard_order()[j] == c;
            assert(c == standard_card(j));
        }
    }

    /// A fresh deck in the standard order.
    pub fn new() -> (r: Deck)
        ensures
            r@ == standard_order(),
            r.wf(),
    {
        let mut cards: Vec<Card> = Vec::new();
        let mut rank: Rank = 1;
        while rank <= MAX_RANK
            invariant
                1 <= rank <= MAX_RANK + 1,
                cards@ =~= standard_order().take(4 * (rank - 1)),
            decreases MAX_RANK + 1 - rank,
        {
            let ghost base: int = 4 * (rank - 1);
            cards.push(Card { rank, suit: Suit::Spades });
            cards.push(Card { rank, suit: Suit::Hearts });
            cards.push(Card { rank, suit: Suit::Diamonds });
            cards.push(Card { rank, suit: Suit::Clubs });
            assert forall|k: int| 0 <= k < 4 implies #[trigger] standard_card(base + k) == cards@[base + k] by {
                assert((base + k) % 4 == k && (base + k) / 4 == rank - 1) by (nonlinear_arith)
                    requires
                        base == 4 * (rank - 1),
                        0 <= k < 4,
                ;
            }
            rank = rank + 1;
            assert(cards@ =~= standard_order().take(4 * (rank - 1)));
        }
        assert(cards@ =~= standard_order());
        Deck { cards }
    }

    /// Puts the cards in a random order.
    pub fn shuffle(&mut self)
        requires
            old(self).wf(),
        ensures
            final(self).wf(),
            final(self)@.to_multiset() == old(self)@.to_multiset(),
    {
        shuffle_cards(&mut self.cards);
    }

    pub fn len(&self) -> (r: usize)
        ensures
            r == self@.len(),
    {
        self.cards.len()
    }

    /// The card at position `index`; the deck itself is left as it is.
    pub fn deal(&self, index: usize) -> (r: Card)
        requires
            index < self@.len(),
        ensures
            r == self@[index as int],
    {
        self.cards[index]
    }
}

} // verus!
