use vstd::prelude::*;
use crate::card::{Card, Rank, Suit, MAX_RANK};

verus! {

/// The cards of a foundation of suit `suit` whose top rank is `top`: ranks 1..=top in order.
pub open spec fn foundation_cards(suit: Suit, top: nat) -> Seq<Card> {
    Seq::new(top, |i: int| Card { suit, rank: (i + 1) as u8 })
}

/// A per-suit pile that must be filled from rank 1 up to rank 13 in order.
pub struct Foundation {
    suit: Suit,
    top_rank: Option<Rank>,
}

impl Foundation {
    pub closed spec fn suit_spec(&self) -> Suit {
        self.suit
    }

    /// The rank of the top card, 0 when the foundation is empty.
    pub closed spec fn height(&self) -> nat {
        match self.top_rank {
            None => 0,
            Some(r) => r as nat,
        }
    }

    pub closed spec fn wf(&self) -> bool {
        match self.top_rank {
            None => true,
            Some(r) => 1 <= r <= MAX_RANK,
        }
    }

    /// The cards the foundation holds, from the bottom up.
    pub open spec fn view(&self) -> Seq<Card> {
        foundation_cards(self.suit_spec(), self.height())
    }

    pub open spec fn accepts(&self, card: Card) -> bool {
        card.suit == self.suit_spec() && card.rank == self.height() + 1
    }

    pub open spec fn active_spec(&self) -> Option<Card> {
        if self.height() == 0 {
            None
        } else {
            Some(Card { suit: self.suit_spec(), rank: self.height() as u8 })
        }
    }

    pub fn new(suit: Suit) -> (r: Foundation)
        ensures
            r.wf(),
            r.suit_spec() == suit,
            r.height() == 0,
    {
        Foundation { suit, top_rank: None }
    }

    pub fn suit(&self) -> (r: Suit)
        ensures
            r == self.suit_spec(),
    {
        self.suit
    }

    /// The rank of the top card, or `None` when empty.
    pub fn top_rank(&self) -> (r: Option<Rank>)
        requires
            self.wf(),
        ensures
            self.height() <= MAX_RANK,
            r == (if self.height() == 0 { None } else { Some(self.height() as u8) }),
    {
        self.top_rank
    }

    /// The rank that the foundation accepts next.
    pub fn next_rank(&self) -> (r: Rank)
        requires
            self.wf(),
        ensures
            r == self.height() + 1,
    {
        match self.top_rank {
            None => 1,
            Some(r) => r + 1,
        }
    }

    pub fn can_receive(&self, card: &Card) -> (r: bool)
        requires
            self.wf(),
        ensures
            r == self.accepts(*card),
    {
        card.suit == self.suit && card.rank == self.next_rank()
    }

    /// Places `card` on top: the top rank becomes the card's rank.
    pub fn receive(&mut self, card: Card)
        requires
            old(self).wf(),
            card.valid(),
        ensures
            final(self).wf(),
            final(self).suit_spec() == old(self).suit_spec(),
            final(self).height() == card.rank,
            old(self).accepts(card) ==> final(self)@ == old(self)@.push(card),
    {
        self.top_rank = Some(card.rank);
        proof {
            if old(self).accepts(card) {
                assert(self@ =~= old(self)@.push(card));
            }
        }
    }

    /// A foundation never gives a card away through the board.
    pub fn can_give_card(&self) -> (r: bool)
        ensures
            !r,
    {
        false
    }

    /// Takes the top card off: the top rank goes down by one.
    pub fn give_card(&mut self) -> (r: Card)
        requires
            old(self).wf(),
            old(self).height() > 0,
        ensures
            final(self).wf(),
            final(self).suit_spec() == old(self).suit_spec(),
            Some(r) == old(self).active_spec(),
            r == old(self)@.last(),
            final(self)@ == old(self)@.drop_last(),
    {
        let rank = match self.top_rank {
            Some(rank) => rank,
            None => 0,
        };
        self.top_rank = if rank > 1 { Some(rank - 1) } else { None };
        assert(self@ =~= old(self)@.drop_last());
        Card { suit: self.suit, rank }
    }

    pub fn active_card(&self) -> (r: Option<Card>)
        requires
            self.wf(),
        ensures
            r == self.active_spec(),
    {
        match self.top_rank {
            None => None,
            Some(rank) => Some(Card { suit: self.suit, rank }),
        }
    }
}


/// A foundation takes exactly the card of its suit one rank above its top
/// (rank 1 when empty); once it has taken that card, it holds it on top and
/// takes exactly the next rank of its suit, so ranks arrive in order.
pub proof fn lemma_foundation_order(f: &Foundation, next: &Foundation, card: Card, other: Card)
    requires
        f.wf(),
        f.accepts(card),
        next.suit_spec() == f.suit_spec(),
        next.height() == card.rank,
    ensures
        f@.len() == 0 ==> card.rank == 1,
        card.suit == f.suit_spec() && card.rank == f@.len() + 1,
        next@ == f@.push(card),
        next.active_spec() == Some(card),
        next.accepts(other) <==> (other.suit == f.suit_spec() && other.rank == card.rank + 1),
{
    assert(next@ =~= f@.push(card));
}

/// A tableau pile: cards are added and removed at its end only.
pub struct Column {
    cards: Vec<Card>,
}

impl Column {
    /// The cards of the column, the active card last.
    pub closed spec fn view(&self) -> Seq<Card> {
        self.cards@
    }

    pub open spec fn wf(&self) -> bool {
        forall|i: int| 0 <= i < self@.len() ==> (#[trigger] self@[i]).valid()
    }

    pub open spec fn accepts(&self, card: Card) -> bool {
        self@.len() == 0 || (self@.last().color_spec() != card.color_spec() && self@.last().rank
            == card.rank + 1)
    }

    pub open spec fn active_spec(&self) -> Option<Card> {
        if self@.len() == 0 {
            None
        } else {
            Some(self@.last())
        }
    }

    pub fn new(initial_capacity: usize) -> (r: Column)
        ensures
            r@.len() == 0,
            r.wf(),
    {
        Column { cards: Vec::with_capacity(initial_capacity) }
    }

    pub fn len(&self) -> (r: usize)
        ensures
            r == self@.len(),
    {
        self.cards.len()
    }

    /// The card at position `i` from the bottom, if there is one.
    pub fn card_at(&self, i: usize) -> (r: Option<Card>)
        ensures
            r == (if i < self@.len() { Some(self@[i as int]) } else { None }),
    {
        if i < self.cards.len() {
            Some(self.cards[i])
        } else {
            None
        }
    }

    pub fn can_give_card(&self) -> (r: bool)
        ensures
            r == (self@.len() > 0),
    {
        self.cards.len() > 0
    }

    pub fn give_card(&mut self) -> (r: Card)
        requires
            old(self).wf(),
            old(self)@.len() > 0,
        ensures
            final(self).wf(),
            r.valid(),
            r == old(self)@.last(),
            final(self)@ == old(self)@.drop_last(),
    {
        let r = self.cards.pop().unwrap();
        assert(self@ =~= old(self)@.drop_last());
        r
    }

    pub fn can_receive(&self, card: &Card) -> (r: bool)
        ensures
            r == self.accepts(*card),
    {
        match self.active_card() {
            Some(active) => active.color() != card.color() && (active.rank as u16) == (card.rank as u16)
                + 1,
            None => true,
        }
    }

    /// Appends `card` as the new active card.
    pub fn receive(&mut self, card: Card)
        requires
            old(self).wf(),
            card.valid(),
        ensures
            final(self).wf(),
            final(self)@ == old(self)@.push(card),
    {
        self.cards.push(card);
    }

    pub fn active_card(&self) -> (r: Option<Card>)
        ensures
            r == self.active_spec(),
    {
        let n = self.cards.len();
        if n == 0 {
            None
        } else {
            Some(self.cards[n - 1])
        }
    }
}

/// A staging cell holding at most one card.
pub struct SpotInHand {
    card: Option<Card>,
}

impl SpotInHand {
    pub closed spec fn view(&self) -> Seq<Card> {
        match self.card {
            None => Seq::empty(),
            Some(c) => seq![c],
        }
    }

    pub open spec fn wf(&self) -> bool {
        forall|i: int| 0 <= i < self@.len() ==> (#[trigger] self@[i]).valid()
    }

    pub open spec fn active_spec(&self) -> Option<Card> {
        if self@.len() == 0 {
            None
        } else {
            Some(self@.last())
        }
    }

    pub fn new(card: Card) -> (r: SpotInHand)
        ensures
            r@ == seq![card],
    {
        SpotInHand { card: Some(card) }
    }

    pub fn can_give_card(&self) -> (r: bool)
        ensures
            r == (self@.len() > 0),
    {
        self.card.is_some()
    }

    /// Takes the card out, leaving the cell empty.
    pub fn give_card(&mut self) -> (r: Card)
        requires
            old(self).wf(),
            old(self)@.len() > 0,
        ensures
            final(self).wf(),
            r.valid(),
            r == old(self)@.last(),
            final(self)@ == old(self)@.drop_last(),
            final(self)@.len() == 0,
    {
        let c = match self.card {
            Some(c) => c,
            None => Card { suit: Suit::Spades, rank: 1 },
        };
        self.card = None;
        assert(old(self)@[0] == c);
        assert(self@ =~= old(self)@.drop_last());
        c
    }

    /// A hand cell never accepts a card through the board.
    pub fn can_receive(&self, card: &Card) -> (r: bool)
        ensures
            !r,
    {
        false
    }

    /// Stores `card`, replacing what the cell held.
    pub fn receive(&mut self, card: Card)
        requires
            card.valid(),
        ensures
            final(self).wf(),
            final(self)@ == seq![card],
    {
        self.card = Some(card);
    }

    pub fn active_card(&self) -> (r: Option<Card>)
        ensures
            r == self.active_spec(),
    {
        self.card
    }
}

} // verus!
