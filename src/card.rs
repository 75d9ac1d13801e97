use vstd::prelude::*;

verus! {

/// The rank of a card: 1 (ace) up to 13 (king).
pub type Rank = u8;

/// The highest rank, held by the king.
pub const MAX_RANK: u8 = 13;

/// The number of suits in a deck.
pub const NUM_SUITS: usize = 4;

#[derive(Clone, Copy, Debug, PartialEq, Eq, Structural)]
pub enum Color {
    Black,
    Red,
}

#[derive(Clone, Copy, Debug, PartialEq, Eq, Structural)]
pub enum Suit {
    Spades,
    Hearts,
    Diamonds,
    Clubs,
}

/// The suit at position `i` of the fixed suit order (Spades, Hearts, Diamonds, Clubs).
pub open spec fn suit_at(i: int) -> Suit {
    if i == 0 {
        Suit::Spades
    } else if i == 1 {
        Suit::Hearts
    } else if i == 2 {
        Suit::Diamonds
    } else {
        Suit::Clubs
    }
}

impl Suit {
    pub open spec fn color_spec(self) -> Color {
        match self {
            Suit::Spades | Suit::Clubs => Color::Black,
            Suit::Hearts | Suit::Diamonds => Color::Red,
        }
    }

    pub fn color(self) -> (r: Color)
        ensures
            r == self.color_spec(),
    {
        match self {
            Suit::Spades | Suit::Clubs => Color::Black,
            Suit::Hearts | Suit::Diamonds => Color::Red,
        }
    }

    /// The suit at position `i` of the fixed suit order.
    pub fn at(i: usize) -> (r: Suit)
        requires
            i < NUM_SUITS,
        ensures
            r == suit_at(i as int),
    {
        if i == 0 {
            Suit::Spades
        } else if i == 1 {
            Suit::Hearts
        } else if i == 2 {
            Suit::Diamonds
        } else {
            Suit::Clubs
        }
    }
}

#[derive(Clone, Copy, Debug, PartialEq, Eq, Structural)]
pub struct Card {
    pub suit: Suit,
    pub rank: Rank,
}

impl Card {
    /// A card is valid when its rank lies in 1..=13.
    pub open spec fn valid(self) -> bool {
        1 <= self.rank <= MAX_RANK
    }

    pub open spec fn color_spec(self) -> Color {
        self.suit.color_spec()
    }

    pub fn new(suit: Suit, rank: Rank) -> (r: Card)
        requires
            1 <= rank <= MAX_RANK,
        ensures
            r.suit == suit,
            r.rank == rank,
            r.valid(),
    {
        Card { suit, rank }
    }

    pub fn suit(&self) -> (r: Suit)
        ensures
            r == self.suit,
    {
        self.suit
    }

    pub fn rank(&self) -> (r: Rank)
        ensures
            r == self.rank,
    {
        self.rank
    }

    pub fn color(&self) -> (r: Color)
        ensures
            r == self.color_spec(),
    {
        self.suit.color()
    }
}

} // verus!
