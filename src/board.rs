use vstd::prelude::*;
use crate::card::{suit_at, Card, MAX_RANK, NUM_SUITS, Suit};
use crate::deck::{lemma_standard_order_distinct, standard_order, Deck, DECK_SIZE};
use crate::location::{Column, Foundation, SpotInHand};

verus! {

pub const NUM_COLUMNS: usize = 9;

pub const NUM_SPOTS_IN_HAND: usize = 7;

/// The number of labelled locations on the board, `a` through `t`.
pub const NUM_LOCATIONS: usize = 20;

/// The number of cards dealt onto the columns.
pub const NUM_COLUMN_CARDS: usize = 45;

#[derive(Clone, Copy, Debug, PartialEq, Eq, Structural)]
pub enum VictoryState {
    Ongoing,
    Won,
}

/// A proposed transfer of the active card at `origin` to `destination`.
#[derive(Clone, Copy, Debug, PartialEq, Eq, Structural)]
pub struct Movement {
    pub origin: char,
    pub destination: char,
}

/// Position of a label from `a`: foundations are 0..4, columns 4..13, hand cells 13..20.
pub open spec fn offset(label: char) -> int {
    label as int - 'a' as int
}

pub open spec fn is_label(label: char) -> bool {
    'a' <= label <= 't'
}

pub open spec fn is_foundation_label(label: char) -> bool {
    'a' <= label <= 'd'
}

pub open spec fn is_column_label(label: char) -> bool {
    'e' <= label <= 'm'
}

pub open spec fn is_hand_label(label: char) -> bool {
    'n' <= label <= 't'
}

/// A label from which the player may take a card: a column or a hand cell.
pub open spec fn is_origin_label(label: char) -> bool {
    'e' <= label <= 't'
}

/// A label onto which the player may put a card: a foundation or a column.
pub open spec fn is_destination_label(label: char) -> bool {
    'a' <= label <= 'm'
}

/// How many cards are dealt before column `i` (counted from 0): 0 + 1 + ... + i.
pub open spec fn column_start(i: int) -> int {
    i * (i + 1) / 2
}

proof fn lemma_column_start(i: int)
    requires
        0 <= i < NUM_COLUMNS,
    ensures
        0 <= column_start(i),
        column_start(i + 1) == column_start(i) + i + 1,
        column_start(i + 1) <= NUM_COLUMN_CARDS,
{
    assert((i + 1) * (i + 2) == i * (i + 1) + 2 * (i + 1)) by (nonlinear_arith);
    assert(i * (i + 1) <= 72) by (nonlinear_arith)
        requires
            0 <= i < 9,
    ;
    assert(0 <= i * (i + 1)) by (nonlinear_arith)
        requires
            0 <= i,
    ;
    assert((i + 1) * (i + 2) <= 90) by (nonlinear_arith)
        requires
            0 <= i < 9,
    ;
}

/// The game board: four foundations (Spades, Hearts, Diamonds, Clubs), nine
/// columns and seven hand cells, addressed by the labels `a` to `t`.
pub struct Board {
    foundations: Vec<Foundation>,
    columns: Vec<Column>,
    hand: Vec<SpotInHand>,
}

impl Board {
    pub closed spec fn wf(&self) -> bool {
        &&& self.foundations@.len() == NUM_SUITS
        &&& self.columns@.len() == NUM_COLUMNS
        &&& self.hand@.len() == NUM_SPOTS_IN_HAND
        &&& forall|i: int|
            0 <= i < NUM_SUITS ==> (#[trigger] self.foundations@[i]).wf()
                && self.foundations@[i].suit_spec() == suit_at(i)
        &&& forall|i: int| 0 <= i < NUM_COLUMNS ==> (#[trigger] self.columns@[i]).wf()
        &&& forall|i: int| 0 <= i < NUM_SPOTS_IN_HAND ==> (#[trigger] self.hand@[i]).wf()
    }

    /// The cards at location `k` (in label order), from the bottom up.
    pub closed spec fn location_cards(&self, k: int) -> Seq<Card> {
        if 0 <= k < 4 {
            self.foundations@[k]@
        } else if 4 <= k < 13 {
            self.columns@[k - 4]@
        } else if 13 <= k < 20 {
            self.hand@[k - 13]@
        } else {
            Seq::empty()
        }
    }

    /// The cards at the location labelled `label`, from the bottom up; the last is the active card.
    pub open spec fn cards_at(&self, label: char) -> Seq<Card> {
        self.location_cards(offset(label))
    }

    pub open spec fn active_at(&self, label: char) -> Option<Card> {
        if self.cards_at(label).len() == 0 {
            None
        } else {
            Some(self.cards_at(label).last())
        }
    }

    /// Only columns and hand cells give cards away, and only when they hold one.
    pub open spec fn can_give_at(&self, label: char) -> bool {
        (is_column_label(label) || is_hand_label(label)) && self.cards_at(label).len() > 0
    }

    /// Foundations take the next rank of their suit; columns take anything when
    /// empty, else a card of the other color one rank lower; hand cells take nothing.
    pub open spec fn can_receive_at(&self, label: char, card: Card) -> bool {
        if is_foundation_label(label) {
            card.suit == suit_at(offset(label)) && card.rank == self.cards_at(label).len() + 1
        } else if is_column_label(label) {
            let s = self.cards_at(label);
            s.len() == 0 || (s.last().color_spec() != card.color_spec() && s.last().rank
                == card.rank + 1)
        } else {
            false
        }
    }

    pub open spec fn permits_spec(&self, m: Movement) -> bool {
        match self.active_at(m.origin) {
            Some(card) => self.can_give_at(m.origin) && self.can_receive_at(m.destination, card),
            None => false,
        }
    }

    /// `next` is this board after the active card at `m.origin` moved onto `m.destination`.
    pub open spec fn moved(&self, next: &Board, m: Movement) -> bool {
        let card = self.cards_at(m.origin).last();
        &&& next.cards_at(m.origin) == self.cards_at(m.origin).drop_last()
        &&& next.cards_at(m.destination) == self.cards_at(m.destination).push(card)
        &&& forall|l: char|
            is_label(l) && l != m.origin && l != m.destination ==> #[trigger] next.cards_at(l)
                == self.cards_at(l)
    }

    /// Every foundation holds all thirteen ranks.
    pub open spec fn won(&self) -> bool {
        forall|l: char| is_foundation_label(l) ==> #[trigger] self.cards_at(l).len() == MAX_RANK
    }

    /// The board as dealt from the card sequence `s`: foundations empty, column
    /// `i` (from 0) holding the next `i + 1` cards, then one card per hand cell.
    pub open spec fn dealt_from(&self, s: Seq<Card>) -> bool {
        &&& forall|l: char| is_foundation_label(l) ==> #[trigger] self.cards_at(l).len() == 0
        &&& forall|l: char|
            is_column_label(l) ==> #[trigger] self.cards_at(l) == s.subrange(
                column_start(offset(l) - 4),
                column_start(offset(l) - 3),
            )
        &&& forall|l: char|
            is_hand_label(l) ==> #[trigger] self.cards_at(l) == seq![
                s[NUM_COLUMN_CARDS + offset(l) - 13],
            ]
    }
}


impl Board {
    /// The active card at `label`, if any.
    pub fn active_card_at(&self, label: char) -> (r: Option<Card>)
        requires
            self.wf(),
            is_label(label),
        ensures
            r == self.active_at(label),
    {
        if label <= 'd' {
            let i = (label as u32 - 'a' as u32) as usize;
            assert(self.foundations@[i as int].wf());
            self.foundations[i].active_card()
        } else if label <= 'm' {
            self.columns[(label as u32 - 'e' as u32) as usize].active_card()
        } else {
            self.hand[(label as u32 - 'n' as u32) as usize].active_card()
        }
    }

    pub fn can_give_card_at(&self, label: char) -> (r: bool)
        requires
            self.wf(),
            is_label(label),
        ensures
            r == self.can_give_at(label),
    {
        if label <= 'd' {
            self.foundations[(label as u32 - 'a' as u32) as usize].can_give_card()
        } else if label <= 'm' {
            self.columns[(label as u32 - 'e' as u32) as usize].can_give_card()
        } else {
            self.hand[(label as u32 - 'n' as u32) as usize].can_give_card()
        }
    }

    pub fn can_receive_card_at(&self, label: char, card: &Card) -> (r: bool)
        requires
            self.wf(),
            is_label(label),
        ensures
            r == self.can_receive_at(label, *card),
    {
        if label <= 'd' {
            let i = (label as u32 - 'a' as u32) as usize;
            assert(self.foundations@[i as int].wf());
            self.foundations[i].can_receive(card)
        } else if label <= 'm' {
            self.columns[(label as u32 - 'e' as u32) as usize].can_receive(card)
        } else {
            self.hand[(label as u32 - 'n' as u32) as usize].can_receive(card)
        }
    }

    /// Removes the active card at a column or hand cell.
    fn give_card_at(&mut self, label: char) -> (r: Card)
        requires
            old(self).wf(),
            old(self).can_give_at(label),
        ensures
            final(self).wf(),
            r.valid(),
            r == old(self).cards_at(label).last(),
            final(self).cards_at(label) == old(self).cards_at(label).drop_last(),
            forall|l: char|
                is_label(l) && l != label ==> #[trigger] final(self).cards_at(l) == old(
                    self,
                ).cards_at(l),
    {
        if label <= 'm' {
            let i = (label as u32 - 'e' as u32) as usize;
            assert(self.columns@[i as int].wf());
            let r = self.columns[i].give_card();
            assert(self.columns@[i as int].wf());
            r
        } else {
            let i = (label as u32 - 'n' as u32) as usize;
            assert(self.hand@[i as int].wf());
            let r = self.hand[i].give_card();
            assert(self.hand@[i as int].wf());
            r
        }
    }

    /// Places `card` on a foundation or column that accepts it.
    fn receive_at(&mut self, label: char, card: Card)
        requires
            old(self).wf(),
            is_label(label),
            old(self).can_receive_at(label, card),
            card.valid(),
        ensures
            final(self).wf(),
            final(self).cards_at(label) == old(self).cards_at(label).push(card),
            forall|l: char|
                is_label(l) && l != label ==> #[trigger] final(self).cards_at(l) == old(
                    self,
                ).cards_at(l),
    {
        if label <= 'd' {
            let i = (label as u32 - 'a' as u32) as usize;
            assert(self.foundations@[i as int].wf());
            self.foundations[i].receive(card);
            assert(self.foundations@[i as int].wf());
        } else {
            let i = (label as u32 - 'e' as u32) as usize;
            assert(self.columns@[i as int].wf());
            self.columns[i].receive(card);
            assert(self.columns@[i as int].wf());
        }
    }

    /// Whether moving the active card at `movement.origin` onto
    /// `movement.destination` is legal.
    pub fn permits(&self, movement: &Movement) -> (r: bool)
        requires
            self.wf(),
            is_label(movement.origin),
            is_label(movement.destination),
        ensures
            r == self.permits_spec(*movement),
    {
        match self.active_card_at(movement.origin) {
            Some(card) => self.can_give_card_at(movement.origin) && self.can_receive_card_at(
                movement.destination,
                &card,
            ),
            None => false,
        }
    }

    /// Moves the active card at `movement.origin` onto `movement.destination`.
    pub fn execute(&mut self, movement: &Movement)
        requires
            old(self).wf(),
            is_label(movement.origin),
            is_label(movement.destination),
            old(self).permits_spec(*movement),
        ensures
            final(self).wf(),
            old(self).moved(final(self), *movement),
    {
        let card = self.give_card_at(movement.origin);
        self.receive_at(movement.destination, card);
    }
}


impl Board {
    /// Whether all four foundations are complete.
    pub fn victory_state(&self) -> (r: VictoryState)
        requires
            self.wf(),
        ensures
            r == (if self.won() { VictoryState::Won } else { VictoryState::Ongoing }),
    {
        let mut i: usize = 0;
        while i < NUM_SUITS
            invariant
                self.wf(),
                i <= NUM_SUITS,
                forall|j: int| 0 <= j < i ==> #[trigger] self.location_cards(j).len() == MAX_RANK,
            decreases NUM_SUITS - i,
        {
            assert(self.foundations@[i as int].wf());
            match self.foundations[i].top_rank() {
                Some(rank) => {
                    if rank != MAX_RANK {
                        assert(!self.won()) by {
                            let l = (97u8 + i as u8) as char;
                            assert(self.cards_at(l).len() != MAX_RANK);
                        }
                        return VictoryState::Ongoing;
                    }
                },
                None => {
                    assert(!self.won()) by {
                        let l = (97u8 + i as u8) as char;
                        assert(self.cards_at(l).len() != MAX_RANK);
                    }
                    return VictoryState::Ongoing;
                },
            }
            i = i + 1;
        }
        assert(self.won()) by {
            assert forall|l: char| is_foundation_label(l) implies #[trigger] self.cards_at(l).len()
                == MAX_RANK by {
                assert(self.location_cards(offset(l)).len() == MAX_RANK);
            }
        }
        VictoryState::Won
    }

    /// Every legal move from a column or hand cell onto a foundation or column.
    pub fn permitted_moves(&self) -> (r: Vec<Movement>)
        requires
            self.wf(),
        ensures
            forall|i: int|
                0 <= i < r@.len() ==> is_origin_label((#[trigger] r@[i]).origin)
                    && is_destination_label(r@[i].destination) && self.permits_spec(r@[i]),
            forall|m: Movement|
                is_origin_label(m.origin) && is_destination_label(m.destination)
                    && self.permits_spec(m) ==> #[trigger] r@.contains(m),
    {
        let mut moves: Vec<Movement> = Vec::new();
        let mut o: u8 = 4;
        while o < 20
            invariant
                self.wf(),
                4 <= o <= 20,
                forall|i: int|
                    0 <= i < moves@.len() ==> is_origin_label((#[trigger] moves@[i]).origin)
                        && is_destination_label(moves@[i].destination) && self.permits_spec(
                        moves@[i],
                    ),
                forall|m: Movement|
                    is_origin_label(m.origin) && offset(m.origin) < o && is_destination_label(
                        m.destination,
                    ) && self.permits_spec(m) ==> #[trigger] moves@.contains(m),
            decreases 20 - o,
        {
            let origin = (97u8 + o) as char;
            let active = self.active_card_at(origin);
            if let Some(card) = active {
                if self.can_give_card_at(origin) {
                    let mut d: u8 = 0;
                    while d < 13
                        invariant
                            self.wf(),
                            4 <= o < 20,
                            d <= 13,
                            origin == (97u8 + o) as char,
                            self.active_at(origin) == Some(card),
                            self.can_give_at(origin),
                            forall|i: int|
                                0 <= i < moves@.len() ==> is_origin_label(
                                    (#[trigger] moves@[i]).origin,
                                ) && is_destination_label(moves@[i].destination)
                                    && self.permits_spec(moves@[i]),
                            forall|m: Movement|
                                is_origin_label(m.origin) && (offset(m.origin) < o || (m.origin
                                    == origin && offset(m.destination) < d)) && is_destination_label(
                                    m.destination,
                                ) && self.permits_spec(m) ==> #[trigger] moves@.contains(m),
                        decreases 13 - d,
                    {
                        let destination = (97u8 + d) as char;
                        let ghost before_step = moves@;
                        if self.can_receive_card_at(destination, &card) {
                            let m = Movement { origin, destination };
                            moves.push(m);
                        }
                        let ghost seen = moves@;
                        assert forall|m: Movement|
                            is_origin_label(m.origin) && m.origin == origin && offset(m.destination)
                                == d && is_destination_label(m.destination) && self.permits_spec(
                                m,
                            ) implies #[trigger] seen.contains(m) by {
                            assert(m.destination == destination);
                            assert(m == Movement { origin, destination });
                            assert(seen[seen.len() - 1] == m);
                        }
                        assert forall|m: Movement|
                            is_origin_label(m.origin) && (offset(m.origin) < o || (m.origin
                                == origin && offset(m.destination) < d + 1)) && is_destination_label(
                                m.destination,
                            ) && self.permits_spec(m) implies #[trigger] moves@.contains(m) by {
                            if offset(m.origin) < o || offset(m.destination) < d {
                                assert(before_step.contains(m));
                                let k = choose|k: int| 0 <= k < before_step.len() && before_step[k] == m;
                                assert(moves@[k] == m);
                            } else {
                                assert(seen.contains(m));
                            }
                        }
                        d = d + 1;
                    }
                }
            }
            o = o + 1;
        }
        moves
    }

    /// Deals `deck` by position: columns `e` to `m` receive 1, 2, ..., 9 cards,
    /// then each of the seven hand cells `n` to `t` one card.
    pub fn new(deck: &Deck) -> (r: Board)
        requires
            deck.wf(),
        ensures
            r.wf(),
            r.dealt_from(deck@),
    {
        proof {
            deck.lemma_wf();
        }
        let mut foundations: Vec<Foundation> = Vec::new();
        let mut i: usize = 0;
        while i < NUM_SUITS
            invariant
                i <= NUM_SUITS,
                foundations@.len() == i,
                forall|j: int|
                    0 <= j < i ==> (#[trigger] foundations@[j]).wf() && foundations@[j].suit_spec()
                        == suit_at(j) && foundations@[j]@.len() == 0,
            decreases NUM_SUITS - i,
        {
            foundations.push(Foundation::new(Suit::at(i)));
            i = i + 1;
        }
        let mut columns: Vec<Column> = Vec::new();
        let mut card_index: usize = 0;
        let mut i: usize = 0;
        while i < NUM_COLUMNS
            invariant
                deck.wf(),
                deck@.len() == DECK_SIZE,
                forall|k: int| 0 <= k < deck@.len() ==> (#[trigger] deck@[k]).valid(),
                i <= NUM_COLUMNS,
                columns@.len() == i,
                card_index == column_start(i as int),
                card_index <= NUM_COLUMN_CARDS,
                forall|j: int|
                    0 <= j < i ==> (#[trigger] columns@[j]).wf() && columns@[j]@ == deck@.subrange(
                        column_start(j),
                        column_start(j + 1),
                    ),
            decreases NUM_COLUMNS - i,
        {
            proof {
                lemma_column_start(i as int);
            }
            let mut column = Column::new(i + 6);
            let mut k: usize = 0;
            while k <= i
                invariant
                    forall|n: int| 0 <= n < deck@.len() ==> (#[trigger] deck@[n]).valid(),
                    deck@.len() == DECK_SIZE,
                    i < NUM_COLUMNS,
                    k <= i + 1,
                    card_index == column_start(i as int) + k,
                    column_start(i as int) + i + 1 <= NUM_COLUMN_CARDS,
                    column.wf(),
                    column@ == deck@.subrange(column_start(i as int), card_index as int),
                decreases i + 1 - k,
            {
                column.receive(deck.deal(card_index));
                card_index = card_index + 1;
                k = k + 1;
                assert(column@ =~= deck@.subrange(column_start(i as int), card_index as int));
            }
            columns.push(column);
            i = i + 1;
        }
        let mut hand: Vec<SpotInHand> = Vec::new();
        let mut j: usize = 0;
        while j < NUM_SPOTS_IN_HAND
            invariant
                deck@.len() == DECK_SIZE,
                forall|n: int| 0 <= n < deck@.len() ==> (#[trigger] deck@[n]).valid(),
                j <= NUM_SPOTS_IN_HAND,
                hand@.len() == j,
                card_index == NUM_COLUMN_CARDS + j,
                forall|n: int|
                    0 <= n < j ==> (#[trigger] hand@[n]).wf() && hand@[n]@ == seq![
                        deck@[NUM_COLUMN_CARDS + n],
                    ],
            decreases NUM_SPOTS_IN_HAND - j,
        {
            hand.push(SpotInHand::new(deck.deal(card_index)));
            card_index = card_index + 1;
            j = j + 1;
        }
        let board = Board { foundations, columns, hand };
        assert(board.dealt_from(deck@)) by {
            assert forall|l: char| is_column_label(l) implies #[trigger] board.cards_at(l)
                == deck@.subrange(column_start(offset(l) - 4), column_start(offset(l) - 3)) by {
                assert(board.cards_at(l) == board.columns@[offset(l) - 4]@);
            }
        }
        board
    }
}


/// Where the cards of location `k` (4 <= k <= 20) start in the dealt sequence.
pub open spec fn deal_start(k: int) -> int {
    if k <= 13 {
        column_start(k - 4)
    } else {
        NUM_COLUMN_CARDS + k - 13
    }
}

impl Board {
    /// The cards of locations `k` onwards, in label order.
    pub closed spec fn cards_from(&self, k: int) -> Seq<Card>
        decreases NUM_LOCATIONS - k,
    {
        if 0 <= k < NUM_LOCATIONS {
            self.location_cards(k) + self.cards_from(k + 1)
        } else {
            Seq::empty()
        }
    }

    /// Every card on the board, location by location in label order.
    pub open spec fn all_cards(&self) -> Seq<Card> {
        self.cards_from(0)
    }

    proof fn lemma_cards_from(&self, s: Seq<Card>, k: int)
        requires
            self.dealt_from(s),
            s.len() == DECK_SIZE,
            4 <= k <= NUM_LOCATIONS,
        ensures
            self.cards_from(k) == s.subrange(deal_start(k), DECK_SIZE as int),
        decreases NUM_LOCATIONS - k,
    {
        if k < NUM_LOCATIONS {
            self.lemma_cards_from(s, k + 1);
            let l = ((97 + k) as u8) as char;
            assert(offset(l) == k);
            if k < 13 {
                lemma_column_start(k - 4);
                assert(self.cards_at(l) == s.subrange(column_start(k - 4), column_start(k - 3)));
            } else {
                assert(self.cards_at(l) == seq![s[NUM_COLUMN_CARDS + k - 13]]);
            }
            assert(self.cards_from(k) =~= s.subrange(deal_start(k), DECK_SIZE as int));
        } else {
            assert(self.cards_from(k) =~= s.subrange(deal_start(k), DECK_SIZE as int));
        }
    }

    proof fn lemma_foundations_empty(&self, s: Seq<Card>, k: int)
        requires
            self.dealt_from(s),
            0 <= k <= 4,
        ensures
            self.cards_from(k) == self.cards_from(4),
        decreases 4 - k,
    {
        if k < 4 {
            self.lemma_foundations_empty(s, k + 1);
            let l = ((97 + k) as u8) as char;
            assert(offset(l) == k);
            assert(is_foundation_label(l));
            assert(self.cards_at(l).len() == 0);
            assert(self.cards_from(k) =~= self.cards_from(k + 1));
        }
    }

    /// Dealing a deck leaves the foundations empty, gives the columns `e` to `m`
    /// 1, 2, ..., 9 cards and each hand cell one card, and places every card of
    /// the deck exactly once: read in label order, the board is the deck.
    pub proof fn lemma_deal_integrity(&self, deck: &Deck)
        requires
            deck.wf(),
            self.dealt_from(deck@),
        ensures
            forall|l: char| is_foundation_label(l) ==> #[trigger] self.cards_at(l).len() == 0,
            forall|l: char| is_column_label(l) ==> #[trigger] self.cards_at(l).len() == offset(l) - 3,
            forall|l: char| is_hand_label(l) ==> #[trigger] self.cards_at(l).len() == 1,
            self.all_cards() == deck@,
            self.all_cards().to_multiset() == standard_order().to_multiset(),
            standard_order().no_duplicates(),
    {
        deck.lemma_wf();
        lemma_standard_order_distinct();
        assert forall|l: char| is_column_label(l) implies #[trigger] self.cards_at(l).len() == offset(l)
            - 3 by {
            lemma_column_start(offset(l) - 4);
        }
        self.lemma_cards_from(deck@, 4);
        self.lemma_foundations_empty(deck@, 0);
        assert(self.all_cards() =~= deck@);
    }

    /// With three foundations complete and the fourth at rank 12, the game is
    /// still going on, and moving the fourth suit's king onto its foundation wins it.
    pub proof fn lemma_last_king_wins(&self, next: &Board, m: Movement)
        requires
            self.wf(),
            is_foundation_label(m.destination),
            self.cards_at(m.destination).len() == MAX_RANK - 1,
            forall|l: char|
                is_foundation_label(l) && l != m.destination ==> #[trigger] self.cards_at(l).len()
                    == MAX_RANK,
        ensures
            !self.won(),
            is_label(m.origin) && self.permits_spec(m) && self.moved(next, m) ==> next.won(),
    {
        assert(self.cards_at(m.destination).len() != MAX_RANK);
        if is_label(m.origin) && self.permits_spec(m) && self.moved(next, m) {
            assert forall|l: char| is_foundation_label(l) implies #[trigger] next.cards_at(l).len()
                == MAX_RANK by {
                if l != m.destination {
                    assert(l != m.origin);
                    assert(next.cards_at(l) == self.cards_at(l));
                }
            }
        }
    }
}


impl Board {
    /// The foundation of suit `i` in the order Spades, Hearts, Diamonds, Clubs (label `a` + `i`).
    pub fn foundation(&self, i: usize) -> (r: &Foundation)
        requires
            self.wf(),
            i < NUM_SUITS,
        ensures
            r.wf(),
            r.suit_spec() == suit_at(i as int),
            r@ == self.location_cards(i as int),
    {
        &self.foundations[i]
    }

    /// Column `i` from 0 (label `e` + `i`).
    pub fn column(&self, i: usize) -> (r: &Column)
        requires
            self.wf(),
            i < NUM_COLUMNS,
        ensures
            r.wf(),
            r@ == self.location_cards(i + 4),
    {
        &self.columns[i]
    }

    /// Hand cell `i` from 0 (label `n` + `i`).
    pub fn spot(&self, i: usize) -> (r: &SpotInHand)
        requires
            self.wf(),
            i < NUM_SPOTS_IN_HAND,
        ensures
            r.wf(),
            r@ == self.location_cards(i + 13),
    {
        &self.hand[i]
    }
}

} // verus!
