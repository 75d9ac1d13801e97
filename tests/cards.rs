use patience::{Card, Color, Column, Deck, Foundation, SpotInHand, Suit};

fn card(suit: Suit, rank: u8) -> Card {
    Card::new(suit, rank)
}

#[test]
fn suit_colors() {
    assert_eq!(Suit::Spades.color(), Color::Black);
    assert_eq!(Suit::Clubs.color(), Color::Black);
    assert_eq!(Suit::Hearts.color(), Color::Red);
    assert_eq!(Suit::Diamonds.color(), Color::Red);
}

#[test]
fn card_color_and_fields() {
    let c = card(Suit::Diamonds, 12);
    assert_eq!(c.color(), Color::Red);
    assert_eq!(c.suit(), Suit::Diamonds);
    assert_eq!(c.rank(), 12);
    assert_eq!(card(Suit::Clubs, 1).color(), Color::Black);
}

#[test]
fn suit_order() {
    assert_eq!(Suit::at(0), Suit::Spades);
    assert_eq!(Suit::at(1), Suit::Hearts);
    assert_eq!(Suit::at(2), Suit::Diamonds);
    assert_eq!(Suit::at(3), Suit::Clubs);
}

fn count_standard(deck: &Deck) -> bool {
    let suits = [Suit::Spades, Suit::Hearts, Suit::Diamonds, Suit::Clubs];
    for s in suits {
        for r in 1..=13u8 {
            let n = (0..deck.len()).filter(|&i| deck.deal(i) == card(s, r)).count();
            if n != 1 {
                return false;
            }
        }
    }
    true
}

#[test]
fn fresh_deck_is_in_standard_order() {
    let deck = Deck::new();
    assert_eq!(deck.len(), 52);
    assert_eq!(deck.deal(0), card(Suit::Spades, 1));
    assert_eq!(deck.deal(1), card(Suit::Hearts, 1));
    assert_eq!(deck.deal(2), card(Suit::Diamonds, 1));
    assert_eq!(deck.deal(3), card(Suit::Clubs, 1));
    assert_eq!(deck.deal(4), card(Suit::Spades, 2));
    assert_eq!(deck.deal(51), card(Suit::Clubs, 13));
    assert!(count_standard(&deck));
}

#[test]
fn shuffle_keeps_every_card_once() {
    let mut deck = Deck::new();
    deck.shuffle();
    assert_eq!(deck.len(), 52);
    assert!(count_standard(&deck));
}

#[test]
fn foundation_takes_ranks_in_order() {
    let mut f = Foundation::new(Suit::Spades);
    assert_eq!(f.suit(), Suit::Spades);
    assert_eq!(f.active_card(), None);
    assert_eq!(f.next_rank(), 1);
    assert!(f.can_receive(&card(Suit::Spades, 1)));
    assert!(!f.can_receive(&card(Suit::Spades, 2)));
    assert!(!f.can_receive(&card(Suit::Hearts, 1)));
    assert!(!f.can_give_card());
    f.receive(card(Suit::Spades, 1));
    assert_eq!(f.top_rank(), Some(1));
    assert_eq!(f.active_card(), Some(card(Suit::Spades, 1)));
    assert!(f.can_receive(&card(Suit::Spades, 2)));
    assert!(!f.can_receive(&card(Suit::Spades, 1)));
    assert!(!f.can_receive(&card(Suit::Spades, 3)));
    assert!(!f.can_receive(&card(Suit::Clubs, 2)));
    assert!(!f.can_give_card());
}

#[test]
fn foundation_rejects_all_but_next_rank() {
    let mut f = Foundation::new(Suit::Hearts);
    for r in 1..=13u8 {
        for s in [Suit::Spades, Suit::Hearts, Suit::Diamonds, Suit::Clubs] {
            for q in 1..=13u8 {
                let expected = s == Suit::Hearts && q == r;
                assert_eq!(f.can_receive(&card(s, q)), expected);
            }
        }
        f.receive(card(Suit::Hearts, r));
    }
    assert_eq!(f.top_rank(), Some(13));
    for s in [Suit::Spades, Suit::Hearts, Suit::Diamonds, Suit::Clubs] {
        for q in 1..=13u8 {
            assert!(!f.can_receive(&card(s, q)));
        }
    }
}

#[test]
fn foundation_give_card_lowers_top() {
    let mut f = Foundation::new(Suit::Clubs);
    f.receive(card(Suit::Clubs, 1));
    f.receive(card(Suit::Clubs, 2));
    assert_eq!(f.give_card(), card(Suit::Clubs, 2));
    assert_eq!(f.top_rank(), Some(1));
    assert_eq!(f.give_card(), card(Suit::Clubs, 1));
    assert_eq!(f.top_rank(), None);
    assert_eq!(f.active_card(), None);
}

#[test]
fn empty_column_accepts_any_card() {
    let c = Column::new(4);
    assert_eq!(c.len(), 0);
    assert_eq!(c.active_card(), None);
    assert!(!c.can_give_card());
    for s in [Suit::Spades, Suit::Hearts, Suit::Diamonds, Suit::Clubs] {
        for r in 1..=13u8 {
            assert!(c.can_receive(&card(s, r)));
        }
    }
}

#[test]
fn column_accepts_other_color_one_lower() {
    let mut c = Column::new(0);
    c.receive(card(Suit::Spades, 13));
    assert_eq!(c.active_card(), Some(card(Suit::Spades, 13)));
    assert!(c.can_receive(&card(Suit::Hearts, 12)));
    assert!(c.can_receive(&card(Suit::Diamonds, 12)));
    assert!(!c.can_receive(&card(Suit::Clubs, 12)));
    assert!(!c.can_receive(&card(Suit::Spades, 12)));
    assert!(!c.can_receive(&card(Suit::Hearts, 11)));
    assert!(!c.can_receive(&card(Suit::Hearts, 13)));
    c.receive(card(Suit::Hearts, 12));
    assert!(c.can_receive(&card(Suit::Clubs, 11)));
    assert!(!c.can_receive(&card(Suit::Diamonds, 11)));
    assert_eq!(c.len(), 2);
    assert_eq!(c.card_at(0), Some(card(Suit::Spades, 13)));
    assert_eq!(c.card_at(2), None);
    assert!(c.can_give_card());
    assert_eq!(c.give_card(), card(Suit::Hearts, 12));
    assert_eq!(c.active_card(), Some(card(Suit::Spades, 13)));
}

#[test]
fn hand_cell_gives_once_and_takes_nothing() {
    let mut h = SpotInHand::new(card(Suit::Diamonds, 7));
    for s in [Suit::Spades, Suit::Hearts, Suit::Diamonds, Suit::Clubs] {
        for r in 1..=13u8 {
            assert!(!h.can_receive(&card(s, r)));
        }
    }
    assert!(h.can_give_card());
    assert_eq!(h.active_card(), Some(card(Suit::Diamonds, 7)));
    assert_eq!(h.give_card(), card(Suit::Diamonds, 7));
    assert_eq!(h.active_card(), None);
    assert!(!h.can_give_card());
    assert!(!h.can_receive(&card(Suit::Diamonds, 7)));
    h.receive(card(Suit::Spades, 3));
    assert_eq!(h.active_card(), Some(card(Suit::Spades, 3)));
}

#[test]
fn shuffle_reorders_the_deck() {
    let fresh = Deck::new();
    let mut deck = Deck::new();
    deck.shuffle();
    let moved = (0..52).filter(|&i| deck.deal(i) != fresh.deal(i)).count();
    assert!(moved > 0);
}
