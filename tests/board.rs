use patience::{Board, Card, Deck, Movement, Suit, VictoryState};

fn card(suit: Suit, rank: u8) -> Card {
    Card::new(suit, rank)
}

fn mv(origin: char, destination: char) -> Movement {
    Movement { origin, destination }
}

fn board_cards(board: &Board) -> Vec<Card> {
    let mut all = Vec::new();
    for i in 0..4 {
        if let Some(c) = board.foundation(i).active_card() {
            all.push(c);
        }
    }
    for i in 0..9 {
        let col = board.column(i);
        for k in 0..col.len() {
            all.push(col.card_at(k).unwrap());
        }
    }
    for i in 0..7 {
        if let Some(c) = board.spot(i).active_card() {
            all.push(c);
        }
    }
    all
}

#[test]
fn deal_fills_columns_triangularly_and_hand_once() {
    let mut deck = Deck::new();
    deck.shuffle();
    let board = Board::new(&deck);
    for i in 0..4 {
        assert_eq!(board.foundation(i).active_card(), None);
    }
    for i in 0..9 {
        assert_eq!(board.column(i).len(), i + 1);
    }
    for i in 0..7 {
        assert!(board.spot(i).active_card().is_some());
    }
    let all = board_cards(&board);
    assert_eq!(all.len(), 52);
    for s in [Suit::Spades, Suit::Hearts, Suit::Diamonds, Suit::Clubs] {
        for r in 1..=13u8 {
            assert_eq!(all.iter().filter(|c| **c == card(s, r)).count(), 1);
        }
    }
}

#[test]
fn deal_follows_deck_positions() {
    let deck = Deck::new();
    let board = Board::new(&deck);
    let mut index = 0;
    for i in 0..9 {
        for k in 0..=i {
            assert_eq!(board.column(i).card_at(k), Some(deck.deal(index)));
            index += 1;
        }
    }
    for i in 0..7 {
        assert_eq!(board.spot(i).active_card(), Some(deck.deal(index)));
        index += 1;
    }
    assert_eq!(index, 52);
}

#[test]
fn foundation_suits_follow_label_order() {
    let board = Board::new(&Deck::new());
    assert_eq!(board.foundation(0).suit(), Suit::Spades);
    assert_eq!(board.foundation(1).suit(), Suit::Hearts);
    assert_eq!(board.foundation(2).suit(), Suit::Diamonds);
    assert_eq!(board.foundation(3).suit(), Suit::Clubs);
}

#[test]
fn permitted_moves_on_fresh_ordered_deal() {
    let board = Board::new(&Deck::new());
    let moves = board.permitted_moves();
    assert_eq!(moves, vec![mv('e', 'a'), mv('e', 'g'), mv('f', 'c')]);
}

#[test]
fn permitted_moves_match_permits() {
    for _ in 0..20 {
        let mut deck = Deck::new();
        deck.shuffle();
        let board = Board::new(&deck);
        let moves = board.permitted_moves();
        for m in &moves {
            assert!(board.permits(m));
        }
        for o in 'e'..='t' {
            for d in 'a'..='m' {
                let m = mv(o, d);
                assert_eq!(moves.contains(&m), board.permits(&m));
            }
        }
    }
}

#[test]
fn moving_ace_from_column_to_foundation() {
    let mut board = Board::new(&Deck::new());
    assert_eq!(board.active_card_at('e'), Some(card(Suit::Spades, 1)));
    assert_eq!(board.column(0).len(), 1);
    assert_eq!(board.active_card_at('a'), None);
    let m = mv('e', 'a');
    assert!(board.permits(&m));
    board.execute(&m);
    assert_eq!(board.active_card_at('a'), Some(card(Suit::Spades, 1)));
    assert_eq!(board.foundation(0).active_card(), Some(card(Suit::Spades, 1)));
    assert_eq!(board.column(0).len(), 0);
    assert_eq!(board.active_card_at('e'), None);
    for s in [Suit::Spades, Suit::Hearts, Suit::Diamonds, Suit::Clubs] {
        for r in 1..=13u8 {
            assert!(board.can_receive_card_at('e', &card(s, r)));
            let expected = s == Suit::Spades && r == 2;
            assert_eq!(board.can_receive_card_at('a', &card(s, r)), expected);
        }
    }
}

#[test]
fn rejected_moves() {
    let board = Board::new(&Deck::new());
    assert!(!board.permits(&mv('e', 'b')));
    assert!(!board.permits(&mv('n', 'o')));
    assert!(!board.permits(&mv('a', 'e')));
    assert!(!board.permits(&mv('g', 'h')));
    assert!(!board.can_give_card_at('a'));
    assert!(board.can_give_card_at('t'));
}

#[test]
fn execute_moves_card_between_columns_and_from_hand() {
    let mut board = Board::new(&Deck::new());
    board.execute(&mv('e', 'g'));
    assert_eq!(board.column(2).len(), 4);
    assert_eq!(board.active_card_at('g'), Some(card(Suit::Spades, 1)));
    assert_eq!(board.column(0).len(), 0);
    // The emptied column takes a king from the hand.
    assert!(board.permits(&mv('q', 'e')));
    board.execute(&mv('q', 'e'));
    assert_eq!(board.active_card_at('e'), Some(card(Suit::Spades, 13)));
    assert_eq!(board.active_card_at('q'), None);
    assert!(!board.can_give_card_at('q'));
    // The red queens in the hand now fit on the black king.
    assert!(board.permits(&mv('n', 'e')));
    assert!(board.permits(&mv('o', 'e')));
    assert!(!board.permits(&mv('p', 'e')));
}

#[test]
fn fresh_board_is_ongoing() {
    let board = Board::new(&Deck::new());
    assert_eq!(board.victory_state(), VictoryState::Ongoing);
}

/// A winning line for the deal of an unshuffled deck, two labels per move.
const WINNING_LINE: &str = "eafcfbgbgagdhbhahdhcieibiaidicecjejfjcjbjaeajdfdkekfkgkakdedkcfckbgblelflglhldedlcfclbgblahamemfmemgmhmdfdmcecmbgbmahaeanbocpdqarbsctd";

#[test]
fn winning_line_ends_in_victory() {
    let mut board = Board::new(&Deck::new());
    let labels: Vec<char> = WINNING_LINE.chars().collect();
    let moves: Vec<Movement> = labels.chunks(2).map(|p| mv(p[0], p[1])).collect();
    let (last, rest) = moves.split_last().unwrap();
    for m in rest {
        assert!(board.permits(m));
        board.execute(m);
        assert_eq!(board.victory_state(), VictoryState::Ongoing);
    }
    for i in 0..3 {
        assert_eq!(board.foundation(i).top_rank(), Some(13));
    }
    assert_eq!(board.foundation(3).top_rank(), Some(12));
    assert_eq!(*last, mv('t', 'd'));
    assert!(board.permits(last));
    board.execute(last);
    assert_eq!(board.foundation(3).top_rank(), Some(13));
    assert_eq!(board.victory_state(), VictoryState::Won);
    assert!(board.permitted_moves().is_empty());
}
