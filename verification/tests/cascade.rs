use teletarot::board::{Board, Column};
use teletarot::cards::{Card, MinorSuit, Suit};
use teletarot::rules::BoardZone;

fn minor(suit: MinorSuit, number: u8) -> Card {
    Card::new(Suit::Minor(suit), number)
}

fn major(number: u8) -> Card {
    Card::new(Suit::MajorArcana, number)
}

fn dealt_with(columns: Vec<(usize, Vec<Card>)>) -> Board {
    let mut board = Board::deal((0..10).map(|_| Column::new()).collect());
    for (idx, cards) in columns {
        for card in cards {
            board.get_column_mut(idx).push(card);
        }
    }
    board
}

fn column(board: &Board, idx: usize) -> Vec<Card> {
    board.get_column(idx).cards().clone()
}

#[test]
fn auto_resolve_sends_every_card_that_fits() {
    let mut board = dealt_with(vec![
        (0, vec![minor(MinorSuit::Cups, 4), minor(MinorSuit::Cups, 3), minor(MinorSuit::Cups, 2)]),
        (1, vec![major(1), major(0)]),
        (2, vec![major(20), major(21)]),
        (3, vec![minor(MinorSuit::Wands, 5)]),
    ]);
    board.check_automove_cards();
    assert_eq!(column(&board, 0), Vec::<Card>::new());
    assert_eq!(column(&board, 1), Vec::<Card>::new());
    assert_eq!(column(&board, 2), Vec::<Card>::new());
    assert_eq!(column(&board, 3), vec![minor(MinorSuit::Wands, 5)]);
    assert_eq!(board.minor_foundation_maxes(), &[Some(1), Some(4), Some(1), Some(1)]);
    assert_eq!(board.major_foundation_left_max(), Some(1));
    assert_eq!(board.major_foundation_right_min(), Some(20));
}

#[test]
fn auto_resolve_goes_round_again_for_cards_freed_later() {
    // Column 0 can only give its card after column 4 has given its own.
    let mut board = dealt_with(vec![
        (0, vec![minor(MinorSuit::Swords, 3)]),
        (4, vec![minor(MinorSuit::Swords, 2)]),
    ]);
    board.check_automove_cards();
    assert_eq!(column(&board, 0), Vec::<Card>::new());
    assert_eq!(column(&board, 4), Vec::<Card>::new());
    assert_eq!(board.minor_foundation_maxes(), &[Some(1), Some(1), Some(3), Some(1)]);
}

#[test]
fn auto_resolve_twice_is_auto_resolve_once() {
    let mut board = dealt_with(vec![
        (0, vec![minor(MinorSuit::Cups, 9), minor(MinorSuit::Cups, 2)]),
        (1, vec![major(5), major(0)]),
        (7, vec![minor(MinorSuit::Pentacles, 3), minor(MinorSuit::Pentacles, 2)]),
    ]);
    board.check_automove_cards();
    let once = board.clone();
    board.check_automove_cards();
    assert_eq!(board, once);
    assert_eq!(column(&once, 0), vec![minor(MinorSuit::Cups, 9)]);
    assert_eq!(column(&once, 1), vec![major(5)]);
    assert_eq!(column(&once, 7), Vec::<Card>::new());
}

#[test]
fn auto_resolve_leaves_storage_alone() {
    let mut board = dealt_with(vec![
        (0, vec![minor(MinorSuit::Cups, 2)]),
        (1, vec![major(0)]),
        (2, vec![minor(MinorSuit::Wands, 9)]),
    ]);
    board.move_card(BoardZone::Column(2), BoardZone::MinorFoundationStorage, false).unwrap();
    board.check_automove_cards();
    // The minor foundation is blocked, the major one is not.
    assert_eq!(column(&board, 0), vec![minor(MinorSuit::Cups, 2)]);
    assert_eq!(column(&board, 1), Vec::<Card>::new());
    assert_eq!(board.minor_foundation_storage(), Some(&minor(MinorSuit::Wands, 9)));
    assert_eq!(board.major_foundation_left_max(), Some(0));
}

#[test]
fn auto_resolve_on_a_solved_board_changes_nothing() {
    for split in 0..=21u8 {
        let mut board = Board::solved(split);
        board.check_automove_cards();
        assert_eq!(board, Board::solved(split));
        assert!(board.is_solved());
    }
}
