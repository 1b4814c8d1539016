use teletarot::board::{Board, Column};
use teletarot::cards::{Card, MinorSuit, Suit};
use teletarot::render::{join, padded, print_board};
use teletarot::rules::BoardZone;

fn minor(suit: MinorSuit, number: u8) -> Card {
    Card::new(Suit::Minor(suit), number)
}

fn major(number: u8) -> Card {
    Card::new(Suit::MajorArcana, number)
}

#[test]
fn text_is_padded_on_the_left() {
    assert_eq!(padded("Ac", 3), " Ac");
    assert_eq!(padded("10p", 3), "10p");
    assert_eq!(padded("21A", 2), "21A");
    assert_eq!(padded("", 2), "  ");
    assert_eq!(padded("é", 3), "  é");
    assert_eq!(padded("x", 0), "x");
}

#[test]
fn strings_are_joined_with_a_separator() {
    assert_eq!(join(&vec![], ", "), "");
    assert_eq!(join(&vec!["a".to_string()], ", "), "a");
    assert_eq!(join(&vec!["a".to_string(), "b".to_string(), "".to_string()], ", "), "a, b, ");
}

#[test]
fn an_empty_board_is_all_dots() {
    let expected = "~{.. .. .. .. .. .. .. .. .. .. .. .. .. .. .. .. .. .. .. .. .. ..}~\n\
                    [... ... ... ...]\n \
                    0. \n 1. \n 2. \n 3. \n 4. \n 5. \n 6. \n 7. \n 8. \n 9. \n10. \n";
    assert_eq!(print_board(&Board::empty()), expected);
}

#[test]
fn a_board_in_play_shows_its_cards() {
    let mut board = Board::deal((0..10).map(|_| Column::new()).collect());
    for number in [0u8, 1, 21] {
        board.get_column_mut(0).push(major(number));
        board.move_card(BoardZone::Column(0), BoardZone::MajorFoundation, false).unwrap();
    }
    board.get_column_mut(0).push(minor(MinorSuit::Cups, 2));
    board.move_card(BoardZone::Column(0), BoardZone::MinorFoundation, false).unwrap();
    board.get_column_mut(0).push(minor(MinorSuit::Wands, 13));
    board.move_card(BoardZone::Column(0), BoardZone::MinorFoundationStorage, false).unwrap();
    board.get_column_mut(0).push(minor(MinorSuit::Pentacles, 10));
    board.get_column_mut(0).push(major(7));
    board.get_column_mut(10).push(minor(MinorSuit::Swords, 12));
    let expected = "~{ 0  1 .. .. .. .. .. .. .. .. .. .. .. .. .. .. .. .. .. .. .. 21}~\n\
                    [ Ap  2c  As  Aw] -[Kw]-\n \
                    0. 10p  7A\n 1. \n 2. \n 3. \n 4. \n 5. \n 6. \n 7. \n 8. \n 9. \n10.  Qs\n";
    assert_eq!(print_board(&board), expected);
}

#[test]
fn the_next_card_for_a_foundation_is_known() {
    let mut board = Board::deal((0..10).map(|_| Column::new()).collect());
    assert!(board.is_next_card(&minor(MinorSuit::Cups, 2)));
    assert!(!board.is_next_card(&minor(MinorSuit::Cups, 3)));
    assert!(!board.is_next_card(&minor(MinorSuit::Cups, 1)));
    assert!(board.is_next_card(&major(0)));
    assert!(board.is_next_card(&major(21)));
    assert!(!board.is_next_card(&major(1)));
    assert_eq!(board.final_major(), None);
    for number in 0..=9u8 {
        board.get_column_mut(0).push(major(number));
        board.move_card(BoardZone::Column(0), BoardZone::MajorFoundation, false).unwrap();
    }
    for number in (11..=21u8).rev() {
        board.get_column_mut(0).push(major(number));
        board.move_card(BoardZone::Column(0), BoardZone::MajorFoundation, false).unwrap();
    }
    assert_eq!(board.final_major(), None);
    assert!(board.is_next_card(&major(10)));
    assert!(!board.is_next_card(&major(9)));
    board.get_column_mut(0).push(major(10));
    board.move_card(BoardZone::Column(0), BoardZone::MajorFoundation, false).unwrap();
    assert_eq!(board.final_major(), Some(10));
    assert!(!Board::empty().is_next_card(&minor(MinorSuit::Cups, 2)));
    assert!(Board::empty().is_next_card(&minor(MinorSuit::Cups, 1)));
}
