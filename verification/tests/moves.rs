use teletarot::{Board, BoardZone, Card, CardMoveError, MinorSuit, Suit};

fn minor(suit: MinorSuit, number: u8) -> Card {
    Card::new(Suit::Minor(suit), number)
}

fn pent(number: u8) -> Card {
    minor(MinorSuit::Pentacles, number)
}

fn cups(number: u8) -> Card {
    minor(MinorSuit::Cups, number)
}

fn major(number: u8) -> Card {
    Card::new(Suit::MajorArcana, number)
}

fn board_with(columns: Vec<(usize, Vec<Card>)>) -> Board {
    let mut board = Board::empty();
    for (idx, cards) in columns {
        for card in cards {
            board.get_column_mut(idx).push(card);
        }
    }
    board
}

fn column(board: &Board, idx: usize) -> Vec<Card> {
    board.get_column(idx).cards().clone()
}

fn all_zones() -> Vec<BoardZone> {
    let mut zones = Vec::new();
    for idx in 0..11 {
        zones.push(BoardZone::Column(idx));
    }
    zones.push(BoardZone::MinorFoundationStorage);
    zones.push(BoardZone::MinorFoundation);
    zones.push(BoardZone::MajorFoundation);
    zones
}

#[test]
fn moving_a_zone_onto_itself_is_a_noop() {
    let mut board = board_with(vec![(0, vec![pent(5)]), (3, vec![major(4), major(5)])]);
    let before = board.clone();
    for zone in all_zones() {
        for cascade in [false, true] {
            assert_eq!(board.move_card(zone, zone, cascade), Err(CardMoveError::NoopMovement));
            assert_eq!(board, before);
        }
    }
}

#[test]
fn foundations_cannot_be_a_source() {
    let mut board = board_with(vec![(0, vec![pent(1)])]);
    board.move_card(BoardZone::Column(0), BoardZone::MinorFoundation, false).unwrap();
    let before = board.clone();
    assert_eq!(
        board.move_card(BoardZone::MinorFoundation, BoardZone::Column(0), true),
        Err(CardMoveError::WriteOnlySource)
    );
    assert_eq!(
        board.move_card(BoardZone::MajorFoundation, BoardZone::MinorFoundationStorage, false),
        Err(CardMoveError::WriteOnlySource)
    );
    assert_eq!(
        board.move_card(BoardZone::MajorFoundation, BoardZone::MinorFoundation, false),
        Err(CardMoveError::WriteOnlySource)
    );
    assert_eq!(board, before);
    assert!(BoardZone::MinorFoundation.is_write_only());
    assert!(BoardZone::MajorFoundation.is_write_only());
    assert!(!BoardZone::MinorFoundationStorage.is_write_only());
    assert!(!BoardZone::Column(3).is_write_only());
}

#[test]
fn an_empty_source_has_nothing_to_move() {
    let mut board = board_with(vec![(1, vec![pent(5)])]);
    let before = board.clone();
    for cascade in [false, true] {
        assert_eq!(
            board.move_card(BoardZone::Column(0), BoardZone::Column(1), cascade),
            Err(CardMoveError::EmptySource)
        );
        assert_eq!(
            board.move_card(BoardZone::MinorFoundationStorage, BoardZone::Column(1), cascade),
            Err(CardMoveError::EmptySource)
        );
        assert_eq!(
            board.move_card(BoardZone::Column(7), BoardZone::MajorFoundation, cascade),
            Err(CardMoveError::EmptySource)
        );
    }
    assert_eq!(board, before);
}

#[test]
fn a_column_takes_a_card_that_stacks_or_any_card_when_empty() {
    let mut board = board_with(vec![(0, vec![pent(5)]), (1, vec![pent(6)]), (2, vec![cups(6)])]);
    assert_eq!(
        board.move_card(BoardZone::Column(0), BoardZone::Column(2), false),
        Err(CardMoveError::CannotStack)
    );
    assert_eq!(column(&board, 0), vec![pent(5)]);
    assert_eq!(column(&board, 2), vec![cups(6)]);
    assert_eq!(board.move_card(BoardZone::Column(0), BoardZone::Column(1), false), Ok(()));
    assert_eq!(column(&board, 0), Vec::<Card>::new());
    assert_eq!(column(&board, 1), vec![pent(6), pent(5)]);
    assert_eq!(board.move_card(BoardZone::Column(2), BoardZone::Column(0), false), Ok(()));
    assert_eq!(column(&board, 0), vec![cups(6)]);
    assert_eq!(column(&board, 2), Vec::<Card>::new());
}

#[test]
fn a_card_stacks_on_the_rank_above_as_well_as_below() {
    let mut board = board_with(vec![(0, vec![major(8)]), (1, vec![major(7)]), (2, vec![major(9)])]);
    assert_eq!(board.move_card(BoardZone::Column(0), BoardZone::Column(1), false), Ok(()));
    assert_eq!(column(&board, 1), vec![major(7), major(8)]);
    assert_eq!(board.move_card(BoardZone::Column(2), BoardZone::Column(1), false), Ok(()));
    assert_eq!(column(&board, 1), vec![major(7), major(8), major(9)]);
}

#[test]
fn cascade_moves_the_whole_run_in_order() {
    let mut board = board_with(vec![
        (0, vec![cups(5), pent(9), pent(8), pent(7)]),
        (1, vec![pent(10)]),
    ]);
    assert_eq!(board.move_card(BoardZone::Column(0), BoardZone::Column(1), true), Ok(()));
    assert_eq!(column(&board, 0), vec![cups(5)]);
    assert_eq!(column(&board, 1), vec![pent(10), pent(9), pent(8), pent(7)]);
}

#[test]
fn cascade_moves_the_whole_run_to_an_empty_column() {
    let mut board = board_with(vec![(4, vec![major(3), major(11), major(12), major(11)])]);
    assert_eq!(board.move_card(BoardZone::Column(4), BoardZone::Column(9), true), Ok(()));
    assert_eq!(column(&board, 4), vec![major(3)]);
    assert_eq!(column(&board, 9), vec![major(11), major(12), major(11)]);
}

#[test]
fn cascade_is_judged_by_the_bottom_card_of_the_run() {
    let mut board = board_with(vec![
        (0, vec![cups(5), pent(9), pent(8), pent(7)]),
        (1, vec![pent(6)]),
    ]);
    let before = board.clone();
    assert_eq!(
        board.move_card(BoardZone::Column(0), BoardZone::Column(1), true),
        Err(CardMoveError::CannotStack)
    );
    assert_eq!(board, before);
}

#[test]
fn without_cascade_only_the_top_card_moves() {
    let mut board = board_with(vec![
        (0, vec![cups(5), pent(9), pent(8), pent(7)]),
        (1, vec![pent(6)]),
        (2, vec![pent(10)]),
    ]);
    assert_eq!(
        board.move_card(BoardZone::Column(0), BoardZone::Column(2), false),
        Err(CardMoveError::CannotStack)
    );
    assert_eq!(board.move_card(BoardZone::Column(0), BoardZone::Column(1), false), Ok(()));
    assert_eq!(column(&board, 0), vec![cups(5), pent(9), pent(8)]);
    assert_eq!(column(&board, 1), vec![pent(6), pent(7)]);
}

#[test]
fn cascade_only_applies_between_columns() {
    let mut board = board_with(vec![(0, vec![pent(9), pent(8), pent(7)])]);
    assert_eq!(
        board.move_card(BoardZone::Column(0), BoardZone::MinorFoundationStorage, true),
        Ok(())
    );
    assert_eq!(column(&board, 0), vec![pent(9), pent(8)]);
    assert_eq!(board.minor_foundation_storage(), Some(&pent(7)));
}

#[test]
fn storage_holds_one_card() {
    let mut board = board_with(vec![(0, vec![pent(9)]), (1, vec![major(3)])]);
    assert_eq!(board.minor_foundation_storage(), None);
    assert_eq!(
        board.move_card(BoardZone::Column(0), BoardZone::MinorFoundationStorage, false),
        Ok(())
    );
    assert_eq!(board.minor_foundation_storage(), Some(&pent(9)));
    let before = board.clone();
    assert_eq!(
        board.move_card(BoardZone::Column(1), BoardZone::MinorFoundationStorage, false),
        Err(CardMoveError::BlockedByFullMinorStorage)
    );
    assert_eq!(board, before);
    assert_eq!(
        board.move_card(BoardZone::MinorFoundationStorage, BoardZone::Column(5), true),
        Ok(())
    );
    assert_eq!(board.minor_foundation_storage(), None);
    assert_eq!(column(&board, 5), vec![pent(9)]);
}

#[test]
fn a_card_leaves_storage_only_where_it_fits() {
    let mut board = board_with(vec![(0, vec![pent(9)]), (1, vec![major(3)]), (2, vec![pent(8)])]);
    board.move_card(BoardZone::Column(0), BoardZone::MinorFoundationStorage, false).unwrap();
    assert_eq!(
        board.move_card(BoardZone::MinorFoundationStorage, BoardZone::Column(1), true),
        Err(CardMoveError::CannotStack)
    );
    assert_eq!(board.minor_foundation_storage(), Some(&pent(9)));
    assert_eq!(
        board.move_card(BoardZone::MinorFoundationStorage, BoardZone::Column(2), true),
        Ok(())
    );
    assert_eq!(column(&board, 2), vec![pent(8), pent(9)]);
}

#[test]
fn minor_foundation_is_blocked_while_storage_is_taken() {
    let mut board = board_with(vec![
        (0, vec![pent(9)]),
        (1, vec![cups(1)]),
        (2, vec![major(0)]),
        (3, vec![cups(7)]),
    ]);
    board.move_card(BoardZone::Column(0), BoardZone::MinorFoundationStorage, false).unwrap();
    let before = board.clone();
    for source in [1usize, 2, 3] {
        for cascade in [false, true] {
            assert_eq!(
                board.move_card(BoardZone::Column(source), BoardZone::MinorFoundation, cascade),
                Err(CardMoveError::BlockedByFullMinorStorage)
            );
        }
    }
    assert_eq!(
        board.move_card(BoardZone::MinorFoundationStorage, BoardZone::MinorFoundation, false),
        Err(CardMoveError::BlockedByFullMinorStorage)
    );
    assert_eq!(board, before);
    board.move_card(BoardZone::MinorFoundationStorage, BoardZone::Column(0), false).unwrap();
    assert_eq!(board.move_card(BoardZone::Column(1), BoardZone::MinorFoundation, false), Ok(()));
}

#[test]
fn minor_foundation_takes_the_next_rank_of_each_suit() {
    let mut board = board_with(vec![
        (0, vec![cups(3), cups(2), cups(1)]),
        (1, vec![pent(2)]),
        (2, vec![major(1)]),
    ]);
    assert_eq!(
        board.move_card(BoardZone::Column(1), BoardZone::MinorFoundation, false),
        Err(CardMoveError::CannotStack)
    );
    assert_eq!(
        board.move_card(BoardZone::Column(2), BoardZone::MinorFoundation, false),
        Err(CardMoveError::WrongTargetZone)
    );
    assert_eq!(board.move_card(BoardZone::Column(0), BoardZone::MinorFoundation, false), Ok(()));
    assert_eq!(board.move_card(BoardZone::Column(0), BoardZone::MinorFoundation, false), Ok(()));
    assert_eq!(board.minor_foundation_maxes(), &[None, Some(2), None, None]);
    assert_eq!(column(&board, 0), vec![cups(3)]);
    let views = board.virtual_cards_minor_foundation();
    assert_eq!(views[0], Vec::<Card>::new());
    assert_eq!(views[1], vec![cups(1), cups(2)]);
    assert_eq!(views[2], Vec::<Card>::new());
    assert_eq!(views[3], Vec::<Card>::new());
}

#[test]
fn minor_foundation_starts_above_the_aces_after_a_deal() {
    let mut board = Board::deal(
        (0..10).map(|_| teletarot::board::Column::new()).collect(),
    );
    board.get_column_mut(0).push(cups(3));
    board.get_column_mut(0).push(cups(2));
    board.get_column_mut(1).push(cups(1));
    assert_eq!(
        board.move_card(BoardZone::Column(1), BoardZone::MinorFoundation, false),
        Err(CardMoveError::CannotStack)
    );
    assert_eq!(board.move_card(BoardZone::Column(0), BoardZone::MinorFoundation, false), Ok(()));
    assert_eq!(board.move_card(BoardZone::Column(0), BoardZone::MinorFoundation, false), Ok(()));
    assert_eq!(board.minor_foundation_maxes(), &[Some(1), Some(3), Some(1), Some(1)]);
}

#[test]
fn major_foundation_grows_from_both_ends() {
    let mut board = board_with(vec![
        (0, vec![major(1), major(0)]),
        (1, vec![major(20), major(21)]),
        (2, vec![major(10)]),
        (3, vec![pent(1)]),
    ]);
    assert_eq!(
        board.move_card(BoardZone::Column(2), BoardZone::MajorFoundation, false),
        Err(CardMoveError::CannotStack)
    );
    assert_eq!(
        board.move_card(BoardZone::Column(3), BoardZone::MajorFoundation, false),
        Err(CardMoveError::WrongTargetZone)
    );
    assert_eq!(board.move_card(BoardZone::Column(0), BoardZone::MajorFoundation, false), Ok(()));
    assert_eq!(board.major_foundation_left_max(), Some(0));
    assert_eq!(board.major_foundation_right_min(), None);
    assert_eq!(board.move_card(BoardZone::Column(1), BoardZone::MajorFoundation, false), Ok(()));
    assert_eq!(board.major_foundation_left_max(), Some(0));
    assert_eq!(board.major_foundation_right_min(), Some(21));
    assert_eq!(board.move_card(BoardZone::Column(0), BoardZone::MajorFoundation, false), Ok(()));
    assert_eq!(board.move_card(BoardZone::Column(1), BoardZone::MajorFoundation, false), Ok(()));
    assert_eq!(board.major_foundation_left_max(), Some(1));
    assert_eq!(board.major_foundation_right_min(), Some(20));
    assert_eq!(board.virtual_cards_major_foundation_left(), vec![major(0), major(1)]);
    assert_eq!(board.virtual_cards_major_foundation_right(), vec![major(21), major(20)]);
}

#[test]
fn the_left_side_wins_when_both_sides_take_the_card() {
    let mut board = Board::empty();
    for number in (1..=21u8).rev() {
        board.get_column_mut(0).push(major(number));
        board.move_card(BoardZone::Column(0), BoardZone::MajorFoundation, false).unwrap();
    }
    assert_eq!(board.major_foundation_left_max(), None);
    assert_eq!(board.major_foundation_right_min(), Some(1));
    board.get_column_mut(0).push(major(0));
    assert_eq!(board.move_card(BoardZone::Column(0), BoardZone::MajorFoundation, false), Ok(()));
    assert_eq!(board.major_foundation_left_max(), Some(0));
    assert_eq!(board.major_foundation_right_min(), Some(1));
}

#[test]
fn the_last_card_goes_left_when_the_right_side_is_bare() {
    let mut board = Board::empty();
    for number in 0..=21u8 {
        board.get_column_mut(0).push(major(number));
        board.move_card(BoardZone::Column(0), BoardZone::MajorFoundation, false).unwrap();
    }
    assert_eq!(board.major_foundation_left_max(), Some(21));
    assert_eq!(board.major_foundation_right_min(), None);
    assert_eq!(board.virtual_cards_major_foundation_left().len(), 22);
    assert_eq!(board.virtual_cards_major_foundation_right(), Vec::<Card>::new());
}

#[test]
fn foundation_views_of_an_empty_board_are_empty() {
    let board = Board::empty();
    assert_eq!(board.virtual_cards_major_foundation_left(), Vec::<Card>::new());
    assert_eq!(board.virtual_cards_major_foundation_right(), Vec::<Card>::new());
    for stack in board.virtual_cards_minor_foundation() {
        assert_eq!(stack, Vec::<Card>::new());
    }
    assert_eq!(board.columns().len(), 11);
    for column in board.columns() {
        assert!(column.is_empty());
        assert_eq!(column.len(), 0);
        assert_eq!(column.last(), None);
    }
}

#[test]
fn foundation_views_of_a_solved_board_are_whole() {
    let board = Board::solved(8);
    let left = board.virtual_cards_major_foundation_left();
    let right = board.virtual_cards_major_foundation_right();
    assert_eq!(left, (0..=8u8).map(major).collect::<Vec<_>>());
    assert_eq!(right, (9..=21u8).rev().map(major).collect::<Vec<_>>());
    let minors = board.virtual_cards_minor_foundation();
    for (slot, stack) in minors.iter().enumerate() {
        let suit = MinorSuit::n(slot as u8).unwrap();
        assert_eq!(stack, &(1..=13u8).map(|n| minor(suit, n)).collect::<Vec<_>>());
    }
}

#[test]
fn columns_can_be_read_and_changed() {
    let mut board = Board::empty();
    board.get_column_mut(3).push(pent(4));
    board.get_column_mut(3).push(pent(5));
    assert_eq!(board.get_column(3).len(), 2);
    assert_eq!(board.get_column(3).last(), Some(&pent(5)));
    assert_eq!(board.get_column(3).get(0), Some(&pent(4)));
    assert_eq!(board.get_column(3).get(2), None);
    assert_eq!(board.get_column_mut(3).pop(), Some(pent(5)));
    assert_eq!(board.get_column_mut(3).pop(), Some(pent(4)));
    assert_eq!(board.get_column_mut(3).pop(), None);
    assert_eq!(board, Board::empty());
}

#[test]
fn a_column_reads_like_its_cards() {
    let mut board = Board::empty();
    board.get_column_mut(2).push(pent(4));
    board.get_column_mut(2).push(cups(9));
    let column = board.get_column(2);
    let texts: Vec<String> = column.iter().map(|card| card.to_string()).collect();
    assert_eq!(texts, vec!["4p", "9c"]);
    assert_eq!(column.first(), Some(&pent(4)));
    assert_eq!(column.cards(), &vec![pent(4), cups(9)]);
    assert_eq!(teletarot::board::Column::from_cards(vec![pent(4), cups(9)]), column.clone());
    assert_eq!(Board::COLUMN_COUNT, 11);
    assert_eq!(Board::DESIRED_STACK_HEIGHT, 7);
    assert_eq!(Card::MINOR_ARCANA_MIN, 1);
    assert_eq!(Card::MINOR_ARCANA_MAX, 13);
    assert_eq!(Card::MAJOR_ARCANA_MIN, 0);
    assert_eq!(Card::MAJOR_ARCANA_MAX, 21);
}
