use teletarot::board::Board;
use teletarot::cards::{Card, MinorSuit, Suit};
use teletarot::fingerprint::fingerprint;
use teletarot::rules::BoardZone;
use teletarot::solver::{board_is_dead, try_move, try_solve, Solver, Step};
use teletarot::zones::ZonesIter;

fn minor(suit: MinorSuit, number: u8) -> Card {
    Card::new(Suit::Minor(suit), number)
}

fn pent(number: u8) -> Card {
    minor(MinorSuit::Pentacles, number)
}

fn major(number: u8) -> Card {
    Card::new(Suit::MajorArcana, number)
}

/// A board with nothing on the columns and the foundations grown as far as
/// asked: each minor foundation up to its mark, the major foundation from
/// both ends.
fn with_foundations(minors: [u8; 4], left: Option<u8>, right: Option<u8>) -> Board {
    let mut board = Board::empty();
    for (slot, max) in minors.iter().enumerate() {
        for number in 1..=*max {
            board.get_column_mut(0).push(minor(MinorSuit::n(slot as u8).unwrap(), number));
            board.move_card(BoardZone::Column(0), BoardZone::MinorFoundation, false).unwrap();
        }
    }
    if let Some(right) = right {
        for number in (right..=21).rev() {
            board.get_column_mut(0).push(major(number));
            board.move_card(BoardZone::Column(0), BoardZone::MajorFoundation, false).unwrap();
        }
    }
    if let Some(left) = left {
        for number in 0..=left {
            board.get_column_mut(0).push(major(number));
            board.move_card(BoardZone::Column(0), BoardZone::MajorFoundation, false).unwrap();
        }
    }
    assert_eq!(board.major_foundation_left_max(), left);
    assert_eq!(board.major_foundation_right_min(), right);
    board
}

fn replay(board: &Board, moves: &[(BoardZone, BoardZone)]) -> Board {
    let mut board = board.clone();
    board.check_automove_cards();
    for (src, dst) in moves {
        assert_eq!(board.move_card(*src, *dst, true), Ok(()));
        board.check_automove_cards();
    }
    board
}

#[test]
fn a_solved_board_needs_no_move_for_every_split() {
    for split in 0..=21u8 {
        let board = Board::solved(split);
        assert!(board.is_solved());
        assert_eq!(try_solve(&board), Some(vec![]));
    }
}

#[test]
fn built_up_foundations_equal_the_solved_board() {
    assert_eq!(with_foundations([13; 4], Some(8), Some(9)), Board::solved(8));
    assert_eq!(with_foundations([13; 4], Some(21), None), Board::solved(21));
    assert_eq!(with_foundations([13; 4], Some(0), Some(1)), Board::solved(0));
}

#[test]
fn boards_that_lack_cards_are_not_solved() {
    assert!(!Board::empty().is_solved());
    assert!(!with_foundations([13, 13, 13, 12], Some(8), Some(9)).is_solved());
    assert!(!with_foundations([13; 4], Some(8), Some(10)).is_solved());
    assert!(!with_foundations([13; 4], Some(20), None).is_solved());
    let mut board = Board::solved(3);
    board.get_column_mut(2).push(pent(4));
    assert!(!board.is_solved());
}

#[test]
fn a_board_that_the_cascade_wins_needs_no_move() {
    let mut board = with_foundations([11, 13, 13, 13], Some(10), Some(12));
    board.get_column_mut(3).push(pent(13));
    board.get_column_mut(3).push(pent(12));
    board.get_column_mut(9).push(major(11));
    assert_eq!(try_solve(&board), Some(vec![]));
    assert!(replay(&board, &[]).is_solved());
}

#[test]
fn a_buried_card_is_dug_out() {
    // The queen lies under the king; the king has to step aside by way of
    // the storage slot, since a run moves between columns as a whole.
    let mut board = with_foundations([11, 13, 13, 13], Some(21), None);
    board.get_column_mut(0).push(pent(12));
    board.get_column_mut(0).push(pent(13));
    let solution = try_solve(&board).unwrap();
    assert!(!solution.is_empty());
    assert!(replay(&board, &solution).is_solved());
    assert!(!board.is_solved());
}

#[test]
fn a_blocker_steps_aside_to_an_empty_column() {
    // The king waits for the queen under the five, the five for the four
    // or the six under the king.
    let mut board = with_foundations([11, 13, 13, 13], Some(3), Some(7));
    board.get_column_mut(0).push(pent(12));
    board.get_column_mut(0).push(major(5));
    board.get_column_mut(1).push(major(4));
    board.get_column_mut(1).push(major(6));
    board.get_column_mut(1).push(pent(13));
    let mut settled = board.clone();
    settled.check_automove_cards();
    assert_eq!(settled, board);
    let solution = try_solve(&board).unwrap();
    assert!(!solution.is_empty());
    for (src, dst) in &solution {
        assert!(!src.is_write_only());
        assert!(!dst.is_write_only());
    }
    assert!(replay(&board, &solution).is_solved());
}

#[test]
fn cards_that_can_never_leave_make_a_board_unwinnable() {
    // Two sixes: the second one has no place on the foundation.
    let mut board = with_foundations([13, 13, 13, 13], Some(3), Some(7));
    board.get_column_mut(0).push(major(4));
    board.get_column_mut(0).push(major(6));
    board.get_column_mut(1).push(major(5));
    board.get_column_mut(1).push(major(6));
    assert_eq!(try_solve(&board), None);
}

#[test]
fn a_board_that_lacks_a_card_cannot_be_won() {
    let mut board = with_foundations([11, 13, 13, 13], Some(21), None);
    board.get_column_mut(0).push(pent(13));
    assert_eq!(try_solve(&board), None);
}

#[test]
fn no_board_is_called_dead() {
    assert!(!board_is_dead(&Board::empty()));
    assert!(!board_is_dead(&Board::solved(4)));
    // Storage taken, no column empty, and no exposed card can go anywhere.
    let mut board = Board::empty();
    board.get_column_mut(0).push(major(0));
    board.move_card(BoardZone::Column(0), BoardZone::MinorFoundationStorage, false).unwrap();
    for idx in 0..11usize {
        board.get_column_mut(idx).push(pent(2 + idx as u8));
        board.get_column_mut(idx).push(major(2 + 2 * idx as u8 % 20));
    }
    assert!(!board_is_dead(&board));
    // Storage taken, no column empty, exposed cards that stack in a row.
    let mut board = Board::empty();
    board.get_column_mut(0).push(pent(1));
    board.move_card(BoardZone::Column(0), BoardZone::MinorFoundationStorage, false).unwrap();
    for idx in 0..11usize {
        board.get_column_mut(idx).push(pent(2 + idx as u8));
    }
    assert!(!board_is_dead(&board));
    // Storage taken and the same card on every column: only two ranks.
    let mut board = Board::empty();
    board.get_column_mut(0).push(pent(5));
    board.move_card(BoardZone::Column(0), BoardZone::MinorFoundationStorage, false).unwrap();
    for idx in 0..11usize {
        board.get_column_mut(idx).push(pent(6));
    }
    assert!(!board_is_dead(&board));
}

#[test]
fn a_stuck_board_is_searched_to_the_end() {
    // Storage taken, every column taken, nothing stacks on anything: the
    // search finds no move at all and gives up.
    let mut board = Board::empty();
    board.get_column_mut(0).push(minor(MinorSuit::Cups, 9));
    board.move_card(BoardZone::Column(0), BoardZone::MinorFoundationStorage, false).unwrap();
    board.get_column_mut(0).push(pent(5));
    for idx in 1..11usize {
        board.get_column_mut(idx).push(pent(13 - idx as u8));
        board.get_column_mut(idx).push(major(2 * idx as u8));
    }
    let mut solver = Solver::new(board.clone());
    let mut steps = 0;
    while !solver.is_exhausted() {
        assert!(!solver.take_step());
        steps += 1;
    }
    assert_eq!(steps, 132);
    assert_eq!(try_solve(&board), None);
}

#[test]
fn the_zones_are_tried_in_a_fixed_order() {
    let mut walk = ZonesIter::new();
    assert_eq!((walk.src, walk.dst), (BoardZone::Column(1), BoardZone::Column(0)));
    let mut pairs = vec![(walk.src, walk.dst)];
    while let Some(pair) = walk.next() {
        pairs.push(pair);
    }
    assert!(walk.finished);
    assert_eq!(walk.next(), None);
    assert_eq!(pairs.len(), 132);
    let zones: Vec<BoardZone> =
        (0..11).map(BoardZone::Column).chain([BoardZone::MinorFoundationStorage]).collect();
    let mut expected = Vec::new();
    for dst in &zones {
        for src in &zones {
            if src != dst {
                expected.push((*src, *dst));
            }
        }
    }
    assert_eq!(pairs, expected);
    assert_eq!(pairs[10], (BoardZone::MinorFoundationStorage, BoardZone::Column(0)));
    assert_eq!(pairs[11], (BoardZone::Column(0), BoardZone::Column(1)));
    assert_eq!(pairs[131], (BoardZone::Column(10), BoardZone::MinorFoundationStorage));
}

#[test]
fn next_board_zone_walks_columns_then_storage() {
    assert_eq!(ZonesIter::next_board_zone(&BoardZone::Column(0)), Some(BoardZone::Column(1)));
    assert_eq!(ZonesIter::next_board_zone(&BoardZone::Column(9)), Some(BoardZone::Column(10)));
    assert_eq!(
        ZonesIter::next_board_zone(&BoardZone::Column(10)),
        Some(BoardZone::MinorFoundationStorage)
    );
    assert_eq!(ZonesIter::next_board_zone(&BoardZone::MinorFoundationStorage), None);
}

#[test]
fn a_step_is_a_move_and_the_cascade() {
    let mut board = with_foundations([11, 13, 13, 13], Some(21), None);
    board.get_column_mut(0).push(pent(13));
    board.get_column_mut(1).push(pent(12));
    board.get_column_mut(1).push(major(3));
    assert!(try_move(&board, BoardZone::Column(0), BoardZone::Column(1)).is_none());
    let next =
        try_move(&board, BoardZone::Column(1), BoardZone::MinorFoundationStorage).unwrap();
    // The queen is free, but the minor foundation is blocked by storage.
    assert_eq!(next.get_column(1).cards(), &vec![pent(12)]);
    let next = try_move(&next, BoardZone::Column(0), BoardZone::Column(1)).unwrap();
    assert_eq!(next.get_column(1).cards(), &vec![pent(12), pent(13)]);
    let frame = Step::new(next);
    assert_eq!(frame.trying_zones, ZonesIter::new());
}

#[test]
fn the_search_can_be_run_step_by_step() {
    let mut board = with_foundations([11, 13, 13, 13], Some(21), None);
    board.get_column_mut(0).push(pent(12));
    board.get_column_mut(0).push(pent(13));
    let mut solver = Solver::new(board.clone());
    let mut won = false;
    for _ in 0..100_000 {
        if solver.is_exhausted() {
            break;
        }
        if solver.take_step() {
            won = true;
            break;
        }
    }
    assert!(won);
    let solution = solver.solution();
    assert_eq!(solution.len(), solver.steps.len());
    assert!(replay(&board, &solution).is_solved());
    assert_eq!(Some(solution), try_solve(&board));
}

#[test]
fn fingerprints_tell_boards_apart() {
    let mut a = Board::empty();
    a.get_column_mut(0).push(pent(2));
    a.get_column_mut(1).push(pent(3));
    let mut b = Board::empty();
    b.get_column_mut(0).push(pent(2));
    b.get_column_mut(0).push(pent(3));
    let mut c = Board::empty();
    c.get_column_mut(1).push(pent(2));
    c.get_column_mut(0).push(pent(3));
    assert_ne!(fingerprint(&a), fingerprint(&b));
    assert_ne!(fingerprint(&a), fingerprint(&c));
    assert_ne!(fingerprint(&b), fingerprint(&c));
    assert_eq!(fingerprint(&a), fingerprint(&a.clone()));
    assert_ne!(fingerprint(&Board::solved(3)), fingerprint(&Board::solved(4)));
    assert_ne!(fingerprint(&Board::solved(21)), fingerprint(&Board::empty()));
    assert_eq!(
        fingerprint(&Board::empty()),
        vec![255, 255, 255, 255, 255, 255, 255, 255, 255, 255, 255, 255, 255, 255, 255, 255, 255, 255]
    );
    let mut d = Board::empty();
    d.get_column_mut(10).push(Card::new(Suit::Minor(MinorSuit::Wands), 13));
    d.get_column_mut(10).push(major(21));
    d.get_column_mut(0).push(pent(1));
    d.move_card(BoardZone::Column(10), BoardZone::MinorFoundationStorage, false).unwrap();
    assert_eq!(
        fingerprint(&d),
        vec![255, 255, 255, 255, 255, 255, 73, 0, 255, 255, 255, 255, 255, 255, 255, 255, 255, 255, 51, 255]
    );
}
