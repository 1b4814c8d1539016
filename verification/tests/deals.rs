use teletarot::board::Board;
use teletarot::cards::{Card, MinorSuit, Suit};
use teletarot::random::shuffled::{cut_into_stacks, new_deck};
use teletarot::random::{shuffled_random, smartish_random};
use teletarot::rules::BoardZone;

fn all_cards() -> Vec<Card> {
    let mut cards = Vec::new();
    for slot in 0..4u8 {
        for number in 1..=13u8 {
            cards.push(Card::new(Suit::Minor(MinorSuit::n(slot).unwrap()), number));
        }
    }
    for number in 0..=21u8 {
        cards.push(Card::new(Suit::MajorArcana, number));
    }
    cards
}

fn cards_on(board: &Board) -> Vec<Card> {
    let mut cards = Vec::new();
    for column in board.columns() {
        cards.extend(column.cards().iter().cloned());
    }
    cards.extend(board.minor_foundation_storage().cloned());
    for stack in board.virtual_cards_minor_foundation() {
        cards.extend(stack);
    }
    cards.extend(board.virtual_cards_major_foundation_left());
    cards.extend(board.virtual_cards_major_foundation_right());
    cards
}

fn count(cards: &[Card], wanted: &Card) -> usize {
    cards.iter().filter(|card| *card == wanted).count()
}

fn assert_holds_deck(board: &Board) {
    let cards = cards_on(board);
    assert_eq!(cards.len(), 74);
    for card in all_cards() {
        assert_eq!(count(&cards, &card), 1, "{:?}", card);
    }
}

fn assert_fresh_deal(board: &Board) {
    assert_holds_deck(board);
    for (idx, column) in board.columns().iter().enumerate() {
        if idx == 5 {
            assert_eq!(column.len(), 0);
        } else {
            assert_eq!(column.len(), 7);
        }
    }
    assert_eq!(board.columns().iter().filter(|column| column.is_empty()).count(), 1);
    assert_eq!(board.minor_foundation_storage(), None);
    assert_eq!(board.minor_foundation_maxes(), &[Some(1); 4]);
    assert_eq!(board.major_foundation_left_max(), None);
    assert_eq!(board.major_foundation_right_min(), None);
}

#[test]
fn the_deck_has_every_card_but_the_aces() {
    let deck = new_deck();
    assert_eq!(deck.len(), 70);
    assert_eq!(deck[0], Card::new(Suit::Minor(MinorSuit::Pentacles), 2));
    assert_eq!(deck[1], Card::new(Suit::Minor(MinorSuit::Cups), 2));
    assert_eq!(deck[3], Card::new(Suit::Minor(MinorSuit::Wands), 2));
    assert_eq!(deck[4], Card::new(Suit::Minor(MinorSuit::Pentacles), 3));
    assert_eq!(deck[47], Card::new(Suit::Minor(MinorSuit::Wands), 13));
    assert_eq!(deck[48], Card::new(Suit::MajorArcana, 0));
    assert_eq!(deck[69], Card::new(Suit::MajorArcana, 21));
    for card in all_cards() {
        let expected = if card.suit().is_minor() && card.number() == 1 { 0 } else { 1 };
        assert_eq!(count(&deck, &card), expected);
    }
}

#[test]
fn a_row_is_cut_into_ten_stacks_of_seven() {
    let deck = new_deck();
    let stacks = cut_into_stacks(&deck);
    assert_eq!(stacks.len(), 10);
    for (idx, stack) in stacks.iter().enumerate() {
        assert_eq!(stack.cards().as_slice(), &deck[idx * 7..idx * 7 + 7]);
    }
}

#[test]
fn shuffled_deals_hold_the_deck_and_leave_the_middle_empty() {
    for seed in 0..40u64 {
        assert_fresh_deal(&shuffled_random(Some(seed)));
    }
    assert_fresh_deal(&shuffled_random(None));
    assert_fresh_deal(&Board::new(Some(7)));
    assert_fresh_deal(&Board::new(None));
}

#[test]
fn smartish_deals_hold_the_deck_and_leave_the_middle_empty() {
    for seed in 0..40u64 {
        assert_fresh_deal(&smartish_random(Some(seed)));
    }
    assert_fresh_deal(&smartish_random(None));
}

#[test]
fn a_seed_fixes_the_deal() {
    for seed in [0u64, 1, 2, 99, u64::MAX] {
        assert_eq!(shuffled_random(Some(seed)), shuffled_random(Some(seed)));
        assert_eq!(smartish_random(Some(seed)), smartish_random(Some(seed)));
        assert_eq!(Board::new(Some(seed)), shuffled_random(Some(seed)));
    }
}

#[test]
fn deals_are_shuffled() {
    let plain = Board::deal(cut_into_stacks(&new_deck()));
    assert_fresh_deal(&plain);
    let mut different = 0;
    for seed in 0..20u64 {
        if shuffled_random(Some(seed)) != plain {
            different += 1;
        }
    }
    assert_eq!(different, 20);
    assert_ne!(shuffled_random(Some(1)), shuffled_random(Some(2)));
    assert_ne!(smartish_random(Some(1)), smartish_random(Some(2)));
    assert_ne!(smartish_random(Some(1)), shuffled_random(Some(1)));
}

#[test]
fn moves_on_a_deal_keep_the_deck() {
    let mut board = shuffled_random(Some(11));
    let zones: Vec<BoardZone> = (0..11)
        .map(BoardZone::Column)
        .chain([
            BoardZone::MinorFoundationStorage,
            BoardZone::MinorFoundation,
            BoardZone::MajorFoundation,
        ])
        .collect();
    let mut made = 0;
    for round in 0..6 {
        for src in &zones {
            for dst in &zones {
                let before = board.clone();
                match board.move_card(*src, *dst, round % 2 == 0) {
                    Ok(()) => made += 1,
                    Err(_) => assert_eq!(board, before),
                }
                assert_holds_deck(&board);
            }
        }
        board.check_automove_cards();
        assert_holds_deck(&board);
    }
    assert!(made > 0);
    if let (Some(left), Some(right)) =
        (board.major_foundation_left_max(), board.major_foundation_right_min())
    {
        assert!(left < right);
    }
}
