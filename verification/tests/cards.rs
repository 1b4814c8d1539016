use teletarot::cards::{decimal_string, Card, MinorSuit, Suit};

#[test]
fn ace_of_cups_renders_as_ac() {
    let card = Card::new(Suit::Minor(MinorSuit::Cups), 1);
    assert_eq!(card.to_string(), "Ac");
}

#[test]
fn last_major_arcana_renders_as_21a() {
    let card = Card::new(Suit::MajorArcana, 21);
    assert_eq!(card.to_string(), "21A");
}

#[test]
fn every_suit_has_its_letter() {
    assert_eq!(Card::new(Suit::Minor(MinorSuit::Pentacles), 10).to_string(), "10p");
    assert_eq!(Card::new(Suit::Minor(MinorSuit::Cups), 11).to_string(), "Jc");
    assert_eq!(Card::new(Suit::Minor(MinorSuit::Swords), 12).to_string(), "Qs");
    assert_eq!(Card::new(Suit::Minor(MinorSuit::Wands), 13).to_string(), "Kw");
    assert_eq!(Card::new(Suit::MajorArcana, 0).to_string(), "0A");
    assert_eq!(Card::new(Suit::MajorArcana, 9).to_string(), "9A");
    assert_eq!(MinorSuit::Pentacles.short_char(), 'p');
    assert_eq!(MinorSuit::Cups.short_char(), 'c');
    assert_eq!(MinorSuit::Swords.short_char(), 's');
    assert_eq!(MinorSuit::Wands.short_char(), 'w');
}

#[test]
fn minor_number_strings() {
    assert_eq!(Card::minor_number_string(1), "A");
    assert_eq!(Card::minor_number_string(2), "2");
    assert_eq!(Card::minor_number_string(7), "7");
    assert_eq!(Card::minor_number_string(10), "10");
    assert_eq!(Card::minor_number_string(11), "J");
    assert_eq!(Card::minor_number_string(12), "Q");
    assert_eq!(Card::minor_number_string(13), "K");
    assert_eq!(Card::minor_number_string(0), "0!");
    assert_eq!(Card::minor_number_string(14), "14!");
    assert_eq!(Card::minor_number_string(255), "255!");
}

#[test]
fn decimal_strings_match_std() {
    for n in 0..=255u8 {
        assert_eq!(decimal_string(n), format!("{}", n));
    }
}

#[test]
fn cards_stack_with_neighbours_of_their_suit() {
    let five = Card::new(Suit::Minor(MinorSuit::Cups), 5);
    let six = Card::new(Suit::Minor(MinorSuit::Cups), 6);
    let seven = Card::new(Suit::Minor(MinorSuit::Cups), 7);
    let other_six = Card::new(Suit::Minor(MinorSuit::Wands), 6);
    let major_six = Card::new(Suit::MajorArcana, 6);
    assert!(five.can_stack(&six));
    assert!(six.can_stack(&five));
    assert!(six.can_stack(&seven));
    assert!(!five.can_stack(&seven));
    assert!(!five.can_stack(&five));
    assert!(!five.can_stack(&other_six));
    assert!(!five.can_stack(&major_six));
    assert!(Card::new(Suit::MajorArcana, 0).can_stack(&Card::new(Suit::MajorArcana, 1)));
    assert!(!Card::new(Suit::MajorArcana, 0).can_stack(&Card::new(Suit::MajorArcana, 21)));
}

#[test]
fn cards_compare_by_value() {
    let a = Card::new(Suit::Minor(MinorSuit::Swords), 3);
    let b = Card::new(Suit::Minor(MinorSuit::Swords), 3);
    assert_eq!(a, b);
    assert_eq!(a.clone(), a);
    assert_ne!(a, Card::new(Suit::Minor(MinorSuit::Swords), 4));
    assert_ne!(a, Card::new(Suit::Minor(MinorSuit::Cups), 3));
    assert_eq!(a.suit(), Suit::Minor(MinorSuit::Swords));
    assert_eq!(a.number(), 3);
}

#[test]
fn suits_know_their_kind_and_slot() {
    assert!(Suit::Minor(MinorSuit::Wands).is_minor());
    assert!(!Suit::MajorArcana.is_minor());
    assert_eq!(MinorSuit::n(0), Some(MinorSuit::Pentacles));
    assert_eq!(MinorSuit::n(1), Some(MinorSuit::Cups));
    assert_eq!(MinorSuit::n(2), Some(MinorSuit::Swords));
    assert_eq!(MinorSuit::n(3), Some(MinorSuit::Wands));
    assert_eq!(MinorSuit::n(4), None);
    for slot in 0..4u8 {
        assert_eq!(MinorSuit::n(slot).unwrap().index(), slot as usize);
    }
}

#[test]
fn ranks_are_checked_by_suit() {
    assert!(Card::is_rank_in_range(Suit::Minor(MinorSuit::Cups), 1));
    assert!(Card::is_rank_in_range(Suit::Minor(MinorSuit::Cups), 13));
    assert!(!Card::is_rank_in_range(Suit::Minor(MinorSuit::Cups), 0));
    assert!(!Card::is_rank_in_range(Suit::Minor(MinorSuit::Cups), 14));
    assert!(Card::is_rank_in_range(Suit::MajorArcana, 0));
    assert!(Card::is_rank_in_range(Suit::MajorArcana, 21));
    assert!(!Card::is_rank_in_range(Suit::MajorArcana, 22));
}
