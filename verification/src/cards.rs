//! Cards and suits: plain values with an adjacency test and a short text form.

use vstd::prelude::*;

verus! {

/// The four suits of the minor arcana, in the order used for foundation slots.
#[derive(Debug, Clone, Copy, PartialEq, Eq, Hash, Structural)]
pub enum MinorSuit {
    Pentacles,
    Cups,
    Swords,
    Wands,
}

impl MinorSuit {
    /// The slot number of this suit, `0..=3`.
    pub open spec fn spec_index(self) -> int {
        match self {
            MinorSuit::Pentacles => 0,
            MinorSuit::Cups => 1,
            MinorSuit::Swords => 2,
            MinorSuit::Wands => 3,
        }
    }

    /// The suit that sits in slot `idx`; defined for `0 <= idx < 4`.
    pub open spec fn spec_n(idx: int) -> MinorSuit {
        if idx == 0 {
            MinorSuit::Pentacles
        } else if idx == 1 {
            MinorSuit::Cups
        } else if idx == 2 {
            MinorSuit::Swords
        } else {
            MinorSuit::Wands
        }
    }

    /// The lower-case letter that stands for the suit in a card's text.
    pub open spec fn spec_short_char(self) -> char {
        match self {
            MinorSuit::Pentacles => 'p',
            MinorSuit::Cups => 'c',
            MinorSuit::Swords => 's',
            MinorSuit::Wands => 'w',
        }
    }

    pub fn short_char(&self) -> (c: char)
        ensures
            c == self.spec_short_char(),
    {
        match self {
            MinorSuit::Pentacles => 'p',
            MinorSuit::Cups => 'c',
            MinorSuit::Swords => 's',
            MinorSuit::Wands => 'w',
        }
    }

    /// The suit in slot `idx`, or `None` when `idx` names no slot.
    pub fn n(idx: u8) -> (r: Option<MinorSuit>)
        ensures
            idx < 4 ==> r == Some(Self::spec_n(idx as int)),
            idx >= 4 ==> r is None,
    {
        match idx {
            0 => Some(MinorSuit::Pentacles),
            1 => Some(MinorSuit::Cups),
            2 => Some(MinorSuit::Swords),
            3 => Some(MinorSuit::Wands),
            _ => None,
        }
    }

    /// The slot number of this suit.
    pub fn index(&self) -> (r: usize)
        ensures
            r == self.spec_index(),
            r < 4,
            Self::spec_n(r as int) == *self,
    {
        match self {
            MinorSuit::Pentacles => 0,
            MinorSuit::Cups => 1,
            MinorSuit::Swords => 2,
            MinorSuit::Wands => 3,
        }
    }
}

/// A card belongs to one of the four minor suits or to the major arcana.
#[derive(Debug, Clone, Copy, PartialEq, Eq, Hash, Structural)]
pub enum Suit {
    Minor(MinorSuit),
    MajorArcana,
}

impl Suit {
    pub open spec fn spec_is_minor(&self) -> bool {
        self is Minor
    }

    #[verifier::when_used_as_spec(spec_is_minor)]
    pub fn is_minor(&self) -> (r: bool)
        ensures
            r == self.spec_is_minor(),
    {
        match self {
            Suit::Minor(_) => true,
            Suit::MajorArcana => false,
        }
    }
}

/// A tarot card. It is not `Copy`, so that a card is moved, not duplicated by
/// accident; `clone` gives an equal card where one is wanted.
#[derive(Debug, PartialEq, Eq, Hash, Structural)]
pub struct Card {
    pub suit: Suit,
    pub number: u8,
}

impl Clone for Card {
    fn clone(&self) -> (r: Self)
        ensures
            r == *self,
    {
        Card { suit: self.suit, number: self.number }
    }
}

/// The lowest rank of a minor suit: the ace.
pub const MINOR_ARCANA_MIN: u8 = 1;

/// The highest rank of a minor suit: the king.
pub const MINOR_ARCANA_MAX: u8 = 13;

/// The lowest rank of the major arcana.
pub const MAJOR_ARCANA_MIN: u8 = 0;

/// The highest rank of the major arcana.
pub const MAJOR_ARCANA_MAX: u8 = 21;

/// The character of a decimal digit; defined for `0 <= d < 10`.
pub open spec fn digit_char(d: int) -> char {
    seq!['0', '1', '2', '3', '4', '5', '6', '7', '8', '9'][d]
}

/// The decimal numeral of `n`, without leading zeros.
pub open spec fn decimal_text(n: nat) -> Seq<char>
    decreases n,
{
    if n < 10 {
        seq![digit_char(n as int)]
    } else {
        decimal_text(n / 10).push(digit_char((n % 10) as int))
    }
}

/// The text of a minor-arcana rank: court cards and the ace by letter, the
/// pips by numeral, and anything out of range by its numeral and a `!`.
pub open spec fn minor_number_text(num: u8) -> Seq<char> {
    if num == 1 {
        seq!['A']
    } else if num == 11 {
        seq!['J']
    } else if num == 12 {
        seq!['Q']
    } else if num == 13 {
        seq!['K']
    } else if 2 <= num <= 10 {
        decimal_text(num as nat)
    } else {
        decimal_text(num as nat).push('!')
    }
}

fn digit_str(d: u8) -> (s: &'static str)
    requires
        d < 10,
    ensures
        s@ == seq![digit_char(d as int)],
{
    proof {
        reveal_strlit("0");
        reveal_strlit("1");
        reveal_strlit("2");
        reveal_strlit("3");
        reveal_strlit("4");
        reveal_strlit("5");
        reveal_strlit("6");
        reveal_strlit("7");
        reveal_strlit("8");
        reveal_strlit("9");
    }
    match d {
        0 => "0",
        1 => "1",
        2 => "2",
        3 => "3",
        4 => "4",
        5 => "5",
        6 => "6",
        7 => "7",
        8 => "8",
        _ => "9",
    }
}

/// The decimal numeral of `n` as a string.
pub fn decimal_string(n: u8) -> (s: String)
    ensures
        s@ == decimal_text(n as nat),
{
    let mut s = String::new();
    if n >= 100 {
        s.append(digit_str(n / 100));
    }
    if n >= 10 {
        s.append(digit_str((n / 10) % 10));
    }
    s.append(digit_str(n % 10));
    proof {
        reveal_with_fuel(decimal_text, 3);
    }
    s
}

impl Card {
    pub const MINOR_ARCANA_MIN: u8 = MINOR_ARCANA_MIN;

    pub const MINOR_ARCANA_MAX: u8 = MINOR_ARCANA_MAX;

    pub const MAJOR_ARCANA_MIN: u8 = MAJOR_ARCANA_MIN;

    pub const MAJOR_ARCANA_MAX: u8 = MAJOR_ARCANA_MAX;

    /// Whether `number` is a rank that `suit` has: 1 to 13 for a minor suit,
    /// 0 to 21 for the major arcana.
    pub open spec fn rank_in_range(suit: Suit, number: u8) -> bool {
        match suit {
            Suit::Minor(_) => MINOR_ARCANA_MIN <= number <= MINOR_ARCANA_MAX,
            Suit::MajorArcana => MAJOR_ARCANA_MIN <= number <= MAJOR_ARCANA_MAX,
        }
    }

    /// A card is valid when its rank is one that its suit has.
    pub open spec fn valid(self) -> bool {
        Self::rank_in_range(self.suit, self.number)
    }

    /// Two cards stack, either way round, when they share a suit and their
    /// ranks are neighbours.
    pub open spec fn stacks_with(self, other: Card) -> bool {
        self.suit == other.suit && (self.number + 1 == other.number || other.number + 1
            == self.number)
    }

    /// The short text of the card: its rank, then the letter of its suit.
    pub open spec fn text(self) -> Seq<char> {
        match self.suit {
            Suit::Minor(m) => minor_number_text(self.number).push(m.spec_short_char()),
            Suit::MajorArcana => decimal_text(self.number as nat).push('A'),
        }
    }

    /// Whether `number` is a rank that `suit` has, for callers that hold a
    /// rank which nobody has checked yet.
    pub fn is_rank_in_range(suit: Suit, number: u8) -> (r: bool)
        ensures
            r == Self::rank_in_range(suit, number),
    {
        match suit {
            Suit::Minor(_) => MINOR_ARCANA_MIN <= number && number <= MINOR_ARCANA_MAX,
            Suit::MajorArcana => number <= MAJOR_ARCANA_MAX,
        }
    }

    pub fn new(suit: Suit, number: u8) -> (c: Card)
        requires
            Self::rank_in_range(suit, number),
        ensures
            c == (Card { suit, number }),
            c.valid(),
    {
        Card { suit, number }
    }

    pub fn suit(&self) -> (s: Suit)
        ensures
            s == self.suit,
    {
        self.suit
    }

    pub fn number(&self) -> (n: u8)
        ensures
            n == self.number,
    {
        self.number
    }

    /// Return if this card can stack on or under the other card.
    pub fn can_stack(&self, other: &Card) -> (r: bool)
        ensures
            r == self.stacks_with(*other),
    {
        let same = self.suit == other.suit;
        let near = if self.number < other.number {
            other.number - self.number == 1
        } else {
            self.number - other.number == 1
        };
        same && near
    }

    /// Get the string representation of the number of one of the minor arcana.
    pub fn minor_number_string(num: u8) -> (s: String)
        ensures
            s@ == minor_number_text(num),
    {
        proof {
            reveal_strlit("A");
            reveal_strlit("J");
            reveal_strlit("Q");
            reveal_strlit("K");
            reveal_strlit("!");
        }
        if num == 1 {
            String::from_str("A")
        } else if num == 11 {
            String::from_str("J")
        } else if num == 12 {
            String::from_str("Q")
        } else if num == 13 {
            String::from_str("K")
        } else if 2 <= num && num <= 10 {
            decimal_string(num)
        } else {
            let mut s = decimal_string(num);
            s.append("!");
            s
        }
    }

    /// The short text of the card, such as `Ac` for the ace of cups and
    /// `21A` for the last of the major arcana.
    pub fn to_string(&self) -> (s: String)
        ensures
            s@ == self.text(),
    {
        proof {
            reveal_strlit("A");
            reveal_strlit("p");
            reveal_strlit("c");
            reveal_strlit("s");
            reveal_strlit("w");
        }
        match self.suit {
            Suit::Minor(m) => {
                let mut s = Card::minor_number_string(self.number);
                let letter = match m {
                    MinorSuit::Pentacles => "p",
                    MinorSuit::Cups => "c",
                    MinorSuit::Swords => "s",
                    MinorSuit::Wands => "w",
                };
                s.append(letter);
                s
            },
            Suit::MajorArcana => {
                let mut s = decimal_string(self.number);
                s.append("A");
                s
            },
        }
    }
}

} // verus!
