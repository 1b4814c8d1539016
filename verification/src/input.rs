//! What a player's input means: which zone a typed word or a cursor names,
//! and what a key does to the selection.

use vstd::prelude::*;

use crate::rules::{BoardZone, COLUMN_COUNT};
use crate::zones::ZONE_COUNT;

verus! {

/// The value of a decimal digit, or -1 for any other character.
pub open spec fn digit_value(c: char) -> int {
    if c == '0' {
        0
    } else if c == '1' {
        1
    } else if c == '2' {
        2
    } else if c == '3' {
        3
    } else if c == '4' {
        4
    } else if c == '5' {
        5
    } else if c == '6' {
        6
    } else if c == '7' {
        7
    } else if c == '8' {
        8
    } else if c == '9' {
        9
    } else {
        -1
    }
}

/// Whether `text` is made of decimal digits only.
pub open spec fn all_digits(text: Seq<char>) -> bool {
    forall|i: int| 0 <= i < text.len() ==> digit_value(#[trigger] text[i]) >= 0
}

/// The number that a row of decimal digits writes.
pub open spec fn numeral_value(text: Seq<char>) -> int
    decreases text.len(),
{
    if text.len() == 0 {
        0
    } else {
        numeral_value(text.drop_last()) * 10 + digit_value(text.last())
    }
}

/// The digits of a numeral: the text without a leading plus sign.
pub open spec fn unsigned_part(text: Seq<char>) -> Seq<char> {
    if text.len() > 0 && text[0] == '+' {
        text.skip(1)
    } else {
        text
    }
}

/// The zone that a word names: a column by its number, written in decimal
/// with or without a plus sign; the minor foundation by `a`, the major
/// foundation by `A` and the storage slot by `s`. Any other word names
/// nothing.
pub open spec fn zone_of_text(text: Seq<char>) -> Option<BoardZone> {
    let digits = unsigned_part(text);
    if digits.len() > 0 && all_digits(digits) {
        if numeral_value(digits) < COLUMN_COUNT {
            Some(BoardZone::Column(numeral_value(digits) as usize))
        } else {
            None
        }
    } else if text == seq!['a'] {
        Some(BoardZone::MinorFoundation)
    } else if text == seq!['A'] {
        Some(BoardZone::MajorFoundation)
    } else if text == seq!['s'] {
        Some(BoardZone::MinorFoundationStorage)
    } else {
        None
    }
}

/// The zone under a cursor that runs over the columns and then the storage
/// slot.
pub fn idx_to_board_zone(idx: usize) -> (zone: BoardZone)
    ensures
        zone == if idx < COLUMN_COUNT {
            BoardZone::Column(idx)
        } else {
            BoardZone::MinorFoundationStorage
        },
{
    if idx < COLUMN_COUNT {
        BoardZone::Column(idx)
    } else {
        BoardZone::MinorFoundationStorage
    }
}

fn digit_of(c: char) -> (d: Option<usize>)
    ensures
        digit_value(c) >= 0 ==> d == Some(digit_value(c) as usize),
        digit_value(c) < 0 ==> d is None,
{
    match c {
        '0' => Some(0),
        '1' => Some(1),
        '2' => Some(2),
        '3' => Some(3),
        '4' => Some(4),
        '5' => Some(5),
        '6' => Some(6),
        '7' => Some(7),
        '8' => Some(8),
        '9' => Some(9),
        _ => None,
    }
}

/// A numeral never writes a negative number.
pub proof fn lemma_numeral_nonnegative(text: Seq<char>)
    requires
        all_digits(text),
    ensures
        0 <= numeral_value(text),
    decreases text.len(),
{
    if text.len() > 0 {
        lemma_numeral_nonnegative(text.drop_last());
    }
}

/// The zone that a typed word names, if it names one.
pub fn read_zone(s: &str) -> (r: Option<BoardZone>)
    ensures
        r == zone_of_text(s@),
{
    let len = s.unicode_len();
    proof {
        reveal_strlit("a");
        reveal_strlit("A");
        reveal_strlit("s");
    }
    let start: usize = if len > 0 && s.get_char(0) == '+' {
        1
    } else {
        0
    };
    let ghost digits = unsigned_part(s@);
    let mut value: usize = 0;
    let mut numeric = len > start;
    let mut i: usize = start;
    while numeric && i < len
        invariant
            start <= i <= len,
            len == s@.len(),
            digits == s@.skip(start as int),
            value <= COLUMN_COUNT,
            numeric ==> all_digits(digits.take(i - start)),
            numeric ==> value == if numeral_value(digits.take(i - start)) < COLUMN_COUNT {
                numeral_value(digits.take(i - start))
            } else {
                COLUMN_COUNT as int
            },
            numeric ==> digits.len() > 0,
            !numeric ==> !(digits.len() > 0 && all_digits(digits)),
        decreases (if numeric { 1int } else { 0int }) + len - i,
    {
        let c = s.get_char(i);
        proof {
            let sofar = digits.take(i - start);
            let longer = digits.take(i - start + 1);
            assert(longer.drop_last() =~= sofar);
            assert(digits[i - start] == c);
            lemma_numeral_nonnegative(sofar);
        }
        match digit_of(c) {
            Some(d) => {
                if value >= COLUMN_COUNT {
                    value = COLUMN_COUNT;
                } else {
                    let next = value * 10 + d;
                    value = if next < COLUMN_COUNT {
                        next
                    } else {
                        COLUMN_COUNT
                    };
                }
                i += 1;
            },
            None => {
                numeric = false;
            },
        }
    }
    if numeric {
        assert(digits.take(len - start) =~= digits);
        if value < COLUMN_COUNT {
            return Some(BoardZone::Column(value));
        } else {
            return None;
        }
    }
    if len == 1 {
        let c = s.get_char(0);
        assert(s@ =~= seq![c]);
        if c == 'a' {
            return Some(BoardZone::MinorFoundation);
        } else if c == 'A' {
            return Some(BoardZone::MajorFoundation);
        } else if c == 's' {
            return Some(BoardZone::MinorFoundationStorage);
        }
    }
    None
}

/// What a key press asks for.
#[derive(Debug, Clone, Copy, PartialEq, Eq, Structural)]
pub enum Key {
    /// Move the cursor one zone to the left, around the end.
    Left,
    /// Move the cursor one zone to the right, around the end.
    Right,
    /// Pick the zone under the cursor up, or move what was picked up to it.
    Select,
    /// Let go of what was picked up.
    Cancel,
}

/// A cursor over the columns and the storage slot, and the zone that was
/// picked up as the source of a move, if any.
#[derive(Debug, Clone, Copy, PartialEq, Eq, Structural)]
pub struct Selection {
    /// If 0..=10, selects the columns.
    /// If 11, selects the storage over the minor foundation
    pub cursor: usize,
    pub cursor_src: Option<usize>,
}

impl Selection {
    /// The cursor is over one of the zones.
    pub open spec fn wf(self) -> bool {
        self.cursor < ZONE_COUNT
    }

    /// The selection after a key press.
    pub open spec fn after(self, key: Key) -> Selection {
        match key {
            Key::Left => Selection {
                cursor: ((self.cursor + ZONE_COUNT - 1) % (ZONE_COUNT as int)) as usize,
                ..self
            },
            Key::Right => Selection {
                cursor: ((self.cursor + 1) % (ZONE_COUNT as int)) as usize,
                ..self
            },
            Key::Select => match self.cursor_src {
                Some(_) => Selection { cursor_src: None, ..self },
                None => Selection { cursor_src: Some(self.cursor), ..self },
            },
            Key::Cancel => Selection { cursor_src: None, ..self },
        }
    }

    /// The move that a key press asks for: from the zone that was picked
    /// up to the zone under the cursor, when `Select` is pressed with a
    /// zone picked up.
    pub open spec fn asks(self, key: Key) -> Option<(BoardZone, BoardZone)> {
        match (key, self.cursor_src) {
            (Key::Select, Some(src)) => Some(
                (
                    if src < COLUMN_COUNT {
                        BoardZone::Column(src)
                    } else {
                        BoardZone::MinorFoundationStorage
                    },
                    if self.cursor < COLUMN_COUNT {
                        BoardZone::Column(self.cursor)
                    } else {
                        BoardZone::MinorFoundationStorage
                    },
                ),
            ),
            _ => None,
        }
    }

    /// The selection at the start: the cursor over the first column, and
    /// nothing picked up.
    pub fn new() -> (r: Selection)
        ensures
            r == (Selection { cursor: 0, cursor_src: None }),
            r.wf(),
    {
        Selection { cursor: 0, cursor_src: None }
    }

    /// Takes a key press: changes the selection, and returns the move to
    /// make, if the key asks for one.
    pub fn on_key(&mut self, key: Key) -> (r: Option<(BoardZone, BoardZone)>)
        requires
            old(self).wf(),
        ensures
            *final(self) == old(self).after(key),
            r == old(self).asks(key),
            final(self).wf(),
    {
        match key {
            Key::Left => {
                self.cursor = (self.cursor + ZONE_COUNT - 1) % ZONE_COUNT;
                None
            },
            Key::Right => {
                self.cursor = (self.cursor + 1) % ZONE_COUNT;
                None
            },
            Key::Select => {
                if let Some(src) = self.cursor_src {
                    let src_zone = idx_to_board_zone(src);
                    let dst_zone = idx_to_board_zone(self.cursor);
                    self.cursor_src = None;
                    Some((src_zone, dst_zone))
                } else {
                    self.cursor_src = Some(self.cursor);
                    None
                }
            },
            Key::Cancel => {
                self.cursor_src = None;
                None
            },
        }
    }
}

} // verus!
