//! What a picture of the game needs to know beside the board: the colour
//! of a suit, where a card's picture lies on the sheet of cards, and where
//! the marks on the layout sheet put the zones of the board.

use vstd::prelude::*;

use crate::cards::{Card, MinorSuit, Suit};
use crate::rules::COLUMN_COUNT;

verus! {

/// The width of a card's picture, in cells.
pub const CARD_WIDTH: usize = 11;

/// The height of a card's picture, in cells.
pub const CARD_HEIGHT: usize = 10;

/// The width of the gap between two pictures on the sheet of cards.
pub const CARD_PADDING: usize = 1;

/// The number of different marks on the layout sheet.
pub const MARK_COUNT: usize = 19;

/// The eight colours of a terminal.
#[derive(Debug, Clone, Copy, PartialEq, Eq, Structural)]
pub enum BaseColor {
    Black,
    Red,
    Green,
    Yellow,
    Blue,
    Magenta,
    Cyan,
    White,
}

/// A colour of a terminal in one of its two shades.
#[derive(Debug, Clone, Copy, PartialEq, Eq, Structural)]
pub enum TermColor {
    Dark(BaseColor),
    Light(BaseColor),
}

/// How the border of a card is coloured.
#[derive(Debug, Clone, Copy, PartialEq, Eq, Structural)]
pub enum CardBorderColor {
    HilightIfThickBorder,
    AlwaysHilight,
    NeverHilight,
    Custom(TermColor),
}

/// The colour that stands for a suit.
pub open spec fn spec_suit_color(suit: Suit) -> BaseColor {
    match suit {
        Suit::Minor(MinorSuit::Pentacles) => BaseColor::Yellow,
        Suit::Minor(MinorSuit::Cups) => BaseColor::Red,
        Suit::Minor(MinorSuit::Wands) => BaseColor::Green,
        Suit::Minor(MinorSuit::Swords) => BaseColor::Cyan,
        Suit::MajorArcana => BaseColor::Magenta,
    }
}

pub fn suit_color(suit: Suit) -> (color: BaseColor)
    ensures
        color == spec_suit_color(suit),
{
    match suit {
        Suit::Minor(MinorSuit::Pentacles) => BaseColor::Yellow,
        Suit::Minor(MinorSuit::Cups) => BaseColor::Red,
        Suit::Minor(MinorSuit::Wands) => BaseColor::Green,
        Suit::Minor(MinorSuit::Swords) => BaseColor::Cyan,
        Suit::MajorArcana => BaseColor::Magenta,
    }
}

/// The terminal colour that a colour of the sixteen-colour palette stands
/// for, by its red, green and blue parts; `None` for any other colour.
pub open spec fn palette_color(r: u8, g: u8, b: u8) -> Option<TermColor> {
    if (r, g, b) == (0u8, 0u8, 0u8) {
        Some(TermColor::Dark(BaseColor::Black))
    } else if (r, g, b) == (170u8, 0u8, 0u8) {
        Some(TermColor::Dark(BaseColor::Red))
    } else if (r, g, b) == (0u8, 170u8, 0u8) {
        Some(TermColor::Dark(BaseColor::Green))
    } else if (r, g, b) == (170u8, 85u8, 0u8) {
        Some(TermColor::Dark(BaseColor::Yellow))
    } else if (r, g, b) == (0u8, 0u8, 170u8) {
        Some(TermColor::Dark(BaseColor::Blue))
    } else if (r, g, b) == (170u8, 0u8, 170u8) {
        Some(TermColor::Dark(BaseColor::Magenta))
    } else if (r, g, b) == (0u8, 170u8, 170u8) {
        Some(TermColor::Dark(BaseColor::Cyan))
    } else if (r, g, b) == (170u8, 170u8, 170u8) {
        Some(TermColor::Dark(BaseColor::White))
    } else if (r, g, b) == (85u8, 85u8, 85u8) {
        Some(TermColor::Light(BaseColor::Black))
    } else if (r, g, b) == (255u8, 85u8, 85u8) {
        Some(TermColor::Light(BaseColor::Red))
    } else if (r, g, b) == (85u8, 255u8, 85u8) {
        Some(TermColor::Light(BaseColor::Green))
    } else if (r, g, b) == (255u8, 255u8, 85u8) {
        Some(TermColor::Light(BaseColor::Yellow))
    } else if (r, g, b) == (85u8, 85u8, 255u8) {
        Some(TermColor::Light(BaseColor::Blue))
    } else if (r, g, b) == (255u8, 85u8, 255u8) {
        Some(TermColor::Light(BaseColor::Magenta))
    } else if (r, g, b) == (85u8, 255u8, 255u8) {
        Some(TermColor::Light(BaseColor::Cyan))
    } else if (r, g, b) == (255u8, 255u8, 255u8) {
        Some(TermColor::Light(BaseColor::White))
    } else {
        None
    }
}

/// The terminal colour of a cell's colour on a sheet, or `None` if the
/// colour is none of the palette's.
pub fn color_xp_to_siv(r: u8, g: u8, b: u8) -> (color: Option<TermColor>)
    ensures
        color == palette_color(r, g, b),
{
    match (r, g, b) {
        (0, 0, 0) => Some(TermColor::Dark(BaseColor::Black)),
        (170, 0, 0) => Some(TermColor::Dark(BaseColor::Red)),
        (0, 170, 0) => Some(TermColor::Dark(BaseColor::Green)),
        (170, 85, 0) => Some(TermColor::Dark(BaseColor::Yellow)),
        (0, 0, 170) => Some(TermColor::Dark(BaseColor::Blue)),
        (170, 0, 170) => Some(TermColor::Dark(BaseColor::Magenta)),
        (0, 170, 170) => Some(TermColor::Dark(BaseColor::Cyan)),
        (170, 170, 170) => Some(TermColor::Dark(BaseColor::White)),
        //
        (85, 85, 85) => Some(TermColor::Light(BaseColor::Black)),
        (255, 85, 85) => Some(TermColor::Light(BaseColor::Red)),
        (85, 255, 85) => Some(TermColor::Light(BaseColor::Green)),
        (255, 255, 85) => Some(TermColor::Light(BaseColor::Yellow)),
        (85, 85, 255) => Some(TermColor::Light(BaseColor::Blue)),
        (255, 85, 255) => Some(TermColor::Light(BaseColor::Magenta)),
        (85, 255, 255) => Some(TermColor::Light(BaseColor::Cyan)),
        (255, 255, 255) => Some(TermColor::Light(BaseColor::White)),
        _ => None,
    }
}

impl CardBorderColor {
    /// The colour of a card's border: the colour of its suit, light where
    /// the rule says so, or the colour that the rule names.
    pub open spec fn spec_resolve(self, thick_border: bool, suit: BaseColor) -> TermColor {
        match self {
            CardBorderColor::HilightIfThickBorder => if thick_border {
                TermColor::Light(suit)
            } else {
                TermColor::Dark(suit)
            },
            CardBorderColor::AlwaysHilight => TermColor::Light(suit),
            CardBorderColor::NeverHilight => TermColor::Dark(suit),
            CardBorderColor::Custom(it) => it,
        }
    }

    pub fn resolve(self, thick_border: bool, suit: BaseColor) -> (color: TermColor)
        ensures
            color == self.spec_resolve(thick_border, suit),
    {
        match self {
            CardBorderColor::HilightIfThickBorder => if thick_border {
                TermColor::Light(suit)
            } else {
                TermColor::Dark(suit)
            },
            CardBorderColor::AlwaysHilight => TermColor::Light(suit),
            CardBorderColor::NeverHilight => TermColor::Dark(suit),
            CardBorderColor::Custom(it) => it,
        }
    }

    /// How a card on a column is bordered: in white where it is the card
    /// that was picked up, lit up where a foundation waits for it, else by
    /// the thickness of its border.
    pub fn for_column_card(picked_up: bool, is_next_card: bool) -> (r: CardBorderColor)
        ensures
            r == if picked_up {
                CardBorderColor::Custom(TermColor::Light(BaseColor::White))
            } else if is_next_card {
                CardBorderColor::AlwaysHilight
            } else {
                CardBorderColor::HilightIfThickBorder
            },
    {
        if picked_up {
            CardBorderColor::Custom(TermColor::Light(BaseColor::White))
        } else if is_next_card {
            CardBorderColor::AlwaysHilight
        } else {
            CardBorderColor::HilightIfThickBorder
        }
    }
}

/// The place of a card's picture on the sheet of cards, counted in
/// pictures: the minor arcana lie in one row for each suit, the major
/// arcana in rows of thirteen below them.
pub open spec fn spec_atlas_cell(card: Card) -> (usize, usize) {
    match card.suit {
        Suit::Minor(suit) => ((card.number - 1) as usize, suit.spec_index() as usize),
        Suit::MajorArcana => ((card.number % 13) as usize, (4 + card.number / 13) as usize),
    }
}

pub fn atlas_cell(card: &Card) -> (r: (usize, usize))
    requires
        card.valid(),
    ensures
        r == spec_atlas_cell(*card),
{
    match card.suit() {
        Suit::Minor(suit) => (card.number() as usize - 1, suit.index()),
        Suit::MajorArcana => ((card.number() % 13) as usize, 4 + (card.number() / 13) as usize),
    }
}

/// The cell of the sheet of cards that shows cell `(dx, dy)` of a card's
/// picture: pictures are a gap apart, and a gap from the sheet's edge.
pub fn atlas_source(card: &Card, dx: usize, dy: usize) -> (r: (usize, usize))
    requires
        card.valid(),
        dx < CARD_WIDTH,
        dy < CARD_HEIGHT,
    ensures
        r.0 == spec_atlas_cell(*card).0 * (CARD_WIDTH + CARD_PADDING) + CARD_PADDING + dx,
        r.1 == spec_atlas_cell(*card).1 * (CARD_HEIGHT + CARD_PADDING) + CARD_PADDING + dy,
{
    let (column, row) = atlas_cell(card);
    (
        column * (CARD_WIDTH + CARD_PADDING) + CARD_PADDING + dx,
        row * (CARD_HEIGHT + CARD_PADDING) + CARD_PADDING + dy,
    )
}

/// Whether a layer's cell covers what lies under it: the layer has a cell
/// there, its background is not see-through, and it holds no blank.
pub open spec fn covers(cell: Option<(u32, bool)>) -> bool {
    cell is Some && !cell.unwrap().1 && cell.unwrap().0 != 32
}

/// The topmost layer whose cell shows, the layers given bottom first, each
/// as its cell's character and whether its background is see-through.
pub fn top_visible(cells: &Vec<Option<(u32, bool)>>) -> (r: Option<usize>)
    ensures
        match r {
            Some(i) => i < cells@.len() && covers(cells@[i as int]) && forall|j: int|
                i < j < cells@.len() ==> !covers(#[trigger] cells@[j]),
            None => forall|j: int| 0 <= j < cells@.len() ==> !covers(#[trigger] cells@[j]),
        },
{
    let mut i = cells.len();
    while i > 0
        invariant
            i <= cells@.len(),
            forall|j: int| i <= j < cells@.len() ==> !covers(#[trigger] cells@[j]),
        decreases i,
    {
        i -= 1;
        match cells[i] {
            Some((ch, transparent)) => {
                if !transparent && ch != 32 {
                    return Some(i);
                }
            },
            None => {},
        }
    }
    None
}

/// The mark that a character of the layout sheet stands for, by number:
/// the two sides of the major foundation, the four minor foundations, the
/// storage slot, the eleven columns, and the far corner of the board.
/// Only the character's low byte counts.
pub open spec fn mark_of(ch: u32) -> Option<usize> {
    let byte = ch % 256;
    if byte == 76 {
        Some(0usize)
    } else if byte == 82 {
        Some(1usize)
    } else if byte == 0x0F {
        Some(2usize)
    } else if byte == 0x9D {
        Some(3usize)
    } else if byte == 0x18 {
        Some(4usize)
    } else if byte == 37 {
        Some(5usize)
    } else if byte == 83 {
        Some(6usize)
    } else if 97 <= byte <= 107 {
        Some((7 + (byte - 97)) as usize)
    } else if byte == 88 {
        Some(18usize)
    } else {
        None
    }
}

/// The last cell of the sheet that holds mark `mark`, if any.
pub open spec fn last_mark(cells: Seq<u32>, mark: usize) -> Option<usize>
    decreases cells.len(),
{
    if cells.len() == 0 {
        None
    } else if mark_of(cells.last()) == Some(mark) {
        Some((cells.len() - 1) as usize)
    } else {
        last_mark(cells.drop_last(), mark)
    }
}

/// The position of cell `idx` on a sheet that is stored column by column.
pub open spec fn cell_pos(idx: usize, height: usize) -> (usize, usize) {
    ((idx / height) as usize, (idx % height) as usize)
}

/// Where the zones of the board are drawn.
#[derive(Debug, Clone, Copy, PartialEq, Eq)]
pub struct Layout {
    pub maj_fndn_left: (usize, usize),
    pub maj_fndn_right: (usize, usize),
    pub min_fndn_storage: (usize, usize),
    pub min_fndn_poses: [(usize, usize); 4],
    pub column_poses: [(usize, usize); COLUMN_COUNT],
    pub board_size: (usize, usize),
}

impl Layout {
    /// The position that the layout has for mark `mark`; for the far
    /// corner, the position of the mark itself.
    pub open spec fn mark_pos(self, mark: int) -> (int, int) {
        if mark == 0 {
            (self.maj_fndn_left.0 as int, self.maj_fndn_left.1 as int)
        } else if mark == 1 {
            (self.maj_fndn_right.0 as int, self.maj_fndn_right.1 as int)
        } else if 2 <= mark < 6 {
            (self.min_fndn_poses[mark - 2].0 as int, self.min_fndn_poses[mark - 2].1 as int)
        } else if mark == 6 {
            (self.min_fndn_storage.0 as int, self.min_fndn_storage.1 as int)
        } else if 7 <= mark < 18 {
            (self.column_poses[mark - 7].0 as int, self.column_poses[mark - 7].1 as int)
        } else {
            (self.board_size.0 - 1, self.board_size.1 - 1)
        }
    }
}

fn mark_index(ch: u32) -> (r: Option<usize>)
    ensures
        r == mark_of(ch),
        r matches Some(m) ==> m < MARK_COUNT,
{
    let byte = (ch % 256) as u8;
    if byte == 76 {
        Some(0)
    } else if byte == 82 {
        Some(1)
    } else if byte == 0x0F {
        Some(2)
    } else if byte == 0x9D {
        Some(3)
    } else if byte == 0x18 {
        Some(4)
    } else if byte == 37 {
        Some(5)
    } else if byte == 83 {
        Some(6)
    } else if 97 <= byte && byte <= 107 {
        Some(7 + (byte - 97) as usize)
    } else if byte == 88 {
        Some(18)
    } else {
        None
    }
}

fn pos_of(idx: usize, height: usize) -> (r: (usize, usize))
    requires
        height > 0,
    ensures
        r == cell_pos(idx, height),
{
    // The sheet is stored column by column.
    (idx / height, idx % height)
}

/// Reads the layout off a sheet: the characters of its cells, stored
/// column by column in columns of `height` cells. Each mark puts a zone
/// where the mark lies, the last one of its kind where there are several;
/// the far corner gives the size of the board. The result is `None`
/// exactly if some mark is missing.
pub fn read_layout(cells: &Vec<u32>, height: usize) -> (r: Option<Layout>)
    requires
        height > 0,
    ensures
        match r {
            Some(layout) => forall|mark: int|
                0 <= mark < MARK_COUNT ==> {
                    &&& (#[trigger] last_mark(cells@, mark as usize)) is Some
                    &&& layout.mark_pos(mark) == (
                        cell_pos(last_mark(cells@, mark as usize).unwrap(), height).0 as int,
                        cell_pos(last_mark(cells@, mark as usize).unwrap(), height).1 as int,
                    )
                },
            None => exists|mark: int|
                0 <= mark < MARK_COUNT && (#[trigger] last_mark(cells@, mark as usize)) is None,
        },
{
    let mut found: [Option<usize>; 19] = [None; 19];
    let mut idx: usize = 0;
    while idx < cells.len()
        invariant
            idx <= cells@.len(),
            forall|mark: int|
                0 <= mark < MARK_COUNT ==> (#[trigger] found[mark]) == last_mark(
                    cells@.take(idx as int),
                    mark as usize,
                ),
            forall|mark: int|
                0 <= mark < MARK_COUNT ==> ((#[trigger] found[mark]) matches Some(at) ==> at
                    < cells@.len()),
        decreases cells@.len() - idx,
    {
        let ghost sofar = cells@.take(idx as int);
        let ghost longer = cells@.take(idx + 1);
        assert(longer.drop_last() =~= sofar);
        match mark_index(cells[idx]) {
            Some(mark) => {
                found[mark] = Some(idx);
            },
            None => {},
        }
        idx += 1;
    }
    assert(cells@.take(idx as int) =~= cells@);
    let mut mark: usize = 0;
    while mark < MARK_COUNT
        invariant
            mark <= MARK_COUNT,
            forall|m: int| 0 <= m < mark ==> (#[trigger] found[m]) is Some,
            forall|m: int|
                0 <= m < MARK_COUNT ==> (#[trigger] found[m]) == last_mark(cells@, m as usize),
        decreases MARK_COUNT - mark,
    {
        if found[mark].is_none() {
            return None;
        }
        mark += 1;
    }
    let mut min_fndn_poses: [(usize, usize); 4] = [(0, 0); 4];
    let mut slot: usize = 0;
    while slot < 4
        invariant
            slot <= 4,
            height > 0,
            forall|m: int| 0 <= m < MARK_COUNT ==> (#[trigger] found[m]) is Some,
            forall|s: int|
                0 <= s < slot ==> (#[trigger] min_fndn_poses[s]) == cell_pos(
                    found[s + 2].unwrap(),
                    height,
                ),
        decreases 4 - slot,
    {
        min_fndn_poses[slot] = pos_of(found[slot + 2].unwrap(), height);
        slot += 1;
    }
    let mut column_poses: [(usize, usize); COLUMN_COUNT] = [(0, 0); COLUMN_COUNT];
    let mut col: usize = 0;
    while col < COLUMN_COUNT
        invariant
            col <= COLUMN_COUNT,
            height > 0,
            forall|m: int| 0 <= m < MARK_COUNT ==> (#[trigger] found[m]) is Some,
            forall|c: int|
                0 <= c < col ==> (#[trigger] column_poses[c]) == cell_pos(
                    found[c + 7].unwrap(),
                    height,
                ),
        decreases COLUMN_COUNT - col,
    {
        column_poses[col] = pos_of(found[col + 7].unwrap(), height);
        col += 1;
    }
    let corner = pos_of(found[18].unwrap(), height);
    let layout = Layout {
        maj_fndn_left: pos_of(found[0].unwrap(), height),
        maj_fndn_right: pos_of(found[1].unwrap(), height),
        min_fndn_storage: pos_of(found[6].unwrap(), height),
        min_fndn_poses,
        column_poses,
        board_size: (corner.0 + 1, corner.1 + 1),
    };
    proof {
        assert forall|m: int| 0 <= m < MARK_COUNT implies {
            &&& (#[trigger] last_mark(cells@, m as usize)) is Some
            &&& layout.mark_pos(m) == (
                cell_pos(last_mark(cells@, m as usize).unwrap(), height).0 as int,
                cell_pos(last_mark(cells@, m as usize).unwrap(), height).1 as int,
            )
        } by {
            if 7 <= m < 18 {
                assert(column_poses[m - 7] == cell_pos(found[m - 7 + 7].unwrap(), height));
            }
        }
    }
    Some(layout)
}

/// A mark that is found lies on the sheet.
pub proof fn lemma_last_mark_in_range(cells: Seq<u32>, mark: usize)
    ensures
        last_mark(cells, mark) matches Some(at) ==> at < cells.len(),
    decreases cells.len(),
{
    if cells.len() > 0 && mark_of(cells.last()) != Some(mark) {
        lemma_last_mark_in_range(cells.drop_last(), mark);
    }
}

} // verus!
