//! The game's rules as a mathematical model: what a board holds, what each
//! move does to it, and what the automatic cascade leaves behind.

use vstd::multiset::Multiset;
use vstd::prelude::*;

use crate::cards::{Card, MinorSuit, Suit};

verus! {

/// The number of columns on a board.
pub const COLUMN_COUNT: usize = 11;

/// The height of each dealt column: the 70 cards that are not aces, spread
/// over all columns but the one left empty.
pub const DESIRED_STACK_HEIGHT: usize = 7;

/// The middle column, which a fresh deal leaves empty.
pub const SPARE_COLUMN: usize = 5;

/// A place on the board that a move names.
#[derive(Debug, Clone, Copy, PartialEq, Eq, Hash, Structural)]
pub enum BoardZone {
    Column(usize),
    MinorFoundationStorage,
    MinorFoundation,
    MajorFoundation,
}

impl BoardZone {
    pub open spec fn spec_is_write_only(&self) -> bool {
        *self is MinorFoundation || *self is MajorFoundation
    }

    /// Whether this zone can only have cards placed in it, and not removed from.
    #[verifier::when_used_as_spec(spec_is_write_only)]
    pub fn is_write_only(&self) -> (r: bool)
        ensures
            r == self.spec_is_write_only(),
    {
        match self {
            BoardZone::Column(_) => false,
            BoardZone::MinorFoundation => true,
            BoardZone::MinorFoundationStorage => false,
            BoardZone::MajorFoundation => true,
        }
    }

    /// A column zone is in bounds when it names one of the board's columns;
    /// every other zone is.
    pub open spec fn in_bounds(self) -> bool {
        self matches BoardZone::Column(i) ==> i < COLUMN_COUNT
    }
}

/// Why a move was refused. The board is unchanged after any of them.
#[derive(Debug, Clone, Copy, PartialEq, Eq, Structural)]
pub enum CardMoveError {
    NoopMovement,
    EmptySource,
    WriteOnlySource,
    CannotStack,
    WrongTargetZone,
    BlockedByFullMinorStorage,
}

/// Whether every card of `cards` is valid.
pub open spec fn all_valid(cards: Seq<Card>) -> bool {
    forall|j: int| 0 <= j < cards.len() ==> (#[trigger] cards[j]).valid()
}

/// Continues a run that is known to reach `k` cards down from the top of
/// `cards`: the length it has once it can grow no further.
pub open spec fn run_from(cards: Seq<Card>, k: int) -> int
    decreases cards.len() - k,
{
    if 1 <= k < cards.len() && cards[cards.len() - k - 1].stacks_with(cards[cards.len() - k]) {
        run_from(cards, k + 1)
    } else {
        k
    }
}

/// The length of the maximal stackable run at the top of `cards`: the top
/// card and as many below it as stack, each with the one above.
pub open spec fn run_len(cards: Seq<Card>) -> int {
    if cards.len() == 0 {
        0
    } else {
        run_from(cards, 1)
    }
}

/// Whether the top `k` cards of `cards` stack, each with its neighbour.
pub open spec fn is_chain(cards: Seq<Card>, k: int) -> bool {
    &&& 1 <= k <= cards.len()
    &&& forall|t: int|
        cards.len() - k <= t < cards.len() - 1 ==> (#[trigger] cards[t]).stacks_with(cards[t + 1])
}

/// The cards of one minor foundation, lowest first: ranks 1 to `max`.
pub open spec fn minor_run(suit: MinorSuit, max: Option<u8>) -> Seq<Card> {
    match max {
        None => Seq::empty(),
        Some(high) => Seq::new(
            high as nat,
            |k: int| (Card { suit: Suit::Minor(suit), number: (k + 1) as u8 }),
        ),
    }
}

/// The cards on the left of the major foundation, lowest first: ranks 0 to
/// `left_max`.
pub open spec fn major_left_run(left_max: Option<u8>) -> Seq<Card> {
    match left_max {
        None => Seq::empty(),
        Some(high) => Seq::new(
            (high + 1) as nat,
            |k: int| (Card { suit: Suit::MajorArcana, number: k as u8 }),
        ),
    }
}

/// The cards on the right of the major foundation, highest first: ranks 21
/// down to `right_min`.
pub open spec fn major_right_run(right_min: Option<u8>) -> Seq<Card> {
    match right_min {
        None => Seq::empty(),
        Some(low) => if low <= 21 {
            Seq::new(
                (22 - low) as nat,
                |k: int| (Card { suit: Suit::MajorArcana, number: (21 - k) as u8 }),
            )
        } else {
            Seq::empty()
        },
    }
}

/// All the cards that lie on the columns.
pub open spec fn tableau(columns: Seq<Seq<Card>>) -> Multiset<Card>
    decreases columns.len(),
{
    if columns.len() == 0 {
        Multiset::empty()
    } else {
        tableau(columns.drop_last()).add(columns.last().to_multiset())
    }
}

/// The card in the storage slot, if any, as a multiset.
pub open spec fn stored(storage: Option<Card>) -> Multiset<Card> {
    match storage {
        None => Multiset::empty(),
        Some(c) => Multiset::singleton(c),
    }
}

/// The columns of a fresh deal: the ten stacks in order, with an empty
/// column between the fifth and the sixth.
pub open spec fn spaced(stacks: Seq<Seq<Card>>) -> Seq<Seq<Card>> {
    Seq::new(
        COLUMN_COUNT as nat,
        |i: int|
            if i < SPARE_COLUMN {
                stacks[i]
            } else if i == SPARE_COLUMN {
                Seq::empty()
            } else {
                stacks[i - 1]
            },
    )
}

/// The board as a value: what every contract of the library speaks of.
pub struct BoardView {
    /// The columns, each bottom card first; only the last card of a column
    /// can be taken.
    pub columns: Seq<Seq<Card>>,
    /// The card that lies across the minor foundation, if any.
    pub storage: Option<Card>,
    /// The highest rank placed on each minor foundation, by suit slot.
    pub minor_maxes: Seq<Option<u8>>,
    /// The highest rank on the left of the major foundation.
    pub left_max: Option<u8>,
    /// The lowest rank on the right of the major foundation.
    pub right_min: Option<u8>,
}

impl BoardView {
    /// The board of a fresh deal: the stacks spaced over the columns, the
    /// aces on the minor foundations, and nothing else placed.
    pub open spec fn dealt(stacks: Seq<Seq<Card>>) -> BoardView {
        BoardView {
            columns: spaced(stacks),
            storage: None,
            minor_maxes: Seq::new(4, |s: int| Some(1u8)),
            left_max: None,
            right_min: None,
        }
    }

    /// The shape every board has: eleven columns and four minor slots, valid
    /// cards, and foundation ranks that their suits have.
    pub open spec fn wf(self) -> bool {
        &&& self.columns.len() == COLUMN_COUNT
        &&& self.minor_maxes.len() == 4
        &&& forall|i: int| 0 <= i < self.columns.len() ==> all_valid(#[trigger] self.columns[i])
        &&& self.storage matches Some(c) ==> c.valid()
        &&& forall|s: int|
            0 <= s < 4 ==> ((#[trigger] self.minor_maxes[s]) matches Some(m) ==> 1 <= m <= 13)
        &&& self.left_max matches Some(l) ==> l <= 21
        &&& self.right_min matches Some(r) ==> r <= 21
    }

    /// Every card that the board accounts for: those on the columns, the one
    /// in storage, and those that the foundations stand for.
    pub open spec fn cards(self) -> Multiset<Card> {
        tableau(self.columns).add(stored(self.storage)).add(
            minor_run(MinorSuit::Pentacles, self.minor_maxes[0]).to_multiset(),
        ).add(minor_run(MinorSuit::Cups, self.minor_maxes[1]).to_multiset()).add(
            minor_run(MinorSuit::Swords, self.minor_maxes[2]).to_multiset(),
        ).add(minor_run(MinorSuit::Wands, self.minor_maxes[3]).to_multiset()).add(
            major_left_run(self.left_max).to_multiset(),
        ).add(major_right_run(self.right_min).to_multiset())
    }

    /// The number of cards that lie on the columns.
    pub open spec fn tableau_len(self) -> nat {
        tableau(self.columns).len()
    }

    /// The number of cards that are still in play: those on the columns
    /// and the one in storage.
    pub open spec fn in_play(self) -> nat {
        self.tableau_len() + stored(self.storage).len()
    }

    /// The card that a move from `zone` would take.
    pub open spec fn source_card(self, zone: BoardZone) -> Option<Card> {
        match zone {
            BoardZone::Column(i) => if self.columns[i as int].len() > 0 {
                Some(self.columns[i as int].last())
            } else {
                None
            },
            BoardZone::MinorFoundationStorage => self.storage,
            _ => None,
        }
    }

    /// A column takes a card when it is empty or the card stacks with its top.
    pub open spec fn column_accepts(self, col: int, card: Card) -> bool {
        self.columns[col].len() == 0 || card.stacks_with(self.columns[col].last())
    }

    /// The rank that the minor foundation of `suit` has reached; 0 before
    /// anything was placed.
    pub open spec fn minor_height(self, suit: MinorSuit) -> int {
        match self.minor_maxes[suit.spec_index()] {
            Some(m) => m as int,
            None => 0,
        }
    }

    /// The card continues the ascending, left side of the major foundation.
    pub open spec fn fits_major_left(self, card: Card) -> bool {
        match self.left_max {
            None => card.number == 0,
            Some(l) => card.number == l + 1,
        }
    }

    /// The card continues the descending, right side of the major foundation.
    pub open spec fn fits_major_right(self, card: Card) -> bool {
        match self.right_min {
            None => card.number == 21,
            Some(r) => card.number + 1 == r,
        }
    }

    /// The board with `card` laid on `dst`, or the reason `dst` refuses it.
    pub open spec fn place(self, dst: BoardZone, card: Card) -> Result<BoardView, CardMoveError> {
        match dst {
            BoardZone::Column(j) => if self.column_accepts(j as int, card) {
                Ok(
                    BoardView {
                        columns: self.columns.update(
                            j as int,
                            self.columns[j as int].push(card),
                        ),
                        ..self
                    },
                )
            } else {
                Err(CardMoveError::CannotStack)
            },
            BoardZone::MinorFoundationStorage => if self.storage is None {
                Ok(BoardView { storage: Some(card), ..self })
            } else {
                Err(CardMoveError::BlockedByFullMinorStorage)
            },
            BoardZone::MinorFoundation => if self.storage is Some {
                Err(CardMoveError::BlockedByFullMinorStorage)
            } else {
                match card.suit {
                    Suit::MajorArcana => Err(CardMoveError::WrongTargetZone),
                    Suit::Minor(suit) => if card.number == self.minor_height(suit) + 1 {
                        Ok(
                            BoardView {
                                minor_maxes: self.minor_maxes.update(
                                    suit.spec_index(),
                                    Some(card.number),
                                ),
                                ..self
                            },
                        )
                    } else {
                        Err(CardMoveError::CannotStack)
                    },
                }
            },
            BoardZone::MajorFoundation => if card.suit.is_minor() {
                Err(CardMoveError::WrongTargetZone)
            } else if self.fits_major_left(card) {
                Ok(BoardView { left_max: Some(card.number), ..self })
            } else if self.fits_major_right(card) {
                Ok(BoardView { right_min: Some(card.number), ..self })
            } else {
                Err(CardMoveError::CannotStack)
            },
        }
    }

    /// The board with the card of `src` taken away.
    pub open spec fn take(self, src: BoardZone) -> BoardView {
        match src {
            BoardZone::Column(i) => BoardView {
                columns: self.columns.update(i as int, self.columns[i as int].drop_last()),
                ..self
            },
            BoardZone::MinorFoundationStorage => BoardView { storage: None, ..self },
            _ => self,
        }
    }

    /// The card that must fit the destination: the bottom card of the run
    /// for a cascaded move between columns, the top card otherwise.
    pub open spec fn validating_card(self, src: BoardZone, dst: BoardZone, cascade: bool) -> Card {
        match (src, dst) {
            (BoardZone::Column(i), BoardZone::Column(_)) if cascade => {
                let col = self.columns[i as int];
                col[col.len() - run_len(col)]
            },
            _ => self.source_card(src).unwrap(),
        }
    }

    /// The board after the whole run at the top of column `i` went to column
    /// `j`, in the order it had.
    pub open spec fn with_run_moved(self, i: int, j: int) -> BoardView {
        let col = self.columns[i];
        let keep = col.len() - run_len(col);
        BoardView {
            columns: self.columns.update(i, col.take(keep)).update(
                j,
                self.columns[j] + col.skip(keep),
            ),
            ..self
        }
    }

    /// What a move does: the board that it leaves, or the reason it is
    /// refused. Refusals are tested in this order: a move onto its own
    /// source, a source that only takes cards, a source without a card, and
    /// last what the destination says of the validating card.
    pub open spec fn move_outcome(self, src: BoardZone, dst: BoardZone, cascade: bool) -> Result<
        BoardView,
        CardMoveError,
    > {
        if src == dst {
            Err(CardMoveError::NoopMovement)
        } else if src.is_write_only() {
            Err(CardMoveError::WriteOnlySource)
        } else if self.source_card(src) is None {
            Err(CardMoveError::EmptySource)
        } else {
            match (src, dst) {
                (BoardZone::Column(i), BoardZone::Column(j)) if cascade => {
                    if self.column_accepts(j as int, self.validating_card(src, dst, cascade)) {
                        Ok(self.with_run_moved(i as int, j as int))
                    } else {
                        Err(CardMoveError::CannotStack)
                    }
                },
                _ => match self.place(dst, self.source_card(src).unwrap()) {
                    Ok(placed) => Ok(placed.take(src)),
                    Err(e) => Err(e),
                },
            }
        }
    }

    /// The board after the top card of column `col` went to a foundation,
    /// the minor one if it takes the card, else the major one; `None` if
    /// neither does.
    pub open spec fn foundation_step(self, col: int) -> Option<BoardView> {
        let src = BoardZone::Column(col as usize);
        match self.move_outcome(src, BoardZone::MinorFoundation, false) {
            Ok(b) => Some(b),
            Err(_) => match self.move_outcome(src, BoardZone::MajorFoundation, false) {
                Ok(b) => Some(b),
                Err(_) => None,
            },
        }
    }

    /// The board after column `col` gave the foundations every card it
    /// could, one top card after the other.
    pub open spec fn settle_column(self, col: int) -> BoardView
        decreases self.columns[col].len(),
        when 0 <= col < self.columns.len() && col < COLUMN_COUNT
    {
        match self.foundation_step(col) {
            Some(b) => b.settle_column(col),
            None => self,
        }
    }

    /// One pass of the automatic cascade over the columns `col` and up.
    pub open spec fn settle_from(self, col: int) -> BoardView
        decreases COLUMN_COUNT - col,
    {
        if 0 <= col < COLUMN_COUNT {
            self.settle_column(col).settle_from(col + 1)
        } else {
            self
        }
    }

    /// The board that the automatic cascade leaves: passes over all columns
    /// are repeated until one moves nothing. A pass that moved a card leaves
    /// fewer cards on the columns.
    pub open spec fn settle(self) -> BoardView
        decreases self.tableau_len(),
    {
        let pass = self.settle_from(0);
        if pass.tableau_len() < self.tableau_len() {
            pass.settle()
        } else {
            pass
        }
    }

    /// No column's top card can go to a foundation.
    pub open spec fn settled(self) -> bool {
        forall|col: int| 0 <= col < COLUMN_COUNT ==> (#[trigger] self.foundation_step(col)) is None
    }

    /// The major foundation holds all of ranks 0 to 21.
    pub open spec fn major_closed(self) -> bool {
        match (self.left_max, self.right_min) {
            (Some(l), Some(r)) => l + 1 == r,
            (Some(l), None) => l == 21,
            (None, Some(r)) => r == 0,
            (None, None) => false,
        }
    }

    /// The game is won: nothing lies on the columns or in storage, every
    /// minor foundation has reached the king, and the major foundation is
    /// closed.
    pub open spec fn solved(self) -> bool {
        &&& forall|i: int| 0 <= i < self.columns.len() ==> (#[trigger] self.columns[i]).len() == 0
        &&& self.storage is None
        &&& forall|s: int| 0 <= s < 4 ==> (#[trigger] self.minor_maxes[s]) == Some(13u8)
        &&& self.major_closed()
    }
}

} // verus!
