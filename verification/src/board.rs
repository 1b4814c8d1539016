//! The board in memory: columns of cards, the storage slot and the
//! foundations' high-water marks, with the move engine that changes them.

use vstd::prelude::*;

use crate::cards::{Card, MinorSuit, Suit, MAJOR_ARCANA_MAX, MAJOR_ARCANA_MIN};
use crate::cascade::{lemma_foundation_step, lemma_settle, lemma_settle_column, lemma_settle_from};
use crate::conservation::{lemma_move_keeps_cards, lemma_run_from_bounds};
use crate::random::shuffled::shuffled_random;
use crate::rules::{
    all_valid, major_left_run, major_right_run, minor_run, run_from, run_len, BoardView,
    BoardZone, CardMoveError, COLUMN_COUNT, DESIRED_STACK_HEIGHT,
};

verus! {

/// One column of the board.
#[derive(Debug, PartialEq, Eq, Hash)]
pub struct Column {
    /// These go top-to-bottom, so the only accessible card is the last one.
    cards: Vec<Card>,
}

impl View for Column {
    type V = Seq<Card>;

    closed spec fn view(&self) -> Seq<Card> {
        self.cards@
    }
}

impl Clone for Column {
    fn clone(&self) -> (r: Self)
        ensures
            r@ == self@,
    {
        let mut cards: Vec<Card> = Vec::new();
        let mut i: usize = 0;
        while i < self.cards.len()
            invariant
                i <= self.cards.len(),
                cards@ == self.cards@.take(i as int),
            decreases self.cards.len() - i,
        {
            cards.push(self.cards[i].clone());
            i += 1;
        }
        Column { cards }
    }
}

impl core::ops::Deref for Column {
    type Target = Vec<Card>;

    fn deref(&self) -> (r: &Vec<Card>)
        ensures
            r@ == self@,
    {
        &self.cards
    }
}

impl Column {
    /// A column without cards.
    pub fn new() -> (r: Column)
        ensures
            r@ == Seq::<Card>::empty(),
    {
        Column { cards: Vec::new() }
    }

    /// The column that holds `cards`, bottom card first.
    pub fn from_cards(cards: Vec<Card>) -> (r: Column)
        ensures
            r@ == cards@,
    {
        Column { cards }
    }

    pub fn len(&self) -> (n: usize)
        ensures
            n == self@.len(),
    {
        self.cards.len()
    }

    pub fn is_empty(&self) -> (r: bool)
        ensures
            r == (self@.len() == 0),
    {
        self.cards.len() == 0
    }

    /// The cards of the column, bottom card first.
    pub fn cards(&self) -> (r: &Vec<Card>)
        ensures
            r@ == self@,
    {
        &self.cards
    }

    /// The card at `idx`, counted from the bottom.
    pub fn get(&self, idx: usize) -> (r: Option<&Card>)
        ensures
            idx < self@.len() ==> r == Some(&self@[idx as int]),
            idx >= self@.len() ==> r is None,
    {
        if idx < self.cards.len() {
            Some(&self.cards[idx])
        } else {
            None
        }
    }

    /// The top card: the only one that can be taken.
    pub fn last(&self) -> (r: Option<&Card>)
        ensures
            self@.len() > 0 ==> r == Some(&self@.last()),
            self@.len() == 0 ==> r is None,
    {
        let n = self.cards.len();
        if n > 0 {
            Some(&self.cards[n - 1])
        } else {
            None
        }
    }

    /// Lays `card` on top.
    pub fn push(&mut self, card: Card)
        ensures
            final(self)@ == old(self)@.push(card),
    {
        self.cards.push(card);
    }

    /// Takes the top card off, if there is one.
    pub fn pop(&mut self) -> (r: Option<Card>)
        ensures
            old(self)@.len() > 0 ==> r == Some(old(self)@.last()) && final(self)@ == old(
                self,
            )@.drop_last(),
            old(self)@.len() == 0 ==> r is None && final(self)@ == old(self)@,
    {
        self.cards.pop()
    }
}

/// A row of columns as values.
pub open spec fn stacks_view(stacks: Seq<Column>) -> Seq<Seq<Card>> {
    Seq::new(stacks.len(), |i: int| stacks[i]@)
}

/// The whole state of a game.
#[derive(Debug, PartialEq, Eq, Hash)]
pub struct Board {
    columns: [Column; COLUMN_COUNT],
    /// If there's a card sideways over the minor foundation, it goes here.
    minor_foundation_storage: Option<Card>,
    /// The maximum card in each of the minor foundation slots, in order of suit.
    minor_foundation_maxes: [Option<u8>; 4],
    /// The highest number on the left side of the major foundation.
    ///
    /// The final "center" card is placed only in left_max.
    major_foundation_left_max: Option<u8>,
    /// The lowest number on the right side of the major foundation.
    major_foundation_right_min: Option<u8>,
}

impl View for Board {
    type V = BoardView;

    closed spec fn view(&self) -> BoardView {
        BoardView {
            columns: Seq::new(COLUMN_COUNT as nat, |i: int| self.columns[i]@),
            storage: self.minor_foundation_storage,
            minor_maxes: self.minor_foundation_maxes@,
            left_max: self.major_foundation_left_max,
            right_min: self.major_foundation_right_min,
        }
    }
}

impl Clone for Board {
    fn clone(&self) -> (r: Self)
        ensures
            r@ == self@,
    {
        let r = Board {
            columns: [
                self.columns[0].clone(),
                self.columns[1].clone(),
                self.columns[2].clone(),
                self.columns[3].clone(),
                self.columns[4].clone(),
                self.columns[5].clone(),
                self.columns[6].clone(),
                self.columns[7].clone(),
                self.columns[8].clone(),
                self.columns[9].clone(),
                self.columns[10].clone(),
            ],
            minor_foundation_storage: match &self.minor_foundation_storage {
                Some(c) => Some(c.clone()),
                None => None,
            },
            minor_foundation_maxes: self.minor_foundation_maxes,
            major_foundation_left_max: self.major_foundation_left_max,
            major_foundation_right_min: self.major_foundation_right_min,
        };
        assert(r@.columns =~= self@.columns);
        r
    }
}

impl Board {
    pub const COLUMN_COUNT: usize = COLUMN_COUNT;

    pub const DESIRED_STACK_HEIGHT: usize = DESIRED_STACK_HEIGHT;

    /// The shape every board has; see [`BoardView::wf`].
    pub open spec fn wf(&self) -> bool {
        self@.wf()
    }

    /// A freshly dealt game: the deck is shuffled, with the generator
    /// seeded by `seed` where one is given, and laid out in stacks of equal
    /// height on all columns but the middle one.
    pub fn new(seed: Option<u64>) -> (r: Board)
        ensures
            r.wf(),
            r@.fresh_deal(),
    {
        shuffled_random(seed)
    }

    /// A board without any card: empty columns, empty storage and empty
    /// foundations.
    pub fn empty() -> (r: Board)
        ensures
            r@ == (BoardView {
                columns: Seq::new(COLUMN_COUNT as nat, |i: int| Seq::<Card>::empty()),
                storage: None,
                minor_maxes: Seq::new(4, |s: int| None::<u8>),
                left_max: None,
                right_min: None,
            }),
            r.wf(),
    {
        let r = Board {
            columns: [
                Column::new(),
                Column::new(),
                Column::new(),
                Column::new(),
                Column::new(),
                Column::new(),
                Column::new(),
                Column::new(),
                Column::new(),
                Column::new(),
                Column::new(),
            ],
            minor_foundation_storage: None,
            minor_foundation_maxes: [None, None, None, None],
            major_foundation_left_max: None,
            major_foundation_right_min: None,
        };
        assert(r@.columns =~= Seq::new(COLUMN_COUNT as nat, |i: int| Seq::<Card>::empty()));
        assert(r@.minor_maxes =~= Seq::new(4, |s: int| None::<u8>));
        r
    }

    /// The board of a fresh deal: the ten stacks become the columns, in
    /// order, around an empty middle column; the aces lie on the minor
    /// foundations.
    pub fn deal(stacks: Vec<Column>) -> (r: Board)
        requires
            stacks@.len() == COLUMN_COUNT - 1,
            forall|i: int| 0 <= i < stacks@.len() ==> all_valid(#[trigger] stacks@[i]@),
        ensures
            r@ == BoardView::dealt(stacks_view(stacks@)),
            r.wf(),
    {
        let ghost given = stacks_view(stacks@);
        let mut stacks = stacks;
        let s9 = stacks.pop().unwrap();
        let s8 = stacks.pop().unwrap();
        let s7 = stacks.pop().unwrap();
        let s6 = stacks.pop().unwrap();
        let s5 = stacks.pop().unwrap();
        let s4 = stacks.pop().unwrap();
        let s3 = stacks.pop().unwrap();
        let s2 = stacks.pop().unwrap();
        let s1 = stacks.pop().unwrap();
        let s0 = stacks.pop().unwrap();
        let r = Board {
            columns: [s0, s1, s2, s3, s4, Column::new(), s5, s6, s7, s8, s9],
            minor_foundation_storage: None,
            minor_foundation_maxes: [Some(1), Some(1), Some(1), Some(1)],
            major_foundation_left_max: None,
            major_foundation_right_min: None,
        };
        proof {
            let want = BoardView::dealt(given);
            assert(r@.columns =~= want.columns);
            assert(r@.minor_maxes =~= want.minor_maxes);
        }
        r
    }

    /// The won board whose major foundation meets after `split`: ranks 0 to
    /// `split` lie on its left, the rest on its right.
    pub fn solved(split: u8) -> (r: Board)
        requires
            split <= MAJOR_ARCANA_MAX,
        ensures
            r@ == (BoardView {
                columns: Seq::new(COLUMN_COUNT as nat, |i: int| Seq::<Card>::empty()),
                storage: None,
                minor_maxes: Seq::new(4, |s: int| Some(13u8)),
                left_max: Some(split),
                right_min: if split < 21 {
                    Some((split + 1) as u8)
                } else {
                    None
                },
            }),
            r.wf(),
            r@.solved(),
    {
        let r = Board {
            columns: [
                Column::new(),
                Column::new(),
                Column::new(),
                Column::new(),
                Column::new(),
                Column::new(),
                Column::new(),
                Column::new(),
                Column::new(),
                Column::new(),
                Column::new(),
            ],
            minor_foundation_storage: None,
            minor_foundation_maxes: [Some(13), Some(13), Some(13), Some(13)],
            major_foundation_left_max: Some(split),
            major_foundation_right_min: if split < MAJOR_ARCANA_MAX {
                Some(split + 1)
            } else {
                None
            },
        };
        assert(r@.columns =~= Seq::new(COLUMN_COUNT as nat, |i: int| Seq::<Card>::empty()));
        assert(r@.minor_maxes =~= Seq::new(4, |s: int| Some(13u8)));
        r
    }

    /// Whether `card` is the next one that a foundation waits for: the
    /// rank above the mark of its suit's minor foundation, or the rank that
    /// continues either side of the major foundation. Storage is not looked
    /// at.
    pub fn is_next_card(&self, card: &Card) -> (r: bool)
        ensures
            r == match card.suit {
                Suit::Minor(suit) => card.number == self@.minor_height(suit) + 1,
                Suit::MajorArcana => self@.fits_major_left(*card) || self@.fits_major_right(*card),
            },
    {
        match card.suit() {
            Suit::Minor(suit) => {
                let slot = suit.index();
                let foundation_max: u8 = match self.minor_foundation_maxes[slot] {
                    Some(max) => max,
                    None => 0,
                };
                foundation_max < 255 && card.number() == foundation_max + 1
            },
            Suit::MajorArcana => {
                let next_hi_min = match self.major_foundation_left_max {
                    Some(it) => it < 255 && card.number() == it + 1,
                    None => card.number() == 0,
                };
                let next_lo_max = match self.major_foundation_right_min {
                    Some(it) => card.number() < 255 && card.number() + 1 == it,
                    None => card.number() == MAJOR_ARCANA_MAX,
                };
                next_hi_min || next_lo_max
            },
        }
    }

    /// The rank of the card that closed the major foundation, where both
    /// sides have cards and meet: the highest rank on the left.
    pub fn final_major(&self) -> (r: Option<u8>)
        ensures
            r == match (self@.left_max, self@.right_min) {
                (Some(left), Some(right)) => if left + 1 == right {
                    Some(left)
                } else {
                    None
                },
                _ => None,
            },
    {
        match (self.major_foundation_left_max, self.major_foundation_right_min) {
            (Some(left), Some(right)) => if left < 255 && left + 1 == right {
                Some(left)
            } else {
                None
            },
            _ => None,
        }
    }

    /// Whether the game is won.
    pub fn is_solved(&self) -> (r: bool)
        ensures
            r == self@.solved(),
    {
        let mut i: usize = 0;
        while i < COLUMN_COUNT
            invariant
                i <= COLUMN_COUNT,
                forall|k: int| 0 <= k < i ==> (#[trigger] self@.columns[k]).len() == 0,
            decreases COLUMN_COUNT - i,
        {
            if self.columns[i].len() != 0 {
                assert(self@.columns[i as int].len() != 0);
                return false;
            }
            i += 1;
        }
        if self.minor_foundation_storage.is_some() {
            return false;
        }
        let mut s: usize = 0;
        while s < 4
            invariant
                s <= 4,
                forall|k: int| 0 <= k < s ==> (#[trigger] self@.minor_maxes[k]) == Some(13u8),
            decreases 4 - s,
        {
            match self.minor_foundation_maxes[s] {
                Some(13) => {},
                _ => {
                    return false;
                },
            }
            s += 1;
        }
        match (self.major_foundation_left_max, self.major_foundation_right_min) {
            (Some(l), Some(r)) => l < 255 && l + 1 == r,
            (Some(l), None) => l == 21,
            (None, Some(r)) => r == 0,
            (None, None) => false,
        }
    }

    /// The columns, first to last.
    pub fn columns(&self) -> (r: &[Column; COLUMN_COUNT])
        ensures
            self@.columns.len() == COLUMN_COUNT,
            forall|i: int| 0 <= i < COLUMN_COUNT ==> (#[trigger] r[i])@ == self@.columns[i],
    {
        &self.columns
    }

    /// The highest rank on each minor foundation, by suit slot.
    pub fn minor_foundation_maxes(&self) -> (r: &[Option<u8>; 4])
        ensures
            r@ == self@.minor_maxes,
    {
        &self.minor_foundation_maxes
    }

    pub fn major_foundation_left_max(&self) -> (r: Option<u8>)
        ensures
            r == self@.left_max,
    {
        self.major_foundation_left_max
    }

    pub fn major_foundation_right_min(&self) -> (r: Option<u8>)
        ensures
            r == self@.right_min,
    {
        self.major_foundation_right_min
    }

    pub fn get_column(&self, idx: usize) -> (r: &Column)
        requires
            idx < COLUMN_COUNT,
        ensures
            r@ == self@.columns[idx as int],
    {
        &self.columns[idx]
    }

    /// Hands out column `idx` to be changed; what the caller leaves in it is
    /// what the board then holds there, and nothing else changes.
    pub fn get_column_mut(&mut self, idx: usize) -> (r: &mut Column)
        requires
            idx < COLUMN_COUNT,
        ensures
            r@ == old(self)@.columns[idx as int],
            final(self)@ == (BoardView {
                columns: old(self)@.columns.update(idx as int, final(r)@),
                ..old(self)@
            }),
    {
        let ghost before = self@;
        let r = &mut self.columns[idx];
        proof {
            assert(after_borrow(self)@.columns =~= before.columns.update(idx as int, final(r)@));
        }
        r
    }

    pub fn minor_foundation_storage(&self) -> (r: Option<&Card>)
        ensures
            r matches Some(c) ==> self@.storage == Some(*c),
            r is None ==> self@.storage is None,
    {
        self.minor_foundation_storage.as_ref()
    }

    /// Get the cards in the left side of the major foundation.
    /// This is "virtual" because they're not actually stored as the cards.
    pub fn virtual_cards_major_foundation_left(&self) -> (r: Vec<Card>)
        ensures
            r@ == major_left_run(self@.left_max),
    {
        let mut out: Vec<Card> = Vec::new();
        match self.major_foundation_left_max {
            None => {},
            Some(high) => {
                let mut k: usize = 0;
                while k <= high as usize
                    invariant
                        k <= high + 1,
                        out@.len() == k,
                        forall|t: int|
                            0 <= t < k ==> out@[t] == (Card {
                                suit: Suit::MajorArcana,
                                number: t as u8,
                            }),
                    decreases high + 1 - k,
                {
                    out.push(Card { suit: Suit::MajorArcana, number: k as u8 });
                    k += 1;
                }
            },
        }
        out
    }

    /// Get the cards in the right side of the major foundation, highest
    /// first. This is "virtual" because they're not actually stored as the
    /// cards.
    pub fn virtual_cards_major_foundation_right(&self) -> (r: Vec<Card>)
        ensures
            r@ == major_right_run(self@.right_min),
    {
        let mut out: Vec<Card> = Vec::new();
        match self.major_foundation_right_min {
            None => {},
            Some(low) => {
                if low <= MAJOR_ARCANA_MAX {
                    let count: usize = (MAJOR_ARCANA_MAX - low) as usize + 1;
                    let mut k: usize = 0;
                    while k < count
                        invariant
                            k <= count,
                            count == 22 - low,
                            out@.len() == k,
                            forall|t: int|
                                0 <= t < k ==> out@[t] == (Card {
                                    suit: Suit::MajorArcana,
                                    number: (21 - t) as u8,
                                }),
                        decreases count - k,
                    {
                        out.push(
                            Card { suit: Suit::MajorArcana, number: MAJOR_ARCANA_MAX - (k as u8) },
                        );
                        k += 1;
                    }
                }
            },
        }
        out
    }

    /// The cards of the minor foundation of `suit`, lowest first.
    fn minor_foundation_cards(&self, suit: MinorSuit) -> (r: Vec<Card>)
        ensures
            r@ == minor_run(suit, self@.minor_maxes[suit.spec_index()]),
    {
        let mut out: Vec<Card> = Vec::new();
        match self.minor_foundation_maxes[suit.index()] {
            None => {},
            Some(high) => {
                let mut k: u8 = 0;
                while k < high
                    invariant
                        k <= high,
                        out@.len() == k,
                        forall|t: int|
                            0 <= t < k ==> out@[t] == (Card {
                                suit: Suit::Minor(suit),
                                number: (t + 1) as u8,
                            }),
                    decreases high - k,
                {
                    out.push(Card { suit: Suit::Minor(suit), number: k + 1 });
                    k += 1;
                }
            },
        }
        out
    }

    /// Get the cards in each slot of the minor foundation.
    /// This is "virtual" because they're not actually stored as the cards.
    pub fn virtual_cards_minor_foundation(&self) -> (r: [Vec<Card>; 4])
        ensures
            forall|s: int|
                0 <= s < 4 ==> (#[trigger] r[s])@ == minor_run(
                    MinorSuit::spec_n(s),
                    self@.minor_maxes[s],
                ),
    {
        [
            self.minor_foundation_cards(MinorSuit::Pentacles),
            self.minor_foundation_cards(MinorSuit::Cups),
            self.minor_foundation_cards(MinorSuit::Swords),
            self.minor_foundation_cards(MinorSuit::Wands),
        ]
    }

    /// The length of the maximal stackable run at the top of column `idx`.
    fn run_length(&self, idx: usize) -> (k: usize)
        requires
            idx < COLUMN_COUNT,
        ensures
            k == run_len(self@.columns[idx as int]),
            k <= self@.columns[idx as int].len(),
            self@.columns[idx as int].len() > 0 ==> k >= 1,
    {
        let col = &self.columns[idx].cards;
        let n = col.len();
        if n == 0 {
            return 0;
        }
        let mut k: usize = 1;
        while k < n && col[n - k - 1].can_stack(&col[n - k])
            invariant
                n == col@.len(),
                1 <= k <= n,
                run_from(col@, k as int) == run_len(col@),
            decreases n - k,
        {
            k += 1;
        }
        proof {
            lemma_run_from_bounds(col@, k as int);
        }
        k
    }

    /// Moves one card, or with `cascade_column_stacks` between two columns
    /// the whole run at the top of the source, and says why not if the move
    /// is refused. A refused move leaves the board as it was.
    pub fn move_card(
        &mut self,
        source_zone: BoardZone,
        dest_zone: BoardZone,
        cascade_column_stacks: bool,
    ) -> (r: Result<(), CardMoveError>)
        requires
            old(self).wf(),
            source_zone == dest_zone || source_zone.is_write_only() || (source_zone.in_bounds()
                && dest_zone.in_bounds()),
        ensures
            match old(self)@.move_outcome(source_zone, dest_zone, cascade_column_stacks) {
                Ok(after) => r is Ok && final(self)@ == after,
                Err(e) => r == Err::<(), CardMoveError>(e) && final(self)@ == old(self)@,
            },
            final(self).wf(),
            final(self)@.cards() == old(self)@.cards(),
    {
        let ghost before = self@;
        if source_zone == dest_zone {
            return Err(CardMoveError::NoopMovement);
        }
        if source_zone.is_write_only() {
            return Err(CardMoveError::WriteOnlySource);
        }
        proof {
            if before.move_outcome(source_zone, dest_zone, cascade_column_stacks) is Ok {
                lemma_move_keeps_cards(before, source_zone, dest_zone, cascade_column_stacks);
            }
        }

        if cascade_column_stacks {
            if let (BoardZone::Column(src_col_idx), BoardZone::Column(dst_col_idx)) = (
                source_zone,
                dest_zone,
            ) {
                let src_len = self.columns[src_col_idx].cards.len();
                if src_len == 0 {
                    return Err(CardMoveError::EmptySource);
                }
                let source_take_count = self.run_length(src_col_idx);
                let keep = src_len - source_take_count;
                let stack_ok = match self.columns[dst_col_idx].last() {
                    Some(it) => self.columns[src_col_idx].cards[keep].can_stack(it),
                    None => true,
                };
                if !stack_ok {
                    return Err(CardMoveError::CannotStack);
                }
                let mut transfer = self.columns[src_col_idx].cards.split_off(keep);
                self.columns[dst_col_idx].cards.append(&mut transfer);
                proof {
                    let after = before.with_run_moved(src_col_idx as int, dst_col_idx as int);
                    assert(self@.columns =~= after.columns);
                }
                return Ok(());
            }
        }

        let source_card = match source_zone {
            BoardZone::Column(i) => match self.columns[i].last() {
                Some(card) => card.clone(),
                None => {
                    return Err(CardMoveError::EmptySource);
                },
            },
            BoardZone::MinorFoundationStorage => match &self.minor_foundation_storage {
                Some(card) => card.clone(),
                None => {
                    return Err(CardMoveError::EmptySource);
                },
            },
            BoardZone::MinorFoundation | BoardZone::MajorFoundation => {
                return Err(CardMoveError::WriteOnlySource);
            },
        };

        match dest_zone {
            BoardZone::Column(idx) => {
                let stack_ok = match self.columns[idx].last() {
                    None => true,
                    Some(here) => source_card.can_stack(here),
                };
                if !stack_ok {
                    return Err(CardMoveError::CannotStack);
                }
                // The source gives its card up once the destination has it.
                self.columns[idx].cards.push(source_card);
            },
            BoardZone::MinorFoundationStorage => {
                if self.minor_foundation_storage.is_some() {
                    return Err(CardMoveError::BlockedByFullMinorStorage);
                }
                self.minor_foundation_storage = Some(source_card);
            },
            BoardZone::MinorFoundation => {
                if self.minor_foundation_storage.is_some() {
                    return Err(CardMoveError::BlockedByFullMinorStorage);
                }
                let suit = match source_card.suit() {
                    Suit::Minor(it) => it,
                    Suit::MajorArcana => {
                        return Err(CardMoveError::WrongTargetZone);
                    },
                };
                let slot = suit.index();
                let height: u8 = match self.minor_foundation_maxes[slot] {
                    None => 0,
                    Some(height) => height,
                };
                if source_card.number() == height + 1 {
                    self.minor_foundation_maxes[slot] = Some(height + 1);
                } else {
                    return Err(CardMoveError::CannotStack);
                }
            },
            BoardZone::MajorFoundation => {
                if source_card.suit().is_minor() {
                    return Err(CardMoveError::WrongTargetZone);
                }
                let left_ok = match self.major_foundation_left_max {
                    None => source_card.number() == MAJOR_ARCANA_MIN,
                    Some(l) => source_card.number() == l + 1,
                };
                let right_ok = match self.major_foundation_right_min {
                    None => source_card.number() == MAJOR_ARCANA_MAX,
                    Some(r) => source_card.number() < 255 && source_card.number() + 1 == r,
                };
                if !left_ok && !right_ok {
                    return Err(CardMoveError::CannotStack);
                }
                if left_ok {
                    self.major_foundation_left_max = Some(source_card.number());
                } else {
                    self.major_foundation_right_min = Some(source_card.number());
                }
            },
        }
        proof {
            let placed = before.place(dest_zone, source_card).unwrap();
            assert(self@.columns =~= placed.columns);
        }
        let ghost placed = self@;

        // The destination took the card, so the source gives it up.
        match source_zone {
            BoardZone::Column(i) => {
                self.columns[i].cards.pop();
            },
            BoardZone::MinorFoundationStorage => {
                self.minor_foundation_storage = None;
            },
            BoardZone::MinorFoundation | BoardZone::MajorFoundation => {},
        }
        proof {
            assert(self@.columns =~= placed.take(source_zone).columns);
        }
        Ok(())
    }

    /// Sends the top cards of column `col_idx` to the foundations for as long
    /// as one of them takes the top card, the minor one first. Says whether
    /// any card moved.
    fn automove_column(&mut self, col_idx: usize) -> (moved_any: bool)
        requires
            old(self).wf(),
            col_idx < COLUMN_COUNT,
        ensures
            final(self)@ == old(self)@.settle_column(col_idx as int),
            moved_any == (final(self)@.tableau_len() < old(self)@.tableau_len()),
            moved_any == (old(self)@.foundation_step(col_idx as int) is Some),
    {
        let src_zone = BoardZone::Column(col_idx);
        let ghost start = self@;
        let mut moved_any = false;
        loop
            invariant
                self.wf(),
                start.wf(),
                col_idx < COLUMN_COUNT,
                src_zone == BoardZone::Column(col_idx),
                self@.settle_column(col_idx as int) == start.settle_column(col_idx as int),
                self@.tableau_len() <= start.tableau_len(),
                moved_any == (self@.tableau_len() < start.tableau_len()),
                moved_any ==> start.foundation_step(col_idx as int) is Some,
                !moved_any ==> self@ == start,
            ensures
                start.wf(),
                col_idx < COLUMN_COUNT,
                self@ == start.settle_column(col_idx as int),
                moved_any == (self@.tableau_len() < start.tableau_len()),
                moved_any == (start.foundation_step(col_idx as int) is Some),
            decreases self@.columns[col_idx as int].len(),
        {
            let ghost here = self@;
            proof {
                if here.foundation_step(col_idx as int) is Some {
                    lemma_foundation_step(here, col_idx as int);
                }
            }
            let to_minor = self.move_card(src_zone, BoardZone::MinorFoundation, false);
            if to_minor.is_ok() {
                moved_any = true;
                continue ;
            }
            let to_major = self.move_card(src_zone, BoardZone::MajorFoundation, false);
            if to_major.is_ok() {
                moved_any = true;
                continue ;
            }
            break ;
        }
        moved_any
    }

    /// One pass of the automatic cascade over all columns, in order. Says
    /// whether any card moved.
    fn automove_pass(&mut self) -> (moved_any: bool)
        requires
            old(self).wf(),
        ensures
            final(self)@ == old(self)@.settle_from(0),
            moved_any == (final(self)@.tableau_len() < old(self)@.tableau_len()),
    {
        let ghost start = self@;
        let mut moved_any = false;
        let mut col_idx: usize = 0;
        while col_idx < COLUMN_COUNT
            invariant
                self.wf(),
                col_idx <= COLUMN_COUNT,
                self@.settle_from(col_idx as int) == start.settle_from(0),
                self@.tableau_len() <= start.tableau_len(),
                moved_any == (self@.tableau_len() < start.tableau_len()),
            decreases COLUMN_COUNT - col_idx,
        {
            proof {
                lemma_settle_column(self@, col_idx as int);
            }
            let moved_here = self.automove_column(col_idx);
            moved_any = moved_any || moved_here;
            col_idx += 1;
        }
        moved_any
    }

    /// The automatic cascade: sends every card that a foundation takes from
    /// the top of a column, pass after pass over the columns, until a whole
    /// pass moves nothing.
    pub fn check_automove_cards(&mut self)
        requires
            old(self).wf(),
        ensures
            final(self)@ == old(self)@.settle(),
            final(self).wf(),
            final(self)@.cards() == old(self)@.cards(),
            final(self)@.settled(),
    {
        proof {
            lemma_settle(self@);
        }
        loop
            invariant
                self.wf(),
                self@.settle() == old(self)@.settle(),
            ensures
                self@ == old(self)@.settle(),
            decreases self@.tableau_len(),
        {
            proof {
                lemma_settle_from(self@, 0);
            }
            let moved_any = self.automove_pass();
            if !moved_any {
                break ;
            }
        }
    }
}

} // verus!
