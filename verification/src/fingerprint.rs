//! A board written out as bytes, so that boards can be told apart and
//! remembered in a hash set.

use vstd::prelude::*;

use crate::board::Board;
use crate::cards::{Card, Suit};
use crate::conservation::lemma_tableau_len_step;
use crate::rules::{tableau, BoardView, COLUMN_COUNT};

verus! {

/// The byte that stands for an empty slot, and that ends a column. No card
/// and no rank has this code.
pub const GAP: u8 = 255;

/// The number of bytes that come before the columns: the four minor marks,
/// the two major marks and the storage slot.
pub const HEADER_LEN: usize = 7;

/// The code of a card: 0 to 51 for the minor arcana, suit by suit, and 52
/// to 73 for the major arcana.
pub open spec fn card_code(card: Card) -> u8 {
    match card.suit {
        Suit::Minor(m) => (m.spec_index() * 13 + (card.number - 1)) as u8,
        Suit::MajorArcana => (52 + card.number) as u8,
    }
}

/// The code of a foundation mark: the rank, or `GAP` where nothing has been
/// placed.
pub open spec fn mark_code(mark: Option<u8>) -> u8 {
    match mark {
        Some(rank) => rank,
        None => GAP,
    }
}

/// The code of the storage slot: the code of its card, or `GAP`.
pub open spec fn slot_code(slot: Option<Card>) -> u8 {
    match slot {
        Some(card) => card_code(card),
        None => GAP,
    }
}

/// The codes of the cards of a column, bottom card first.
pub open spec fn card_codes(column: Seq<Card>) -> Seq<u8> {
    Seq::new(column.len(), |j: int| card_code(column[j]))
}

/// The columns written out one after the other, each as the codes of its
/// cards followed by `GAP`.
pub open spec fn column_codes(columns: Seq<Seq<Card>>) -> Seq<u8>
    decreases columns.len(),
{
    if columns.len() == 0 {
        Seq::empty()
    } else {
        column_codes(columns.drop_last()) + card_codes(columns.last()).push(GAP)
    }
}

/// The bytes before the columns: the four minor marks, the two major marks
/// and the storage slot.
pub open spec fn header_codes(b: BoardView) -> Seq<u8> {
    seq![
        mark_code(b.minor_maxes[0]),
        mark_code(b.minor_maxes[1]),
        mark_code(b.minor_maxes[2]),
        mark_code(b.minor_maxes[3]),
        mark_code(b.left_max),
        mark_code(b.right_min),
        slot_code(b.storage),
    ]
}

/// The board as bytes: the header, then the columns.
pub open spec fn key_of(b: BoardView) -> Seq<u8> {
    header_codes(b) + column_codes(b.columns)
}

/// The code of a valid card, which is below 74.
pub fn code_of_card(card: &Card) -> (code: u8)
    requires
        card.valid(),
    ensures
        code == card_code(*card),
        code < 74,
{
    match card.suit() {
        Suit::Minor(m) => {
            let slot = m.index();
            let base: u8 = if slot == 0 {
                0
            } else if slot == 1 {
                13
            } else if slot == 2 {
                26
            } else {
                39
            };
            base + (card.number() - 1)
        },
        Suit::MajorArcana => 52 + card.number(),
    }
}

fn code_of_mark(mark: Option<u8>) -> (code: u8)
    ensures
        code == mark_code(mark),
{
    match mark {
        Some(rank) => rank,
        None => GAP,
    }
}

/// The board as bytes. Two well-formed boards have the same bytes only if
/// they are the same board.
pub fn fingerprint(board: &Board) -> (key: Vec<u8>)
    requires
        board.wf(),
    ensures
        key@ == key_of(board@),
{
    let mut key: Vec<u8> = Vec::new();
    let maxes = board.minor_foundation_maxes();
    key.push(code_of_mark(maxes[0]));
    key.push(code_of_mark(maxes[1]));
    key.push(code_of_mark(maxes[2]));
    key.push(code_of_mark(maxes[3]));
    key.push(code_of_mark(board.major_foundation_left_max()));
    key.push(code_of_mark(board.major_foundation_right_min()));
    match board.minor_foundation_storage() {
        Some(card) => key.push(code_of_card(card)),
        None => key.push(GAP),
    }
    let columns = board.columns();
    let mut i: usize = 0;
    while i < COLUMN_COUNT
        invariant
            i <= COLUMN_COUNT,
            board.wf(),
            forall|k: int| 0 <= k < COLUMN_COUNT ==> (#[trigger] columns[k])@ == board@.columns[k],
            key@ == header_codes(board@) + column_codes(board@.columns.take(i as int)),
        decreases COLUMN_COUNT - i,
    {
        let cards = columns[i].cards();
        let ghost done = key@;
        let ghost column = board@.columns[i as int];
        let mut j: usize = 0;
        while j < cards.len()
            invariant
                j <= cards@.len(),
                cards@ == column,
                crate::rules::all_valid(column),
                key@ == done + card_codes(column.take(j as int)),
            decreases cards@.len() - j,
        {
            key.push(code_of_card(&cards[j]));
            j += 1;
        }
        key.push(GAP);
        proof {
            let upto = board@.columns.take(i + 1);
            assert(upto.drop_last() =~= board@.columns.take(i as int));
        }
        i += 1;
    }
    assert(board@.columns.take(COLUMN_COUNT as int) =~= board@.columns);
    key
}

/// The columns take one byte for each card and one for each column.
pub proof fn lemma_column_codes_len(columns: Seq<Seq<Card>>)
    ensures
        column_codes(columns).len() == columns.len() + tableau(columns).len(),
    decreases columns.len(),
{
    if columns.len() > 0 {
        lemma_column_codes_len(columns.drop_last());
        lemma_tableau_len_step(columns);
    }
}

/// The length of a board's bytes: the header, and for the columns one byte
/// for each card and one for each column.
pub proof fn lemma_key_len(b: BoardView)
    ensures
        key_of(b).len() == HEADER_LEN + b.columns.len() + b.tableau_len(),
{
    lemma_column_codes_len(b.columns);
}

/// Valid cards have codes below 74, and different cards have different
/// codes.
pub proof fn lemma_card_code_injective(a: Card, b: Card)
    requires
        a.valid(),
        b.valid(),
    ensures
        card_code(a) < 74,
        card_code(a) == card_code(b) ==> a == b,
{
}

/// Columns of valid cards with the same codes are the same column.
pub proof fn lemma_card_codes_injective(a: Seq<Card>, b: Seq<Card>)
    requires
        crate::rules::all_valid(a),
        crate::rules::all_valid(b),
        card_codes(a) == card_codes(b),
    ensures
        a == b,
{
    assert(b.len() == card_codes(b).len());
    assert forall|j: int| 0 <= j < a.len() implies a[j] == b[j] by {
        assert(card_codes(b)[j] == card_code(b[j]));
        lemma_card_code_injective(a[j], b[j]);
    }
}

/// The bytes of a row of columns end with `GAP`, unless there is no
/// column.
pub proof fn lemma_column_codes_end(columns: Seq<Seq<Card>>)
    ensures
        columns.len() == 0 ==> column_codes(columns).len() == 0,
        columns.len() > 0 ==> column_codes(columns).len() > 0 && column_codes(columns).last()
            == GAP,
{
}

/// Rows of equally many columns of valid cards that are written with the
/// same bytes are the same row.
pub proof fn lemma_column_codes_injective(a: Seq<Seq<Card>>, b: Seq<Seq<Card>>)
    requires
        a.len() == b.len(),
        forall|i: int| 0 <= i < a.len() ==> crate::rules::all_valid(#[trigger] a[i]),
        forall|i: int| 0 <= i < b.len() ==> crate::rules::all_valid(#[trigger] b[i]),
        column_codes(a) == column_codes(b),
    ensures
        a == b,
    decreases a.len(),
{
    if a.len() > 0 {
        let whole = column_codes(a);
        let front_a = column_codes(a.drop_last());
        let front_b = column_codes(b.drop_last());
        let last_a = card_codes(a.last());
        let last_b = card_codes(b.last());
        assert(whole == front_b + last_b.push(GAP));
        lemma_column_codes_end(a.drop_last());
        lemma_column_codes_end(b.drop_last());
        if last_a.len() < last_b.len() {
            // The byte that ends the columns before the last of `a` would
            // be a card of the last column of `b`.
            let at = front_a.len() - 1;
            assert(whole[at] == last_b.push(GAP)[at - front_b.len()]);
            let j = at - front_b.len();
            lemma_card_code_injective(b.last()[j], b.last()[j]);
            assert(false);
        }
        if last_b.len() < last_a.len() {
            let at = front_b.len() - 1;
            assert(whole[at] == last_a.push(GAP)[at - front_a.len()]);
            let j = at - front_a.len();
            lemma_card_code_injective(a.last()[j], a.last()[j]);
            assert(false);
        }
        assert(front_a =~= whole.take(front_a.len() as int));
        assert(front_b =~= whole.take(front_a.len() as int));
        assert(last_a =~= whole.subrange(front_a.len() as int, whole.len() - 1));
        assert(last_b =~= whole.subrange(front_a.len() as int, whole.len() - 1));
        lemma_card_codes_injective(a.last(), b.last());
        lemma_column_codes_injective(a.drop_last(), b.drop_last());
        assert(b =~= b.drop_last().push(b.last()));
    }
}

/// Boards are told apart by their bytes: two well-formed boards with the
/// same bytes are the same board.
pub proof fn lemma_key_tells_boards_apart(a: BoardView, b: BoardView)
    requires
        a.wf(),
        b.wf(),
        key_of(a) == key_of(b),
    ensures
        a == b,
{
    let key = key_of(a);
    assert(header_codes(b) =~= key.take(HEADER_LEN as int));
    assert(column_codes(a.columns) =~= key.skip(HEADER_LEN as int));
    assert(column_codes(b.columns) =~= key.skip(HEADER_LEN as int));
    lemma_column_codes_injective(a.columns, b.columns);
    assert(a.minor_maxes =~= b.minor_maxes);
}

} // verus!
