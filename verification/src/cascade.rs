//! Proofs about the automatic cascade: it keeps every card, it ends on a
//! board from which no column can feed a foundation, and running it again
//! changes nothing.

use vstd::multiset::group_multiset_axioms;
use vstd::prelude::*;

use crate::conservation::{lemma_move_keeps_cards, lemma_tableau_pop};
use crate::rules::{BoardView, BoardZone, COLUMN_COUNT};

verus! {

/// One card sent from a column to a foundation: the board stays well
/// formed and keeps its cards, and the column is one card shorter.
pub proof fn lemma_foundation_step(b: BoardView, col: int)
    requires
        b.wf(),
        0 <= col < COLUMN_COUNT,
        b.foundation_step(col) is Some,
    ensures
        b.foundation_step(col).unwrap().wf(),
        b.foundation_step(col).unwrap().cards() == b.cards(),
        b.foundation_step(col).unwrap().tableau_len() + 1 == b.tableau_len(),
        b.foundation_step(col).unwrap().in_play() < b.in_play(),
        b.foundation_step(col).unwrap().columns == b.columns.update(
            col,
            b.columns[col].drop_last(),
        ),
        b.columns[col].len() > 0,
{
    broadcast use group_multiset_axioms;

    let src = BoardZone::Column(col as usize);
    if b.move_outcome(src, BoardZone::MinorFoundation, false) is Ok {
        lemma_move_keeps_cards(b, src, BoardZone::MinorFoundation, false);
    } else {
        lemma_move_keeps_cards(b, src, BoardZone::MajorFoundation, false);
    }
    lemma_tableau_pop(b.columns, col);
}

/// What one column's turn in the cascade leaves: a well-formed board with
/// the same cards, from which that column can feed no foundation; and the
/// board itself if nothing could move.
pub proof fn lemma_settle_column(b: BoardView, col: int)
    requires
        b.wf(),
        0 <= col < COLUMN_COUNT,
    ensures
        b.settle_column(col).wf(),
        b.settle_column(col).cards() == b.cards(),
        b.settle_column(col).tableau_len() <= b.tableau_len(),
        b.settle_column(col).in_play() <= b.in_play(),
        b.settle_column(col).foundation_step(col) is None,
        b.foundation_step(col) is None ==> b.settle_column(col) == b,
        b.foundation_step(col) is Some ==> b.settle_column(col).tableau_len() < b.tableau_len(),
    decreases b.columns[col].len(),
{
    match b.foundation_step(col) {
        Some(next) => {
            lemma_foundation_step(b, col);
            lemma_settle_column(next, col);
        },
        None => {},
    }
}

/// What one pass over the columns `col` and up leaves: a well-formed board
/// with the same cards; and if the pass moved nothing, the board itself,
/// none of whose columns from `col` up can feed a foundation.
pub proof fn lemma_settle_from(b: BoardView, col: int)
    requires
        b.wf(),
        0 <= col <= COLUMN_COUNT,
    ensures
        b.settle_from(col).wf(),
        b.settle_from(col).cards() == b.cards(),
        b.settle_from(col).tableau_len() <= b.tableau_len(),
        b.settle_from(col).in_play() <= b.in_play(),
        b.settle_from(col).tableau_len() == b.tableau_len() ==> {
            &&& b.settle_from(col) == b
            &&& forall|c: int| col <= c < COLUMN_COUNT ==> (#[trigger] b.foundation_step(c)) is None
        },
        (forall|c: int| col <= c < COLUMN_COUNT ==> (#[trigger] b.foundation_step(c)) is None)
            ==> b.settle_from(col) == b,
    decreases COLUMN_COUNT - col,
{
    if col < COLUMN_COUNT {
        let mid = b.settle_column(col);
        lemma_settle_column(b, col);
        lemma_settle_from(mid, col + 1);
    }
}

/// The automatic cascade keeps the board well formed and keeps every card,
/// and it ends on a board from which no column can feed a foundation.
pub proof fn lemma_settle(b: BoardView)
    requires
        b.wf(),
    ensures
        b.settle().wf(),
        b.settle().cards() == b.cards(),
        b.settle().tableau_len() <= b.tableau_len(),
        b.settle().in_play() <= b.in_play(),
        b.settle().settled(),
    decreases b.tableau_len(),
{
    let pass = b.settle_from(0);
    lemma_settle_from(b, 0);
    if pass.tableau_len() < b.tableau_len() {
        lemma_settle(pass);
    }
}

/// On a board from which no column can feed a foundation, the automatic
/// cascade moves nothing.
pub proof fn lemma_settled_is_fixed(b: BoardView)
    requires
        b.wf(),
        b.settled(),
    ensures
        b.settle() == b,
{
    lemma_settle_from(b, 0);
}

/// The automatic cascade is idempotent: run twice in a row, the second run
/// moves nothing.
pub proof fn lemma_settle_idempotent(b: BoardView)
    requires
        b.wf(),
    ensures
        b.settle().settle() == b.settle(),
{
    lemma_settle(b);
    lemma_settled_is_fixed(b.settle());
}

} // verus!
