//! Counting arguments about the heights of columns, as the balancing pass
//! of a deal needs them.

use vstd::prelude::*;

use crate::cards::Card;
use crate::conservation::lemma_tableau_len_step;
use crate::rules::{tableau, DESIRED_STACK_HEIGHT};

verus! {

/// By how much a column of height `h` is above the target height.
pub open spec fn over(h: int) -> int {
    if h > DESIRED_STACK_HEIGHT {
        h - DESIRED_STACK_HEIGHT
    } else {
        0
    }
}

/// By how much a column of height `h` is below the target height.
pub open spec fn under(h: int) -> int {
    if h < DESIRED_STACK_HEIGHT {
        DESIRED_STACK_HEIGHT - h
    } else {
        0
    }
}

/// The number of cards that lie above the target height, over all columns.
pub open spec fn excess(columns: Seq<Seq<Card>>) -> int
    decreases columns.len(),
{
    if columns.len() == 0 {
        0
    } else {
        excess(columns.drop_last()) + over(columns.last().len() as int)
    }
}

/// The number of cards that are missing below the target height, over all
/// columns.
pub open spec fn deficit(columns: Seq<Seq<Card>>) -> int
    decreases columns.len(),
{
    if columns.len() == 0 {
        0
    } else {
        deficit(columns.drop_last()) + under(columns.last().len() as int)
    }
}

/// The cards on the columns are the target height for each column, plus
/// what lies above it, minus what is missing below it.
pub proof fn lemma_heights_balance(columns: Seq<Seq<Card>>)
    ensures
        tableau(columns).len() + deficit(columns) == DESIRED_STACK_HEIGHT * columns.len() + excess(
            columns,
        ),
    decreases columns.len(),
{
    if columns.len() > 0 {
        lemma_heights_balance(columns.drop_last());
        lemma_tableau_len_step(columns);
    }
}

/// The excess is never negative, it is at least what any one column is
/// above the target, and it is zero when no column is above the target.
pub proof fn lemma_excess_bounds(columns: Seq<Seq<Card>>)
    ensures
        excess(columns) >= 0,
        forall|k: int| 0 <= k < columns.len() ==> excess(columns) >= over(
            (#[trigger] columns[k]).len() as int,
        ),
        (forall|k: int| 0 <= k < columns.len() ==> (#[trigger] columns[k]).len()
            <= DESIRED_STACK_HEIGHT) ==> excess(columns) == 0,
    decreases columns.len(),
{
    if columns.len() > 0 {
        let rest = columns.drop_last();
        lemma_excess_bounds(rest);
        assert forall|k: int| 0 <= k < columns.len() implies excess(columns) >= over(
            (#[trigger] columns[k]).len() as int,
        ) by {
            if k < rest.len() {
                assert(rest[k] == columns[k]);
            }
        }
    }
}

/// The deficit is never negative, it is at least what any one column is
/// below the target, and it is zero when no column is below the target.
pub proof fn lemma_deficit_bounds(columns: Seq<Seq<Card>>)
    ensures
        deficit(columns) >= 0,
        forall|k: int| 0 <= k < columns.len() ==> deficit(columns) >= under(
            (#[trigger] columns[k]).len() as int,
        ),
        (forall|k: int| 0 <= k < columns.len() ==> (#[trigger] columns[k]).len()
            >= DESIRED_STACK_HEIGHT) ==> deficit(columns) == 0,
    decreases columns.len(),
{
    if columns.len() > 0 {
        let rest = columns.drop_last();
        lemma_deficit_bounds(rest);
        assert forall|k: int| 0 <= k < columns.len() implies deficit(columns) >= under(
            (#[trigger] columns[k]).len() as int,
        ) by {
            if k < rest.len() {
                assert(rest[k] == columns[k]);
            }
        }
    }
}

/// Replacing one column changes the excess by the difference between what
/// the old column and the new are above the target.
pub proof fn lemma_excess_update(columns: Seq<Seq<Card>>, i: int, col: Seq<Card>)
    requires
        0 <= i < columns.len(),
    ensures
        excess(columns.update(i, col)) + over(columns[i].len() as int) == excess(columns) + over(
            col.len() as int,
        ),
    decreases columns.len(),
{
    let updated = columns.update(i, col);
    if i == columns.len() - 1 {
        assert(updated.drop_last() =~= columns.drop_last());
    } else {
        lemma_excess_update(columns.drop_last(), i, col);
        assert(updated.drop_last() =~= columns.drop_last().update(i, col));
    }
}

} // verus!
