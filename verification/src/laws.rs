//! What holds of every move, stated over the model of the board.

use vstd::prelude::*;

use crate::cards::Card;
use crate::cascade::lemma_settled_is_fixed;
use crate::conservation::lemma_move_keeps_cards;
use crate::rules::{is_chain, run_from, run_len, BoardView, BoardZone, CardMoveError};

verus! {

/// A move of a zone onto itself is refused as a move that does nothing,
/// whatever the zone and whatever the board.
pub proof fn lemma_move_onto_itself_is_noop(b: BoardView, zone: BoardZone, cascade: bool)
    ensures
        b.move_outcome(zone, zone, cascade) == Err::<BoardView, CardMoveError>(
            CardMoveError::NoopMovement,
        ),
{
}

impl BoardView {
    /// The board after a list of moves, each given as source, destination
    /// and whether a run moves as a whole; `None` if one of them is refused.
    pub open spec fn after_moves(self, moves: Seq<(BoardZone, BoardZone, bool)>) -> Option<
        BoardView,
    >
        decreases moves.len(),
    {
        if moves.len() == 0 {
            Some(self)
        } else {
            match self.move_outcome(moves[0].0, moves[0].1, moves[0].2) {
                Ok(next) => next.after_moves(moves.skip(1)),
                Err(_) => None,
            }
        }
    }
}

/// Deck conservation: after any sequence of successful moves, a board that
/// held the deck still holds it: every card once, over the columns, the
/// storage slot and what the foundations stand for.
pub proof fn lemma_moves_conserve_deck(b: BoardView, moves: Seq<(BoardZone, BoardZone, bool)>)
    requires
        b.holds_deck(),
        forall|k: int|
            0 <= k < moves.len() ==> (#[trigger] moves[k]).0.in_bounds() && moves[k].1.in_bounds(),
        b.after_moves(moves) is Some,
    ensures
        b.after_moves(moves).unwrap().holds_deck(),
    decreases moves.len(),
{
    if moves.len() > 0 {
        let next = b.move_outcome(moves[0].0, moves[0].1, moves[0].2).unwrap();
        lemma_move_keeps_cards(b, moves[0].0, moves[0].1, moves[0].2);
        let rest = moves.skip(1);
        lemma_moves_conserve_deck(next, rest);
    }
}

/// A column as destination accepts the card that must fit it if and only
/// if the column is empty or the card stacks with the column's top card;
/// otherwise the move is refused because the cards cannot stack. This
/// holds of every move that has a card to take and is no move of a zone
/// onto itself.
pub proof fn lemma_column_destination(b: BoardView, src: BoardZone, col: usize, cascade: bool)
    requires
        src != BoardZone::Column(col),
        !src.is_write_only(),
        b.source_card(src) is Some,
    ensures
        b.move_outcome(src, BoardZone::Column(col), cascade) is Ok <==> b.column_accepts(
            col as int,
            b.validating_card(src, BoardZone::Column(col), cascade),
        ),
        !b.column_accepts(col as int, b.validating_card(src, BoardZone::Column(col), cascade))
            ==> b.move_outcome(src, BoardZone::Column(col), cascade) == Err::<
            BoardView,
            CardMoveError,
        >(CardMoveError::CannotStack),
        b.column_accepts(col as int, b.validating_card(src, BoardZone::Column(col), cascade)) <==> (
        b.columns[col as int].len() == 0 || b.validating_card(
            src,
            BoardZone::Column(col),
            cascade,
        ).stacks_with(b.columns[col as int].last())),
{
}

/// A run that is known to reach `k` cards down is a chain as far as it
/// goes, and it stops only at the bottom of the column or at a card that
/// does not stack with the one above it.
pub proof fn lemma_run_from_is_maximal(cards: Seq<Card>, k: int)
    requires
        is_chain(cards, k),
    ensures
        is_chain(cards, run_from(cards, k)),
        run_from(cards, k) == cards.len() || !cards[cards.len() - run_from(cards, k)
            - 1].stacks_with(cards[cards.len() - run_from(cards, k)]),
    decreases cards.len() - k,
{
    if k < cards.len() && cards[cards.len() - k - 1].stacks_with(cards[cards.len() - k]) {
        lemma_run_from_is_maximal(cards, k + 1);
    }
}

/// The run at the top of a column is the longest chain there: its cards
/// stack each with its neighbour, and the card below it, if there is one,
/// does not stack with its bottom card.
pub proof fn lemma_run_is_maximal_chain(cards: Seq<Card>)
    requires
        cards.len() > 0,
    ensures
        is_chain(cards, run_len(cards)),
        run_len(cards) == cards.len() || !cards[cards.len() - run_len(cards) - 1].stacks_with(
            cards[cards.len() - run_len(cards)],
        ),
{
    lemma_run_from_is_maximal(cards, 1);
}

/// With the cascade on, a move between columns that succeeds moves the
/// whole run at the top of the source, in the order it had, and nothing
/// else; with the cascade off, it moves the top card alone, however long
/// the run.
pub proof fn lemma_cascade_moves_whole_run(b: BoardView, from: usize, to: usize)
    requires
        from != to,
        b.columns[from as int].len() > 0,
        0 <= from < b.columns.len(),
        0 <= to < b.columns.len(),
    ensures
        b.move_outcome(BoardZone::Column(from), BoardZone::Column(to), true) matches Ok(after)
            ==> {
            let source = b.columns[from as int];
            let keep = source.len() - run_len(source);
            &&& after.columns[from as int] == source.take(keep)
            &&& after.columns[to as int] == b.columns[to as int] + source.skip(keep)
            &&& forall|k: int|
                0 <= k < b.columns.len() && k != from && k != to ==> after.columns[k]
                    == b.columns[k]
        },
        b.move_outcome(BoardZone::Column(from), BoardZone::Column(to), false) matches Ok(after)
            ==> {
            let source = b.columns[from as int];
            &&& after.columns[from as int] == source.drop_last()
            &&& after.columns[to as int] == b.columns[to as int].push(source.last())
            &&& forall|k: int|
                0 <= k < b.columns.len() && k != from && k != to ==> after.columns[k]
                    == b.columns[k]
        },
{
}

/// While the storage slot is taken, the minor foundation refuses every
/// card, whatever the card: a move to it that has a card to take fails as
/// blocked by the storage.
pub proof fn lemma_minor_foundation_blocked(b: BoardView, src: BoardZone, cascade: bool)
    requires
        b.storage is Some,
        !src.is_write_only(),
        b.source_card(src) is Some,
    ensures
        b.move_outcome(src, BoardZone::MinorFoundation, cascade) == Err::<
            BoardView,
            CardMoveError,
        >(CardMoveError::BlockedByFullMinorStorage),
{
}

/// A won board is left alone by the automatic cascade: there is no card
/// on a column to send anywhere.
pub proof fn lemma_solved_is_settled(b: BoardView)
    requires
        b.wf(),
        b.solved(),
    ensures
        b.settled(),
        b.settle() == b,
{
    lemma_settled_is_fixed(b);
}

} // verus!
