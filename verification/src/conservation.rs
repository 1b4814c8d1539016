//! Proofs that the moves neither lose nor duplicate a card, and that they
//! keep a board well formed.

use vstd::multiset::{group_multiset_axioms, Multiset};
use vstd::prelude::*;
use vstd::seq_lib::{group_to_multiset_ensures, lemma_multiset_commutative};

use crate::cards::{Card, MinorSuit, Suit};
use crate::rules::{
    major_left_run, major_right_run, minor_run, run_from, run_len, tableau, BoardView,
    BoardZone, COLUMN_COUNT,
};

verus! {

/// Replacing one column changes the cards on the columns by exactly the
/// difference between the old column and the new.
pub proof fn lemma_tableau_update(columns: Seq<Seq<Card>>, i: int, col: Seq<Card>)
    requires
        0 <= i < columns.len(),
    ensures
        tableau(columns.update(i, col)).add(columns[i].to_multiset()) == tableau(columns).add(
            col.to_multiset(),
        ),
    decreases columns.len(),
{
    broadcast use group_multiset_axioms;

    let updated = columns.update(i, col);
    if i == columns.len() - 1 {
        assert(updated.drop_last() =~= columns.drop_last());
    } else {
        lemma_tableau_update(columns.drop_last(), i, col);
        assert(updated.drop_last() =~= columns.drop_last().update(i, col));
    }
    assert forall|v: Card|
        tableau(updated).add(columns[i].to_multiset()).count(v) == tableau(columns).add(
            col.to_multiset(),
        ).count(v) by {
        if i != columns.len() - 1 {
            let rest = columns.drop_last();
            assert(tableau(rest.update(i, col)).add(columns[i].to_multiset()).count(v) == tableau(
                rest,
            ).add(col.to_multiset()).count(v));
        }
    }
}

/// A card laid on a column is one more card on the columns.
pub proof fn lemma_tableau_push(columns: Seq<Seq<Card>>, i: int, card: Card)
    requires
        0 <= i < columns.len(),
    ensures
        tableau(columns.update(i, columns[i].push(card))) == tableau(columns).insert(card),
{
    broadcast use {group_to_multiset_ensures, group_multiset_axioms};

    let grown = columns[i].push(card);
    lemma_tableau_update(columns, i, grown);
    assert forall|v: Card|
        tableau(columns.update(i, grown)).count(v) == tableau(columns).insert(card).count(v) by {
        assert(tableau(columns.update(i, grown)).add(columns[i].to_multiset()).count(v)
            == tableau(columns).add(grown.to_multiset()).count(v));
    }
}

/// A card taken off a column is one card fewer on the columns.
pub proof fn lemma_tableau_pop(columns: Seq<Seq<Card>>, i: int)
    requires
        0 <= i < columns.len(),
        columns[i].len() > 0,
    ensures
        tableau(columns.update(i, columns[i].drop_last())).insert(columns[i].last()) == tableau(
            columns,
        ),
{
    broadcast use {group_to_multiset_ensures, group_multiset_axioms};

    let less = columns[i].drop_last();
    let card = columns[i].last();
    lemma_tableau_update(columns, i, less);
    assert(columns[i] =~= less.push(card));
    assert forall|v: Card|
        tableau(columns.update(i, less)).insert(card).count(v) == tableau(columns).count(v) by {
        assert(tableau(columns.update(i, less)).add(columns[i].to_multiset()).count(v) == tableau(
            columns,
        ).add(less.to_multiset()).count(v));
    }
}

/// One more column adds its cards to those on the columns.
pub proof fn lemma_tableau_push_column(columns: Seq<Seq<Card>>, col: Seq<Card>)
    ensures
        tableau(columns.push(col)) == tableau(columns).add(col.to_multiset()),
{
    assert(columns.push(col).drop_last() =~= columns);
}

/// Every card that lies on a column is among the cards on the columns.
pub proof fn lemma_tableau_has(columns: Seq<Seq<Card>>, i: int, j: int)
    requires
        0 <= i < columns.len(),
        0 <= j < columns[i].len(),
    ensures
        tableau(columns).count(columns[i][j]) > 0,
    decreases columns.len(),
{
    broadcast use {group_to_multiset_ensures, group_multiset_axioms};

    if i != columns.len() - 1 {
        lemma_tableau_has(columns.drop_last(), i, j);
    }
}

/// The number of cards on the columns is the sum of the columns' heights.
pub proof fn lemma_tableau_len_step(columns: Seq<Seq<Card>>)
    requires
        columns.len() > 0,
    ensures
        tableau(columns).len() == tableau(columns.drop_last()).len() + columns.last().len(),
{
    broadcast use {group_to_multiset_ensures, group_multiset_axioms};

}

/// A board without cards on its columns has an empty tableau.
pub proof fn lemma_tableau_of_empty_columns(columns: Seq<Seq<Card>>)
    requires
        forall|i: int| 0 <= i < columns.len() ==> (#[trigger] columns[i]).len() == 0,
    ensures
        tableau(columns) == Multiset::<Card>::empty(),
    decreases columns.len(),
{
    broadcast use {group_to_multiset_ensures, group_multiset_axioms};

    if columns.len() > 0 {
        lemma_tableau_of_empty_columns(columns.drop_last());
    }
}

/// The run at the top of a column is at least one card and at most the
/// column, once it is known to reach `k` cards down.
pub proof fn lemma_run_from_bounds(cards: Seq<Card>, k: int)
    requires
        1 <= k <= cards.len(),
    ensures
        k <= run_from(cards, k) <= cards.len(),
    decreases cards.len() - k,
{
    if k < cards.len() && cards[cards.len() - k - 1].stacks_with(cards[cards.len() - k]) {
        lemma_run_from_bounds(cards, k + 1);
    }
}

/// The run at the top of a column with cards has between one card and all
/// of them.
pub proof fn lemma_run_len_bounds(cards: Seq<Card>)
    requires
        cards.len() > 0,
    ensures
        1 <= run_len(cards) <= cards.len(),
{
    lemma_run_from_bounds(cards, 1);
}

/// Placing the next rank on a minor foundation adds exactly that card to
/// what the foundation stands for.
pub proof fn lemma_minor_run_grows(suit: MinorSuit, before: Option<u8>, rank: u8)
    requires
        rank >= 1,
        match before {
            Some(m) => rank == m + 1,
            None => rank == 1,
        },
    ensures
        minor_run(suit, Some(rank)).to_multiset() == minor_run(suit, before).to_multiset().insert(
            Card { suit: Suit::Minor(suit), number: rank },
        ),
{
    broadcast use {group_to_multiset_ensures, group_multiset_axioms};

    assert(minor_run(suit, Some(rank)) =~= minor_run(suit, before).push(
        Card { suit: Suit::Minor(suit), number: rank },
    ));
}

/// Placing the next rank on the left of the major foundation adds exactly
/// that card.
pub proof fn lemma_major_left_grows(before: Option<u8>, rank: u8)
    requires
        match before {
            Some(l) => rank == l + 1,
            None => rank == 0,
        },
    ensures
        major_left_run(Some(rank)).to_multiset() == major_left_run(before).to_multiset().insert(
            Card { suit: Suit::MajorArcana, number: rank },
        ),
{
    broadcast use {group_to_multiset_ensures, group_multiset_axioms};

    assert(major_left_run(Some(rank)) =~= major_left_run(before).push(
        Card { suit: Suit::MajorArcana, number: rank },
    ));
}

/// Placing the next rank on the right of the major foundation adds exactly
/// that card.
pub proof fn lemma_major_right_grows(before: Option<u8>, rank: u8)
    requires
        rank <= 21,
        match before {
            Some(r) => rank + 1 == r && r <= 21,
            None => rank == 21,
        },
    ensures
        major_right_run(Some(rank)).to_multiset() == major_right_run(before).to_multiset().insert(
            Card { suit: Suit::MajorArcana, number: rank },
        ),
{
    broadcast use {group_to_multiset_ensures, group_multiset_axioms};

    assert(major_right_run(Some(rank)) =~= major_right_run(before).push(
        Card { suit: Suit::MajorArcana, number: rank },
    ));
}

/// A destination that takes a card gains exactly that card, and the board
/// stays well formed.
pub proof fn lemma_place_adds_card(b: BoardView, dst: BoardZone, card: Card)
    requires
        b.wf(),
        dst.in_bounds(),
        card.valid(),
        b.place(dst, card) is Ok,
    ensures
        b.place(dst, card).unwrap().wf(),
        b.place(dst, card).unwrap().cards() == b.cards().insert(card),
        b.place(dst, card).unwrap().in_play() == b.in_play() + if dst.is_write_only() {
            0nat
        } else {
            1nat
        },
{
    broadcast use {group_to_multiset_ensures, group_multiset_axioms};

    match dst {
        BoardZone::Column(j) => {
            lemma_tableau_push(b.columns, j as int, card);
        },
        BoardZone::MinorFoundationStorage => {},
        BoardZone::MinorFoundation => {
            let suit = card.suit->Minor_0;
            let s = suit.spec_index();
            lemma_minor_run_grows(suit, b.minor_maxes[s], card.number);
        },
        BoardZone::MajorFoundation => {
            if b.fits_major_left(card) {
                lemma_major_left_grows(b.left_max, card.number);
            } else {
                lemma_major_right_grows(b.right_min, card.number);
            }
        },
    }
}

/// Taking the card of a source away removes exactly that card, and the
/// board stays well formed.
pub proof fn lemma_take_removes_card(b: BoardView, src: BoardZone)
    requires
        b.wf(),
        src.in_bounds(),
        b.source_card(src) is Some,
    ensures
        b.take(src).wf(),
        b.take(src).cards().insert(b.source_card(src).unwrap()) == b.cards(),
        b.take(src).in_play() + 1 == b.in_play(),
{
    broadcast use {group_to_multiset_ensures, group_multiset_axioms};

    match src {
        BoardZone::Column(i) => {
            lemma_tableau_pop(b.columns, i as int);
        },
        BoardZone::MinorFoundationStorage => {},
        _ => {},
    }
}

/// Moving the run at the top of one column onto another keeps every card,
/// and the board stays well formed.
pub proof fn lemma_run_move_keeps_cards(b: BoardView, i: int, j: int)
    requires
        b.wf(),
        0 <= i < COLUMN_COUNT,
        0 <= j < COLUMN_COUNT,
        i != j,
        b.columns[i].len() > 0,
    ensures
        b.with_run_moved(i, j).wf(),
        b.with_run_moved(i, j).cards() == b.cards(),
        b.with_run_moved(i, j).in_play() == b.in_play(),
{
    broadcast use {group_to_multiset_ensures, group_multiset_axioms};

    let col = b.columns[i];
    lemma_run_len_bounds(col);
    let keep = col.len() - run_len(col);
    let moved = b.with_run_moved(i, j);
    let mid = b.columns.update(i, col.take(keep));
    let grown = b.columns[j] + col.skip(keep);
    lemma_tableau_update(b.columns, i, col.take(keep));
    lemma_tableau_update(mid, j, grown);
    assert(col =~= col.take(keep) + col.skip(keep));
    lemma_multiset_commutative(col.take(keep), col.skip(keep));
    lemma_multiset_commutative(b.columns[j], col.skip(keep));
    assert forall|v: Card| tableau(moved.columns).count(v) == tableau(b.columns).count(v) by {
        assert(tableau(mid).add(col.to_multiset()).count(v) == tableau(b.columns).add(
            col.take(keep).to_multiset(),
        ).count(v));
        assert(tableau(moved.columns).add(b.columns[j].to_multiset()).count(v) == tableau(mid).add(
            grown.to_multiset(),
        ).count(v));
    }
    assert(tableau(moved.columns) =~= tableau(b.columns));
}

/// Deck conservation for one move: a move that succeeds leaves a
/// well-formed board that accounts for exactly the cards it did before.
pub proof fn lemma_move_keeps_cards(b: BoardView, src: BoardZone, dst: BoardZone, cascade: bool)
    requires
        b.wf(),
        src.in_bounds(),
        dst.in_bounds(),
        b.move_outcome(src, dst, cascade) is Ok,
    ensures
        b.move_outcome(src, dst, cascade).unwrap().wf(),
        b.move_outcome(src, dst, cascade).unwrap().cards() == b.cards(),
        b.move_outcome(src, dst, cascade).unwrap().in_play() <= b.in_play(),
        dst.is_write_only() ==> b.move_outcome(src, dst, cascade).unwrap().in_play() < b.in_play(),
{
    let after = b.move_outcome(src, dst, cascade).unwrap();
    let card = b.source_card(src).unwrap();
    if cascade && src is Column && dst is Column {
        lemma_run_move_keeps_cards(b, src->Column_0 as int, dst->Column_0 as int);
    } else {
        let placed = b.place(dst, card).unwrap();
        lemma_place_adds_card(b, dst, card);
        lemma_take_removes_card(placed, src);
        assert(after.cards() =~= b.cards()) by {
            assert forall|c: Card| after.cards().count(c) == b.cards().count(c) by {
                assert(after.cards().insert(card).count(c) == b.cards().insert(card).count(c));
            }
        }
    }
}

} // verus!
