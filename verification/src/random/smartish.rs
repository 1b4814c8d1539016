//! The reverse-play deal: starting from a won game, cards are taken back off
//! the foundations and laid on the columns by moves that a player could
//! undo, so that the deal tends to be solvable.

use vstd::multiset::group_multiset_axioms;
use vstd::prelude::*;
use vstd::seq_lib::group_to_multiset_ensures;

use crate::board::{stacks_view, Board, Column};
use crate::cards::{Card, MinorSuit, Suit, MAJOR_ARCANA_MAX, MINOR_ARCANA_MAX, MINOR_ARCANA_MIN};
use crate::conservation::{
    lemma_tableau_of_empty_columns, lemma_tableau_pop, lemma_tableau_push,
    lemma_tableau_push_column,
};
use crate::deck::{
    dealing_deck, lemma_dealing_cards_valid, lemma_dealt_holds_deck,
    lemma_split_deck_is_dealing_deck, minor_pips,
};
use crate::random::heights::{
    excess, lemma_deficit_bounds, lemma_excess_bounds, lemma_excess_update,
    lemma_heights_balance, over,
};
use crate::random::{make_rng, random_below};
use crate::rules::{
    tableau, BoardView, BoardZone, CardMoveError, COLUMN_COUNT, DESIRED_STACK_HEIGHT,
};

verus! {

/// How many more moves between columns are tried once every card has been
/// laid out.
pub const RESHUFFLE_STEPS: usize = 50;

/// One move in about this many, while cards are laid out, goes from column
/// to column where such a move is there to make.
pub const SHIFT_ODDS: usize = 4;

/// Whether the top card of column `from` may go to column `to` while a
/// deal is built: the card lies alone or stacks with the card below it, so
/// that a player could move it back, and `to` is the shorter column.
pub open spec fn can_shift(columns: Seq<Seq<Card>>, from: int, to: int) -> bool {
    &&& 0 <= from < columns.len()
    &&& 0 <= to < columns.len()
    &&& from != to
    &&& columns[from].len() > 0
    &&& (columns[from].len() == 1 || columns[from][columns[from].len() - 2].stacks_with(
        columns[from].last(),
    ))
    &&& columns[to].len() < columns[from].len()
}

/// The columns after the top card of column `from` went to column `to`.
pub open spec fn shifted(columns: Seq<Seq<Card>>, from: int, to: int) -> Seq<Seq<Card>> {
    columns.update(from, columns[from].drop_last()).update(
        to,
        columns[to].push(columns[from].last()),
    )
}

/// The columns after a list of moves from column to column, each given as
/// source and destination and made in order.
pub open spec fn after_shifts(start: Seq<Seq<Card>>, moves: Seq<(usize, usize)>) -> Seq<
    Seq<Card>,
>
    decreases moves.len(),
{
    if moves.len() == 0 {
        start
    } else {
        shifted(
            after_shifts(start, moves.drop_last()),
            moves.last().0 as int,
            moves.last().1 as int,
        )
    }
}

/// Whether each move of the list may be made when its turn comes.
pub open spec fn shifts_allowed(start: Seq<Seq<Card>>, moves: Seq<(usize, usize)>) -> bool {
    forall|k: int|
        0 <= k < moves.len() ==> can_shift(
            after_shifts(start, #[trigger] moves.take(k)),
            moves[k].0 as int,
            moves[k].1 as int,
        )
}

/// Whether no card may go from any column to any other.
pub open spec fn no_shift_left(columns: Seq<Seq<Card>>) -> bool {
    forall|from: int, to: int| !#[trigger] can_shift(columns, from, to)
}

/// A list of allowed moves stays one when a move is added that may be made
/// on the columns that the list leaves.
pub proof fn lemma_shifts_extend(
    start: Seq<Seq<Card>>,
    moves: Seq<(usize, usize)>,
    from: usize,
    to: usize,
)
    requires
        shifts_allowed(start, moves),
        can_shift(after_shifts(start, moves), from as int, to as int),
    ensures
        shifts_allowed(start, moves.push((from, to))),
        after_shifts(start, moves.push((from, to))) == shifted(
            after_shifts(start, moves),
            from as int,
            to as int,
        ),
{
    let longer = moves.push((from, to));
    assert(longer.drop_last() =~= moves);
    assert forall|k: int| 0 <= k < longer.len() implies can_shift(
        after_shifts(start, #[trigger] longer.take(k)),
        longer[k].0 as int,
        longer[k].1 as int,
    ) by {
        if k < moves.len() {
            assert(longer.take(k) =~= moves.take(k));
        } else {
            assert(longer.take(k) =~= moves);
        }
    }
}

/// A move from column to column that is made while a deal is built can be
/// played back: on a board with the columns as the move leaves them, the
/// card may go back where it came from, and that restores the columns.
pub proof fn lemma_shift_can_be_played_back(b: BoardView, from: usize, to: usize)
    requires
        can_shift(b.columns, from as int, to as int),
    ensures
        ({
            let card = b.columns[from as int].last();
            let shifted = BoardView {
                columns: b.columns.update(from as int, b.columns[from as int].drop_last()).update(
                    to as int,
                    b.columns[to as int].push(card),
                ),
                ..b
            };
            shifted.move_outcome(BoardZone::Column(to), BoardZone::Column(from), false) == Ok::<
                BoardView,
                CardMoveError,
            >(b)
        }),
{
    let card = b.columns[from as int].last();
    let shifted = BoardView {
        columns: b.columns.update(from as int, b.columns[from as int].drop_last()).update(
            to as int,
            b.columns[to as int].push(card),
        ),
        ..b
    };
    let back = shifted.move_outcome(BoardZone::Column(to), BoardZone::Column(from), false);
    assert(back.unwrap().columns =~= b.columns) by {
        assert(b.columns[from as int].drop_last().push(card) =~= b.columns[from as int]);
        assert(b.columns[to as int].push(card).drop_last() =~= b.columns[to as int]);
    }
}

/// Takes the top card off stack `i`.
fn take_top(rows: &mut Vec<Column>, i: usize) -> (card: Card)
    requires
        i < old(rows)@.len(),
        old(rows)@[i as int]@.len() > 0,
    ensures
        final(rows)@.len() == old(rows)@.len(),
        stacks_view(final(rows)@) == stacks_view(old(rows)@).update(
            i as int,
            old(rows)@[i as int]@.drop_last(),
        ),
        card == old(rows)@[i as int]@.last(),
        tableau(stacks_view(final(rows)@)).insert(card) == tableau(stacks_view(old(rows)@)),
{
    let card = rows[i].pop().unwrap();
    proof {
        lemma_tableau_pop(stacks_view(old(rows)@), i as int);
    }
    card
}

/// Lays `card` on stack `i`.
fn put_top(rows: &mut Vec<Column>, i: usize, card: Card)
    requires
        i < old(rows)@.len(),
    ensures
        final(rows)@.len() == old(rows)@.len(),
        stacks_view(final(rows)@) == stacks_view(old(rows)@).update(
            i as int,
            old(rows)@[i as int]@.push(card),
        ),
        tableau(stacks_view(final(rows)@)) == tableau(stacks_view(old(rows)@)).insert(card),
{
    rows[i].push(card);
    proof {
        lemma_tableau_push(stacks_view(old(rows)@), i as int, card);
    }
}

/// Moves the top card of column `from` onto column `to`.
fn move_top(columns: &mut Vec<Column>, from: usize, to: usize)
    requires
        from < old(columns)@.len(),
        to < old(columns)@.len(),
        from != to,
        old(columns)@[from as int]@.len() > 0,
    ensures
        final(columns)@.len() == old(columns)@.len(),
        stacks_view(final(columns)@) == stacks_view(old(columns)@).update(
            from as int,
            old(columns)@[from as int]@.drop_last(),
        ).update(to as int, old(columns)@[to as int]@.push(old(columns)@[from as int]@.last())),
        tableau(stacks_view(final(columns)@)) == tableau(stacks_view(old(columns)@)),
{
    broadcast use group_multiset_axioms;

    let card = take_top(columns, from);
    proof {
        assert(stacks_view(columns@)[to as int] == columns@[to as int]@);
    }
    put_top(columns, to, card);
}

/// The stacks that are lower than `height`, in order.
fn stacks_below(rows: &Vec<Column>, height: usize) -> (found: Vec<usize>)
    ensures
        forall|t: int|
            0 <= t < found@.len() ==> (#[trigger] found@[t]) < rows@.len() && rows@[found@[t] as int]@.len()
                < height,
        forall|i: int|
            0 <= i < rows@.len() && (#[trigger] rows@[i])@.len() < height ==> found@.contains(
                i as usize,
            ),
{
    let mut found: Vec<usize> = Vec::new();
    let mut i: usize = 0;
    while i < rows.len()
        invariant
            i <= rows@.len(),
            forall|t: int|
                0 <= t < found@.len() ==> (#[trigger] found@[t]) < rows@.len()
                    && rows@[found@[t] as int]@.len() < height,
            forall|k: int|
                0 <= k < i && (#[trigger] rows@[k])@.len() < height ==> found@.contains(k as usize),
        decreases rows@.len() - i,
    {
        if rows[i].len() < height {
            let ghost before = found@;
            found.push(i);
            assert(found@[before.len() as int] == i);
            assert forall|k: int|
                0 <= k < i + 1 && (#[trigger] rows@[k])@.len() < height implies found@.contains(
                k as usize,
            ) by {
                if k < i {
                    let t = choose|t: int| 0 <= t < before.len() && before[t] == k as usize;
                    assert(found@[t] == k as usize);
                }
            }
        }
        i += 1;
    }
    found
}

/// The stacks that are higher than `height`, in order.
fn stacks_above(rows: &Vec<Column>, height: usize) -> (found: Vec<usize>)
    ensures
        forall|t: int|
            0 <= t < found@.len() ==> (#[trigger] found@[t]) < rows@.len() && rows@[found@[t] as int]@.len()
                > height,
        forall|i: int|
            0 <= i < rows@.len() && (#[trigger] rows@[i])@.len() > height ==> found@.contains(
                i as usize,
            ),
{
    let mut found: Vec<usize> = Vec::new();
    let mut i: usize = 0;
    while i < rows.len()
        invariant
            i <= rows@.len(),
            forall|t: int|
                0 <= t < found@.len() ==> (#[trigger] found@[t]) < rows@.len()
                    && rows@[found@[t] as int]@.len() > height,
            forall|k: int|
                0 <= k < i && (#[trigger] rows@[k])@.len() > height ==> found@.contains(k as usize),
        decreases rows@.len() - i,
    {
        if rows[i].len() > height {
            let ghost before = found@;
            found.push(i);
            assert(found@[before.len() as int] == i);
            assert forall|k: int|
                0 <= k < i + 1 && (#[trigger] rows@[k])@.len() > height implies found@.contains(
                k as usize,
            ) by {
                if k < i {
                    let t = choose|t: int| 0 <= t < before.len() && before[t] == k as usize;
                    assert(found@[t] == k as usize);
                }
            }
        }
        i += 1;
    }
    found
}

/// Whether the top card of column `from` may go to column `to`.
fn shift_allowed(columns: &Vec<Column>, from: usize, to: usize) -> (ok: bool)
    requires
        from < columns@.len(),
        to < columns@.len(),
    ensures
        ok == can_shift(stacks_view(columns@), from as int, to as int),
{
    if from == to {
        return false;
    }
    let height = columns[from].len();
    if height == 0 || columns[to].len() >= height {
        return false;
    }
    if height == 1 {
        return true;
    }
    let cards = columns[from].cards();
    cards[height - 2].can_stack(&cards[height - 1])
}

/// Every move from column to column that may be made, source by source.
fn shift_candidates(columns: &Vec<Column>) -> (found: Vec<(usize, usize)>)
    ensures
        forall|t: int|
            0 <= t < found@.len() ==> can_shift(
                stacks_view(columns@),
                (#[trigger] found@[t]).0 as int,
                found@[t].1 as int,
            ),
        forall|from: int, to: int|
            #[trigger] can_shift(stacks_view(columns@), from, to) ==> found@.contains(
                (from as usize, to as usize),
            ),
{
    let n = columns.len();
    let mut found: Vec<(usize, usize)> = Vec::new();
    let mut from: usize = 0;
    while from < n
        invariant
            n == columns@.len(),
            from <= n,
            forall|t: int|
                0 <= t < found@.len() ==> can_shift(
                    stacks_view(columns@),
                    (#[trigger] found@[t]).0 as int,
                    found@[t].1 as int,
                ),
            forall|f: int, t: int|
                f < from && #[trigger] can_shift(stacks_view(columns@), f, t) ==> found@.contains(
                    (f as usize, t as usize),
                ),
        decreases n - from,
    {
        let mut to: usize = 0;
        while to < n
            invariant
                n == columns@.len(),
                from < n,
                to <= n,
                forall|t: int|
                    0 <= t < found@.len() ==> can_shift(
                        stacks_view(columns@),
                        (#[trigger] found@[t]).0 as int,
                        found@[t].1 as int,
                    ),
                forall|f: int, t: int|
                    (f < from || (f == from && t < to)) && #[trigger] can_shift(
                        stacks_view(columns@),
                        f,
                        t,
                    ) ==> found@.contains((f as usize, t as usize)),
            decreases n - to,
        {
            let ghost before = found@;
            if shift_allowed(columns, from, to) {
                found.push((from, to));
            }
            assert forall|f: int, t: int|
                (f < from || (f == from && t < to + 1)) && #[trigger] can_shift(
                    stacks_view(columns@),
                    f,
                    t,
                ) implies found@.contains((f as usize, t as usize)) by {
                if f == from && t == to {
                    assert(found@[before.len() as int] == (from, to));
                } else {
                    let k = choose|k: int|
                        0 <= k < before.len() && before[k] == (f as usize, t as usize);
                    assert(found@[k] == (f as usize, t as usize));
                }
            }
            to += 1;
        }
        from += 1;
    }
    found
}

/// The pips of `suit`, ranks 2 to 13, in a random order.
fn shuffled_pips(suit: MinorSuit, rng: &mut fastrand::Rng) -> (pips: Vec<Card>)
    ensures
        pips@.to_multiset() == minor_pips(suit).to_multiset(),
{
    let mut pips: Vec<Card> = Vec::new();
    let mut number: u8 = MINOR_ARCANA_MIN + 1;
    while number <= MINOR_ARCANA_MAX
        invariant
            2 <= number <= 14,
            pips@ == minor_pips(suit).take(number - 2),
        decreases 14 - number,
    {
        pips.push(Card::new(Suit::Minor(suit), number));
        number += 1;
    }
    assert(minor_pips(suit).take(12) =~= minor_pips(suit));
    rng.shuffle(pips.as_mut_slice());
    pips
}

/// The stacks that cards are taken from while a deal is built: a won game
/// read backwards. The major arcana are cut at a random rank into the two
/// runs of the major foundation, each in the order in which it was laid, so
/// that the card played last comes off first; the pips of each suit form a
/// shuffled stack of their own.
fn source_stacks(rng: &mut fastrand::Rng) -> (sources: Vec<Column>)
    ensures
        tableau(stacks_view(sources@)) == dealing_deck().to_multiset(),
{
    let cut = random_below(rng, MAJOR_ARCANA_MAX as usize + 1) as u8;
    let won = Board::solved(cut);
    let left = won.virtual_cards_major_foundation_left();
    let right = won.virtual_cards_major_foundation_right();
    let pentacles = shuffled_pips(MinorSuit::Pentacles, rng);
    let cups = shuffled_pips(MinorSuit::Cups, rng);
    let swords = shuffled_pips(MinorSuit::Swords, rng);
    let wands = shuffled_pips(MinorSuit::Wands, rng);
    let ghost parts = seq![left@, right@, pentacles@, cups@, swords@, wands@];
    let mut sources: Vec<Column> = Vec::new();
    sources.push(Column::from_cards(left));
    sources.push(Column::from_cards(right));
    sources.push(Column::from_cards(pentacles));
    sources.push(Column::from_cards(cups));
    sources.push(Column::from_cards(swords));
    sources.push(Column::from_cards(wands));
    proof {
        broadcast use group_multiset_axioms;

        assert(stacks_view(sources@) =~= parts);
        let upto0 = Seq::<Seq<Card>>::empty();
        let upto1 = upto0.push(parts[0]);
        let upto2 = upto1.push(parts[1]);
        let upto3 = upto2.push(parts[2]);
        let upto4 = upto3.push(parts[3]);
        let upto5 = upto4.push(parts[4]);
        let upto6 = upto5.push(parts[5]);
        assert(upto6 =~= parts);
        lemma_tableau_push_column(upto0, parts[0]);
        lemma_tableau_push_column(upto1, parts[1]);
        lemma_tableau_push_column(upto2, parts[2]);
        lemma_tableau_push_column(upto3, parts[3]);
        lemma_tableau_push_column(upto4, parts[4]);
        lemma_tableau_push_column(upto5, parts[5]);
        lemma_split_deck_is_dealing_deck(cut);
    }
    sources
}

/// The column that a card taken from a source stack lands on: one of those
/// below the target height, if there is any, else any column.
fn landing_column(columns: &Vec<Column>, rng: &mut fastrand::Rng) -> (to: usize)
    requires
        columns@.len() > 0,
    ensures
        to < columns@.len(),
        (exists|i: int| 0 <= i < columns@.len() && (#[trigger] columns@[i])@.len()
            < DESIRED_STACK_HEIGHT) ==> columns@[to as int]@.len() < DESIRED_STACK_HEIGHT,
{
    let low = stacks_below(columns, DESIRED_STACK_HEIGHT);
    if low.len() > 0 {
        low[random_below(rng, low.len())]
    } else {
        random_below(rng, columns.len())
    }
}

/// Lays out every card of the source stacks. Each round takes the top card
/// of a source stack that still has one and lays it on a column; before
/// that, about one round in `SHIFT_ODDS`, a card goes from one column to
/// another where such a move may be made. No two moves between columns
/// follow each other, so the laying out comes to an end.
fn unplay(sources: &mut Vec<Column>, columns: &mut Vec<Column>, rng: &mut fastrand::Rng)
    requires
        old(columns)@.len() > 0,
    ensures
        final(columns)@.len() == old(columns)@.len(),
        tableau(stacks_view(final(columns)@)) == tableau(stacks_view(old(sources)@)).add(
            tableau(stacks_view(old(columns)@)),
        ),
{
    broadcast use group_multiset_axioms;

    let ghost all = tableau(stacks_view(sources@)).add(tableau(stacks_view(columns@)));
    loop
        invariant
            columns@.len() == old(columns)@.len(),
            columns@.len() > 0,
            tableau(stacks_view(sources@)).add(tableau(stacks_view(columns@))) == all,
        ensures
            columns@.len() == old(columns)@.len(),
            tableau(stacks_view(columns@)) == all,
        decreases tableau(stacks_view(sources@)).len(),
    {
        let live = stacks_above(sources, 0);
        if live.len() == 0 {
            proof {
                lemma_tableau_of_empty_columns(stacks_view(sources@));
            }
            break ;
        }
        let shifts = shift_candidates(columns);
        if shifts.len() > 0 && random_below(rng, SHIFT_ODDS) == 0 {
            let (from, to) = shifts[random_below(rng, shifts.len())];
            move_top(columns, from, to);
        }
        let from = live[random_below(rng, live.len())];
        let card = take_top(sources, from);
        let to = landing_column(columns, rng);
        put_top(columns, to, card);
    }
}

/// Makes up to `RESHUFFLE_STEPS` more moves from column to column, each
/// chosen at random among those that may be made, and stops early when
/// there is none. What it leaves are the columns after such a list of
/// moves; if the list is shorter than `RESHUFFLE_STEPS`, no further move
/// could be made.
fn reshuffle(columns: &mut Vec<Column>, rng: &mut fastrand::Rng)
    ensures
        final(columns)@.len() == old(columns)@.len(),
        tableau(stacks_view(final(columns)@)) == tableau(stacks_view(old(columns)@)),
        exists|made: Seq<(usize, usize)>|
            {
                &&& made.len() <= RESHUFFLE_STEPS
                &&& shifts_allowed(stacks_view(old(columns)@), made)
                &&& stacks_view(final(columns)@) == #[trigger] after_shifts(
                    stacks_view(old(columns)@),
                    made,
                )
                &&& made.len() < RESHUFFLE_STEPS ==> no_shift_left(stacks_view(final(columns)@))
            },
{
    let ghost start = stacks_view(columns@);
    let ghost mut made: Seq<(usize, usize)> = Seq::empty();
    let mut step: usize = 0;
    while step < RESHUFFLE_STEPS
        invariant
            step <= RESHUFFLE_STEPS,
            start == stacks_view(old(columns)@),
            columns@.len() == old(columns)@.len(),
            tableau(stacks_view(columns@)) == tableau(stacks_view(old(columns)@)),
            made.len() == step,
            shifts_allowed(start, made),
            stacks_view(columns@) == after_shifts(start, made),
        ensures
            made.len() < RESHUFFLE_STEPS ==> no_shift_left(stacks_view(columns@)),
        decreases RESHUFFLE_STEPS - step,
    {
        let shifts = shift_candidates(columns);
        if shifts.len() == 0 {
            proof {
                assert forall|from: int, to: int| !#[trigger] can_shift(
                    stacks_view(columns@),
                    from,
                    to,
                ) by {
                    if can_shift(stacks_view(columns@), from, to) {
                        assert(shifts@.contains((from as usize, to as usize)));
                    }
                }
            }
            break ;
        }
        let (from, to) = shifts[random_below(rng, shifts.len())];
        proof {
            lemma_shifts_extend(start, made, from, to);
            made = made.push((from, to));
        }
        move_top(columns, from, to);
        step += 1;
    }
}

/// Evens the columns out: for as long as a column is above the target
/// height, the top card of one such column, chosen at random, goes to a
/// column below the target height, chosen at random. It ends with every
/// column at the target height.
fn balance(columns: &mut Vec<Column>, rng: &mut fastrand::Rng)
    requires
        tableau(stacks_view(old(columns)@)).len() == DESIRED_STACK_HEIGHT * old(columns)@.len(),
    ensures
        final(columns)@.len() == old(columns)@.len(),
        tableau(stacks_view(final(columns)@)) == tableau(stacks_view(old(columns)@)),
        forall|i: int|
            0 <= i < final(columns)@.len() ==> (#[trigger] final(columns)@[i])@.len()
                == DESIRED_STACK_HEIGHT,
{
    loop
        invariant
            columns@.len() == old(columns)@.len(),
            tableau(stacks_view(columns@)) == tableau(stacks_view(old(columns)@)),
            tableau(stacks_view(columns@)).len() == DESIRED_STACK_HEIGHT * columns@.len(),
        ensures
            columns@.len() == old(columns)@.len(),
            tableau(stacks_view(columns@)) == tableau(stacks_view(old(columns)@)),
            forall|i: int|
                0 <= i < columns@.len() ==> (#[trigger] columns@[i])@.len() == DESIRED_STACK_HEIGHT,
        decreases excess(stacks_view(columns@)),
    {
        let ghost view = stacks_view(columns@);
        let tall = stacks_above(columns, DESIRED_STACK_HEIGHT);
        let short = stacks_below(columns, DESIRED_STACK_HEIGHT);
        proof {
            lemma_heights_balance(view);
            lemma_excess_bounds(view);
            lemma_deficit_bounds(view);
        }
        if tall.len() == 0 {
            proof {
                assert forall|i: int| 0 <= i < columns@.len() implies (#[trigger] columns@[i])@.len()
                    == DESIRED_STACK_HEIGHT by {
                    assert(view[i].len() <= DESIRED_STACK_HEIGHT);
                }
            }
            break ;
        }
        let from = tall[random_below(rng, tall.len())];
        proof {
            assert(excess(view) >= over(view[from as int].len() as int));
            if short@.len() == 0 {
                assert(false);
            }
        }
        let to = short[random_below(rng, short.len())];
        move_top(columns, from, to);
        proof {
            let lower = view[from as int].drop_last();
            let mid = view.update(from as int, lower);
            let higher = view[to as int].push(view[from as int].last());
            lemma_excess_update(view, from as int, lower);
            lemma_excess_update(mid, to as int, higher);
            lemma_excess_bounds(stacks_view(columns@));
        }
    }
}

/// Generate a board that's (probably) solvable by (mostly) "un-playing" a
/// solution.
///
/// A won game is read backwards: the cards come off the foundations and
/// are laid on ten columns, now and then a card moves between columns as a
/// player could move it back, and a last pass evens the columns out. The
/// generator is seeded by `seed` where one is given.
pub fn smartish_random(seed: Option<u64>) -> (board: Board)
    ensures
        board.wf(),
        board@.fresh_deal(),
{
    let mut rng = make_rng(seed);
    let mut sources = source_stacks(&mut rng);
    let mut columns: Vec<Column> = Vec::new();
    let mut idx: usize = 0;
    while idx < COLUMN_COUNT - 1
        invariant
            idx <= COLUMN_COUNT - 1,
            columns@.len() == idx,
            forall|i: int| 0 <= i < idx ==> (#[trigger] columns@[i])@.len() == 0,
        decreases COLUMN_COUNT - 1 - idx,
    {
        columns.push(Column::new());
        idx += 1;
    }
    proof {
        broadcast use {group_to_multiset_ensures, group_multiset_axioms};

        lemma_tableau_of_empty_columns(stacks_view(columns@));
    }
    unplay(&mut sources, &mut columns, &mut rng);
    reshuffle(&mut columns, &mut rng);
    proof {
        broadcast use {group_to_multiset_ensures, group_multiset_axioms};

        assert(tableau(stacks_view(columns@)) =~= dealing_deck().to_multiset());
    }
    balance(&mut columns, &mut rng);
    proof {
        let cut = stacks_view(columns@);
        lemma_dealing_cards_valid(cut);
        assert forall|i: int| 0 <= i < columns@.len() implies crate::rules::all_valid(
            #[trigger] columns@[i]@,
        ) by {
            assert(crate::rules::all_valid(cut[i]));
        }
        lemma_dealt_holds_deck(cut);
    }
    Board::deal(columns)
}

} // verus!
