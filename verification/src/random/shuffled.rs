//! The plain deal: a shuffled deck laid out in equal columns.

use vstd::multiset::group_multiset_axioms;
use vstd::prelude::*;
use vstd::seq_lib::group_to_multiset_ensures;

use crate::board::{stacks_view, Board, Column};
use crate::cards::{
    Card, MinorSuit, Suit, MAJOR_ARCANA_MAX, MAJOR_ARCANA_MIN, MINOR_ARCANA_MAX,
    MINOR_ARCANA_MIN,
};
use crate::deck::{
    dealing_deck, lemma_dealing_deck_valid, lemma_dealt_holds_deck, lemma_tableau_of_chunks,
};
use crate::random::make_rng;
use crate::rules::{all_valid, COLUMN_COUNT, DESIRED_STACK_HEIGHT};

verus! {

/// The deck that is dealt, in a fixed order: every card but the aces.
pub fn new_deck() -> (deck: Vec<Card>)
    ensures
        deck@ == dealing_deck(),
{
    let mut deck: Vec<Card> = Vec::new();
    // The aces are not dealt.
    let mut number: u8 = MINOR_ARCANA_MIN + 1;
    while number <= MINOR_ARCANA_MAX
        invariant
            2 <= number <= 14,
            deck@ == dealing_deck().take((number - 2) * 4),
        decreases 14 - number,
    {
        let mut suit_idx: u8 = 0;
        while suit_idx < 4
            invariant
                2 <= number <= 13,
                suit_idx <= 4,
                deck@ == dealing_deck().take((number - 2) * 4 + suit_idx),
            decreases 4 - suit_idx,
        {
            let suit = Suit::Minor(MinorSuit::n(suit_idx).unwrap());
            deck.push(Card::new(suit, number));
            suit_idx += 1;
        }
        number += 1;
    }
    let mut number: u8 = MAJOR_ARCANA_MIN;
    while number <= MAJOR_ARCANA_MAX
        invariant
            number <= 22,
            deck@ == dealing_deck().take(48 + number),
        decreases 22 - number,
    {
        deck.push(Card::new(Suit::MajorArcana, number));
        number += 1;
    }
    deck
}

/// Cuts a row of cards into ten stacks of equal height, in order.
pub fn cut_into_stacks(row: &Vec<Card>) -> (stacks: Vec<Column>)
    requires
        row@.len() == (COLUMN_COUNT - 1) * DESIRED_STACK_HEIGHT,
    ensures
        stacks_view(stacks@) == Seq::new(
            (COLUMN_COUNT - 1) as nat,
            |i: int| row@.subrange(i * DESIRED_STACK_HEIGHT, (i + 1) * DESIRED_STACK_HEIGHT),
        ),
{
    let mut stacks: Vec<Column> = Vec::new();
    let mut idx: usize = 0;
    while idx < COLUMN_COUNT - 1
        invariant
            idx <= COLUMN_COUNT - 1,
            row@.len() == (COLUMN_COUNT - 1) * DESIRED_STACK_HEIGHT,
            stacks@.len() == idx,
            forall|i: int|
                0 <= i < idx ==> (#[trigger] stacks@[i])@ == row@.subrange(
                    i * DESIRED_STACK_HEIGHT,
                    (i + 1) * DESIRED_STACK_HEIGHT,
                ),
        decreases COLUMN_COUNT - 1 - idx,
    {
        let mut column = Column::new();
        let base = idx * DESIRED_STACK_HEIGHT;
        let mut k: usize = 0;
        while k < DESIRED_STACK_HEIGHT
            invariant
                k <= DESIRED_STACK_HEIGHT,
                base == idx * DESIRED_STACK_HEIGHT,
                idx < COLUMN_COUNT - 1,
                row@.len() == (COLUMN_COUNT - 1) * DESIRED_STACK_HEIGHT,
                column@ == row@.subrange(base as int, base + k),
            decreases DESIRED_STACK_HEIGHT - k,
        {
            column.push(row[base + k].clone());
            k += 1;
        }
        stacks.push(column);
        idx += 1;
    }
    stacks
}

/// Generate a completely random board. Chances are, it's unsolvable.
///
/// The deck is shuffled, with the generator seeded by `seed` where one is
/// given, and dealt in stacks of equal height onto all columns but the
/// middle one.
pub fn shuffled_random(seed: Option<u64>) -> (board: Board)
    ensures
        board.wf(),
        board@.fresh_deal(),
{
    let mut rng = make_rng(seed);
    let mut all_the_cards = new_deck();
    rng.shuffle(all_the_cards.as_mut_slice());
    proof {
        broadcast use {group_to_multiset_ensures, group_multiset_axioms};

        assert(dealing_deck().len() == dealing_deck().to_multiset().len());
    }
    let stacks = cut_into_stacks(&all_the_cards);
    proof {
        broadcast use {group_to_multiset_ensures, group_multiset_axioms};

        let row = all_the_cards@;
        let cut = stacks_view(stacks@);
        lemma_tableau_of_chunks(row, 10);
        assert(row.take(70) =~= row);
        lemma_dealing_deck_valid();
        assert forall|c: Card| row.contains(c) implies c.valid() by {
            assert(row.to_multiset().count(c) > 0);
        }
        assert forall|i: int| 0 <= i < stacks@.len() implies all_valid(#[trigger] stacks@[i]@) by {
            assert forall|j: int| 0 <= j < cut[i].len() implies (#[trigger] cut[i][j]).valid() by {
                assert(cut[i][j] == row[i * 7 + j]);
                assert(row.contains(row[i * 7 + j]));
            }
        }
        lemma_dealt_holds_deck(cut);
    }
    Board::deal(stacks)
}

} // verus!
