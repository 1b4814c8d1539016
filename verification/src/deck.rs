//! The deck: which cards there are, and what it means for a board to hold
//! each of them exactly once.

use vstd::multiset::{group_multiset_axioms, Multiset};
use vstd::prelude::*;
use vstd::seq_lib::group_to_multiset_ensures;

use crate::cards::{Card, MinorSuit, Suit};
use crate::conservation::lemma_tableau_of_empty_columns;
use crate::rules::{
    all_valid, major_left_run, major_right_run, minor_run, spaced, stored, tableau, BoardView,
    COLUMN_COUNT, DESIRED_STACK_HEIGHT, SPARE_COLUMN,
};

verus! {

/// The whole deck: ranks 1 to 13 of the four minor suits and ranks 0 to 21
/// of the major arcana.
pub open spec fn full_deck() -> Multiset<Card> {
    minor_run(MinorSuit::Pentacles, Some(13u8)).to_multiset().add(
        minor_run(MinorSuit::Cups, Some(13u8)).to_multiset(),
    ).add(minor_run(MinorSuit::Swords, Some(13u8)).to_multiset()).add(
        minor_run(MinorSuit::Wands, Some(13u8)).to_multiset(),
    ).add(major_left_run(Some(21u8)).to_multiset())
}

impl BoardView {
    /// Deck conservation: the board is well formed and its columns, its
    /// storage slot and its foundations together account for every card of
    /// the deck exactly once.
    pub open spec fn holds_deck(self) -> bool {
        self.wf() && self.cards() == full_deck()
    }

    /// What every fresh deal looks like, whichever generator made it: it
    /// holds the deck, the middle column is empty and every other column
    /// has the same height, the aces lie on the minor foundations and
    /// nothing else has been placed.
    pub open spec fn fresh_deal(self) -> bool {
        &&& self.holds_deck()
        &&& forall|i: int|
            0 <= i < COLUMN_COUNT ==> (#[trigger] self.columns[i]).len() == if i == SPARE_COLUMN {
                0
            } else {
                DESIRED_STACK_HEIGHT as int
            }
        &&& self.storage is None
        &&& self.minor_maxes == Seq::new(4, |s: int| Some(1u8))
        &&& self.left_max is None
        &&& self.right_min is None
    }
}

/// A minor foundation stands for each rank of its suit up to its mark
/// once, and for no other card.
pub proof fn lemma_minor_run_count(suit: MinorSuit, max: Option<u8>, c: Card)
    ensures
        minor_run(suit, max).to_multiset().count(c) == if max matches Some(h) && c.suit
            == Suit::Minor(suit) && 1 <= c.number <= h {
            1nat
        } else {
            0nat
        },
{
    broadcast use {group_to_multiset_ensures, group_multiset_axioms};

    let run = minor_run(suit, max);
    run.lemma_multiset_has_no_duplicates();
    if max matches Some(h) && c.suit == Suit::Minor(suit) && 1 <= c.number <= h {
        assert(run[c.number - 1] == c);
    }
}

/// The left of the major foundation stands for each rank up to its mark
/// once, and for no other card.
pub proof fn lemma_major_left_count(left_max: Option<u8>, c: Card)
    ensures
        major_left_run(left_max).to_multiset().count(c) == if left_max matches Some(h) && c.suit
            == Suit::MajorArcana && c.number <= h {
            1nat
        } else {
            0nat
        },
{
    broadcast use {group_to_multiset_ensures, group_multiset_axioms};

    let run = major_left_run(left_max);
    run.lemma_multiset_has_no_duplicates();
    if left_max matches Some(h) && c.suit == Suit::MajorArcana && c.number <= h {
        assert(run[c.number as int] == c);
    }
}

/// The right of the major foundation stands for each rank from its mark
/// up to 21 once, and for no other card.
pub proof fn lemma_major_right_count(right_min: Option<u8>, c: Card)
    ensures
        major_right_run(right_min).to_multiset().count(c) == if right_min matches Some(l)
            && c.suit == Suit::MajorArcana && l <= c.number <= 21 {
            1nat
        } else {
            0nat
        },
{
    broadcast use {group_to_multiset_ensures, group_multiset_axioms};

    let run = major_right_run(right_min);
    run.lemma_multiset_has_no_duplicates();
    if right_min matches Some(l) && c.suit == Suit::MajorArcana && l <= c.number <= 21 {
        assert(run[21 - c.number] == c);
    }
}

/// The deck holds every valid card once and nothing else.
pub proof fn lemma_full_deck_count(c: Card)
    ensures
        full_deck().count(c) == if c.valid() {
            1nat
        } else {
            0nat
        },
{
    broadcast use group_multiset_axioms;

    lemma_minor_run_count(MinorSuit::Pentacles, Some(13u8), c);
    lemma_minor_run_count(MinorSuit::Cups, Some(13u8), c);
    lemma_minor_run_count(MinorSuit::Swords, Some(13u8), c);
    lemma_minor_run_count(MinorSuit::Wands, Some(13u8), c);
    lemma_major_left_count(Some(21u8), c);
}

/// The deck has 74 cards: four suits of 13 and the 22 major arcana.
pub proof fn lemma_full_deck_len()
    ensures
        full_deck().len() == 74,
{
    broadcast use {group_to_multiset_ensures, group_multiset_axioms};

}

/// How often a board accounts for a card: the sum over its zones.
pub proof fn lemma_cards_count(b: BoardView, c: Card)
    ensures
        b.cards().count(c) == tableau(b.columns).count(c) + stored(b.storage).count(
            c,
        ) + minor_run(MinorSuit::Pentacles, b.minor_maxes[0]).to_multiset().count(c) + minor_run(
            MinorSuit::Cups,
            b.minor_maxes[1],
        ).to_multiset().count(c) + minor_run(MinorSuit::Swords, b.minor_maxes[2]).to_multiset().count(
            c,
        ) + minor_run(MinorSuit::Wands, b.minor_maxes[3]).to_multiset().count(c) + major_left_run(
            b.left_max,
        ).to_multiset().count(c) + major_right_run(b.right_min).to_multiset().count(c),
{
    broadcast use group_multiset_axioms;

}

/// On a board that holds the deck, the two sides of the major foundation
/// never overlap: where both have a card, the left mark is below the right.
pub proof fn lemma_deck_orders_major_foundation(b: BoardView)
    requires
        b.holds_deck(),
    ensures
        b.left_max is Some && b.right_min is Some ==> b.left_max.unwrap() < b.right_min.unwrap(),
{
    if b.left_max is Some && b.right_min is Some {
        let l = b.left_max.unwrap();
        let r = b.right_min.unwrap();
        if l >= r {
            let c = Card { suit: Suit::MajorArcana, number: r };
            lemma_cards_count(b, c);
            lemma_major_left_count(b.left_max, c);
            lemma_major_right_count(b.right_min, c);
            lemma_full_deck_count(c);
            assert(false);
        }
    }
}

/// The two sides of a closed major foundation together stand for ranks 0
/// to 21 once each.
pub proof fn lemma_closed_major_is_whole(left_max: Option<u8>, right_min: Option<u8>)
    requires
        match (left_max, right_min) {
            (Some(l), Some(r)) => l + 1 == r && r <= 21,
            (Some(l), None) => l == 21,
            (None, Some(r)) => r == 0,
            (None, None) => false,
        },
    ensures
        major_left_run(left_max).to_multiset().add(major_right_run(right_min).to_multiset())
            == major_left_run(Some(21u8)).to_multiset(),
{
    broadcast use group_multiset_axioms;

    let both = major_left_run(left_max).to_multiset().add(major_right_run(right_min).to_multiset());
    let whole = major_left_run(Some(21u8)).to_multiset();
    assert forall|c: Card| both.count(c) == whole.count(c) by {
        lemma_major_left_count(left_max, c);
        lemma_major_right_count(right_min, c);
        lemma_major_left_count(Some(21u8), c);
    }
}

/// A won board holds the deck: all of it lies on the foundations.
pub proof fn lemma_solved_holds_deck(b: BoardView)
    requires
        b.wf(),
        b.solved(),
    ensures
        b.holds_deck(),
{
    broadcast use group_multiset_axioms;

    lemma_tableau_of_empty_columns(b.columns);
    lemma_closed_major_is_whole(b.left_max, b.right_min);
    assert(b.cards() =~= full_deck());
}

/// The cards that a deal lays on the columns, in the order in which the
/// deck is put together before it is shuffled: ranks 2 to 13 of the minor
/// suits, rank by rank and within a rank suit by suit, then the major
/// arcana from 0 to 21. The aces are left out: they start on the
/// foundations.
pub open spec fn dealing_deck() -> Seq<Card> {
    Seq::new(
        70,
        |k: int|
            if k < 48 {
                Card { suit: Suit::Minor(MinorSuit::spec_n(k % 4)), number: (k / 4 + 2) as u8 }
            } else {
                Card { suit: Suit::MajorArcana, number: (k - 48) as u8 }
            },
    )
}

/// The dealing deck holds every valid card but the aces once, and nothing
/// else.
pub proof fn lemma_dealing_deck_count(c: Card)
    ensures
        dealing_deck().to_multiset().count(c) == if c.valid() && !(c.suit is Minor && c.number
            == 1) {
            1nat
        } else {
            0nat
        },
{
    broadcast use {group_to_multiset_ensures, group_multiset_axioms};

    let deck = dealing_deck();
    deck.lemma_multiset_has_no_duplicates();
    if c.valid() && !(c.suit is Minor && c.number == 1) {
        match c.suit {
            Suit::Minor(m) => {
                let k = (c.number - 2) * 4 + m.spec_index();
                assert(deck[k] == c);
            },
            Suit::MajorArcana => {
                assert(deck[48 + c.number] == c);
            },
        }
    }
}

/// Every card of the dealing deck is valid.
pub proof fn lemma_dealing_deck_valid()
    ensures
        all_valid(dealing_deck()),
{
}

/// The cards on two rows of columns laid side by side are those of the one
/// row and those of the other.
pub proof fn lemma_tableau_concat(left: Seq<Seq<Card>>, right: Seq<Seq<Card>>)
    ensures
        tableau(left + right) == tableau(left).add(tableau(right)),
    decreases right.len(),
{
    broadcast use group_multiset_axioms;

    if right.len() > 0 {
        lemma_tableau_concat(left, right.drop_last());
        assert((left + right).drop_last() =~= left + right.drop_last());
    }
}

/// Spacing the stacks of a deal over the columns adds and loses no card.
pub proof fn lemma_spaced_keeps_cards(stacks: Seq<Seq<Card>>)
    requires
        stacks.len() == 10,
    ensures
        tableau(spaced(stacks)) == tableau(stacks),
{
    broadcast use {group_to_multiset_ensures, group_multiset_axioms};

    let gap = seq![Seq::<Card>::empty()];
    assert(spaced(stacks) =~= stacks.take(5) + gap + stacks.skip(5));
    assert(stacks =~= stacks.take(5) + stacks.skip(5));
    lemma_tableau_concat(stacks.take(5) + gap, stacks.skip(5));
    lemma_tableau_concat(stacks.take(5), gap);
    lemma_tableau_concat(stacks.take(5), stacks.skip(5));
    assert(tableau(gap) =~= Multiset::<Card>::empty()) by {
        lemma_tableau_of_empty_columns(gap);
    }
}

/// Cutting a row of cards into stacks of equal height keeps every card:
/// the first `n` stacks hold what the first `n` heights of the row held.
pub proof fn lemma_tableau_of_chunks(row: Seq<Card>, n: int)
    requires
        0 <= n,
        n * DESIRED_STACK_HEIGHT <= row.len(),
    ensures
        tableau(
            Seq::new(
                n as nat,
                |i: int|
                    row.subrange(i * DESIRED_STACK_HEIGHT, (i + 1) * DESIRED_STACK_HEIGHT),
            ),
        ) == row.take(n * DESIRED_STACK_HEIGHT).to_multiset(),
    decreases n,
{
    broadcast use {group_to_multiset_ensures, group_multiset_axioms};

    let chunks = Seq::new(
        n as nat,
        |i: int| row.subrange(i * DESIRED_STACK_HEIGHT, (i + 1) * DESIRED_STACK_HEIGHT),
    );
    if n > 0 {
        lemma_tableau_of_chunks(row, n - 1);
        let fewer = Seq::new(
            (n - 1) as nat,
            |i: int| row.subrange(i * DESIRED_STACK_HEIGHT, (i + 1) * DESIRED_STACK_HEIGHT),
        );
        assert(chunks.drop_last() =~= fewer);
        let low = (n - 1) * DESIRED_STACK_HEIGHT;
        let high = n * DESIRED_STACK_HEIGHT;
        assert(row.take(high) =~= row.take(low) + row.subrange(low, high));
        vstd::seq_lib::lemma_multiset_commutative(row.take(low), row.subrange(low, high));
    }
}

/// A deal holds the deck when its ten stacks hold the cards of the dealing
/// deck, whatever their order.
pub proof fn lemma_dealt_holds_deck(stacks: Seq<Seq<Card>>)
    requires
        stacks.len() == 10,
        forall|i: int| 0 <= i < 10 ==> all_valid(#[trigger] stacks[i]),
        tableau(stacks) == dealing_deck().to_multiset(),
    ensures
        BoardView::dealt(stacks).holds_deck(),
{
    broadcast use {group_to_multiset_ensures, group_multiset_axioms};

    let b = BoardView::dealt(stacks);
    lemma_spaced_keeps_cards(stacks);
    assert forall|c: Card| b.cards().count(c) == full_deck().count(c) by {
        lemma_cards_count(b, c);
        lemma_dealing_deck_count(c);
        lemma_full_deck_count(c);
        lemma_minor_run_count(MinorSuit::Pentacles, Some(1u8), c);
        lemma_minor_run_count(MinorSuit::Cups, Some(1u8), c);
        lemma_minor_run_count(MinorSuit::Swords, Some(1u8), c);
        lemma_minor_run_count(MinorSuit::Wands, Some(1u8), c);
        lemma_major_left_count(None, c);
        lemma_major_right_count(None, c);
    }
    assert(b.cards() =~= full_deck());
}

/// Ranks 2 to 13 of one suit, lowest first: the minor cards of a suit that
/// are dealt.
pub open spec fn minor_pips(suit: MinorSuit) -> Seq<Card> {
    Seq::new(12, |k: int| (Card { suit: Suit::Minor(suit), number: (k + 2) as u8 }))
}

/// The pips of a suit hold each of its ranks from 2 to 13 once, and no
/// other card.
pub proof fn lemma_minor_pips_count(suit: MinorSuit, c: Card)
    ensures
        minor_pips(suit).to_multiset().count(c) == if c.suit == Suit::Minor(suit) && 2 <= c.number
            <= 13 {
            1nat
        } else {
            0nat
        },
{
    broadcast use {group_to_multiset_ensures, group_multiset_axioms};

    let run = minor_pips(suit);
    run.lemma_multiset_has_no_duplicates();
    if c.suit == Suit::Minor(suit) && 2 <= c.number <= 13 {
        assert(run[c.number - 2] == c);
    }
}

/// The right mark of a won board whose major foundation meets after
/// `split`.
pub open spec fn right_of_split(split: u8) -> Option<u8> {
    if split < 21 {
        Some((split + 1) as u8)
    } else {
        None
    }
}

/// The major arcana, split anywhere into a left and a right run, and the
/// pips of the four suits are together the cards that are dealt.
pub proof fn lemma_split_deck_is_dealing_deck(split: u8)
    requires
        split <= 21,
    ensures
        major_left_run(Some(split)).to_multiset().add(
            major_right_run(right_of_split(split)).to_multiset(),
        ).add(minor_pips(MinorSuit::Pentacles).to_multiset()).add(
            minor_pips(MinorSuit::Cups).to_multiset(),
        ).add(minor_pips(MinorSuit::Swords).to_multiset()).add(
            minor_pips(MinorSuit::Wands).to_multiset(),
        ) == dealing_deck().to_multiset(),
{
    broadcast use group_multiset_axioms;

    let parts = major_left_run(Some(split)).to_multiset().add(
        major_right_run(right_of_split(split)).to_multiset(),
    ).add(minor_pips(MinorSuit::Pentacles).to_multiset()).add(
        minor_pips(MinorSuit::Cups).to_multiset(),
    ).add(minor_pips(MinorSuit::Swords).to_multiset()).add(
        minor_pips(MinorSuit::Wands).to_multiset(),
    );
    assert forall|c: Card| parts.count(c) == dealing_deck().to_multiset().count(c) by {
        lemma_major_left_count(Some(split), c);
        lemma_major_right_count(right_of_split(split), c);
        lemma_minor_pips_count(MinorSuit::Pentacles, c);
        lemma_minor_pips_count(MinorSuit::Cups, c);
        lemma_minor_pips_count(MinorSuit::Swords, c);
        lemma_minor_pips_count(MinorSuit::Wands, c);
        lemma_dealing_deck_count(c);
    }
}

/// Stacks that hold the cards of the dealing deck hold valid cards only.
pub proof fn lemma_dealing_cards_valid(stacks: Seq<Seq<Card>>)
    requires
        tableau(stacks) == dealing_deck().to_multiset(),
    ensures
        forall|i: int| 0 <= i < stacks.len() ==> all_valid(#[trigger] stacks[i]),
{
    assert forall|i: int| 0 <= i < stacks.len() implies all_valid(#[trigger] stacks[i]) by {
        assert forall|j: int| 0 <= j < stacks[i].len() implies (#[trigger] stacks[i][j]).valid() by {
            crate::conservation::lemma_tableau_has(stacks, i, j);
            lemma_dealing_deck_count(stacks[i][j]);
        }
    }
}

/// A board that holds the deck and has no card left in play is won: with
/// nothing on the columns and nothing in storage, every card lies on a
/// foundation.
pub proof fn lemma_deck_out_of_play_is_solved(b: BoardView)
    requires
        b.holds_deck(),
        forall|i: int| 0 <= i < b.columns.len() ==> (#[trigger] b.columns[i]).len() == 0,
        b.storage is None,
    ensures
        b.solved(),
{
    broadcast use group_multiset_axioms;

    lemma_tableau_of_empty_columns(b.columns);
    assert forall|s: int| 0 <= s < 4 implies (#[trigger] b.minor_maxes[s]) == Some(13u8) by {
        let king = Card { suit: Suit::Minor(MinorSuit::spec_n(s)), number: 13 };
        lemma_cards_count(b, king);
        lemma_full_deck_count(king);
        lemma_minor_run_count(MinorSuit::Pentacles, b.minor_maxes[0], king);
        lemma_minor_run_count(MinorSuit::Cups, b.minor_maxes[1], king);
        lemma_minor_run_count(MinorSuit::Swords, b.minor_maxes[2], king);
        lemma_minor_run_count(MinorSuit::Wands, b.minor_maxes[3], king);
        lemma_major_left_count(b.left_max, king);
        lemma_major_right_count(b.right_min, king);
    }
    lemma_deck_orders_major_foundation(b);
    assert(b.major_closed()) by {
        let first = Card { suit: Suit::MajorArcana, number: 0 };
        let last = Card { suit: Suit::MajorArcana, number: 21 };
        lemma_major_counts(b, first);
        lemma_major_counts(b, last);
        if b.left_max is Some && b.left_max.unwrap() < 21 {
            let next = Card { suit: Suit::MajorArcana, number: (b.left_max.unwrap() + 1) as u8 };
            lemma_major_counts(b, next);
        }
    }
}

/// On a board that holds the deck and has no card in play, each of the
/// major arcana lies on exactly one side of the major foundation.
proof fn lemma_major_counts(b: BoardView, c: Card)
    requires
        b.holds_deck(),
        forall|i: int| 0 <= i < b.columns.len() ==> (#[trigger] b.columns[i]).len() == 0,
        b.storage is None,
        c.suit == Suit::MajorArcana,
        c.number <= 21,
    ensures
        major_left_run(b.left_max).to_multiset().count(c) + major_right_run(
            b.right_min,
        ).to_multiset().count(c) == 1,
        major_left_run(b.left_max).to_multiset().count(c) == if b.left_max is Some && c.number
            <= b.left_max.unwrap() {
            1nat
        } else {
            0nat
        },
        major_right_run(b.right_min).to_multiset().count(c) == if b.right_min is Some
            && b.right_min.unwrap() <= c.number {
            1nat
        } else {
            0nat
        },
{
    broadcast use group_multiset_axioms;

    lemma_tableau_of_empty_columns(b.columns);
    lemma_cards_count(b, c);
    lemma_full_deck_count(c);
    lemma_minor_run_count(MinorSuit::Pentacles, b.minor_maxes[0], c);
    lemma_minor_run_count(MinorSuit::Cups, b.minor_maxes[1], c);
    lemma_minor_run_count(MinorSuit::Swords, b.minor_maxes[2], c);
    lemma_minor_run_count(MinorSuit::Wands, b.minor_maxes[3], c);
    lemma_major_left_count(b.left_max, c);
    lemma_major_right_count(b.right_min, c);
}

} // verus!
