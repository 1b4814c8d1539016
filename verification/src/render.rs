//! The board as text, for a terminal that shows it line by line.

use vstd::prelude::*;

use crate::board::Board;
use crate::cards::{decimal_string, decimal_text, Card, MinorSuit};
use crate::rules::{minor_run, BoardView, COLUMN_COUNT};

verus! {

/// `text` with blanks before it, as many as it takes to make it `width`
/// characters long; `text` itself if it is that long already.
pub open spec fn pad_left(text: Seq<char>, width: nat) -> Seq<char> {
    if text.len() >= width {
        text
    } else {
        Seq::new((width - text.len()) as nat, |i: int| ' ') + text
    }
}

/// The parts one after the other, with `sep` between each two.
pub open spec fn joined(parts: Seq<Seq<char>>, sep: Seq<char>) -> Seq<char>
    decreases parts.len(),
{
    if parts.len() == 0 {
        Seq::empty()
    } else if parts.len() == 1 {
        parts[0]
    } else {
        joined(parts.drop_last(), sep) + sep + parts.last()
    }
}

/// What each string of a row of strings holds.
pub open spec fn texts(strings: Seq<String>) -> Seq<Seq<char>> {
    Seq::new(strings.len(), |i: int| strings[i]@)
}

/// Whether rank `rank` of the major arcana lies on the foundation.
pub open spec fn major_placed(b: BoardView, rank: int) -> bool {
    ||| b.left_max is Some && rank <= b.left_max.unwrap()
    ||| b.right_min is Some && rank >= b.right_min.unwrap()
}

/// How rank `rank` of the major arcana is shown: its number in two
/// columns where it lies on the foundation, two dots where it does not.
pub open spec fn major_mark(b: BoardView, rank: int) -> Seq<char> {
    if major_placed(b, rank) {
        pad_left(decimal_text(rank as nat), 2)
    } else {
        seq!['.', '.']
    }
}

/// How a minor foundation is shown: its top card in three columns, or
/// three dots where it has none.
pub open spec fn minor_mark(b: BoardView, slot: int) -> Seq<char> {
    let run = minor_run(MinorSuit::spec_n(slot), b.minor_maxes[slot]);
    if run.len() > 0 {
        pad_left(run.last().text(), 3)
    } else {
        seq!['.', '.', '.']
    }
}

/// The cards of a column, each in three columns, with a blank between.
pub open spec fn cards_line(cards: Seq<Card>) -> Seq<char> {
    joined(Seq::new(cards.len(), |j: int| pad_left(cards[j].text(), 3)), seq![' '])
}

/// The line of column `idx`: its number in two columns, a dot, a blank and
/// its cards.
pub open spec fn column_line(b: BoardView, idx: int) -> Seq<char> {
    pad_left(decimal_text(idx as nat), 2) + seq!['.', ' '] + cards_line(b.columns[idx])
}

/// How the storage slot is shown: nothing where it is empty, else its card
/// between brackets.
pub open spec fn storage_mark(b: BoardView) -> Seq<char> {
    match b.storage {
        Some(card) => seq![' ', '-', '['] + card.text() + seq![']', '-'],
        None => Seq::empty(),
    }
}

/// The board as text. The first line shows the major foundation, rank by
/// rank; the second the minor foundations and what is in storage; then
/// comes one line for each column. Every line ends with a line feed.
pub open spec fn board_text(b: BoardView) -> Seq<char> {
    seq!['~', '{'] + joined(Seq::new(22, |rank: int| major_mark(b, rank)), seq![' ']) + seq![
        '}',
        '~',
        '\n',
    ] + seq!['['] + joined(Seq::new(4, |slot: int| minor_mark(b, slot)), seq![' ']) + seq![']']
        + storage_mark(b) + seq!['\n'] + joined(
        Seq::new(COLUMN_COUNT as nat, |idx: int| column_line(b, idx)),
        seq!['\n'],
    ) + seq!['\n']
}

/// `text` padded with blanks on the left to `width` characters.
pub fn padded(text: &str, width: usize) -> (r: String)
    ensures
        r@ == pad_left(text@, width as nat),
{
    let len = text.unicode_len();
    let mut r = String::new();
    if len < width {
        let mut i: usize = 0;
        while i < width - len
            invariant
                len < width,
                i <= width - len,
                r@ == Seq::new(i as nat, |k: int| ' '),
            decreases width - len - i,
        {
            proof {
                reveal_strlit(" ");
            }
            r.append(" ");
            i += 1;
        }
    }
    r.append(text);
    r
}

/// The strings one after the other, with `sep` between each two.
pub fn join(parts: &Vec<String>, sep: &str) -> (r: String)
    ensures
        r@ == joined(texts(parts@), sep@),
{
    let mut r = String::new();
    let mut i: usize = 0;
    while i < parts.len()
        invariant
            i <= parts@.len(),
            r@ == joined(texts(parts@).take(i as int), sep@),
        decreases parts@.len() - i,
    {
        let ghost sofar = texts(parts@).take(i as int);
        let ghost longer = texts(parts@).take(i + 1);
        if i > 0 {
            r.append(sep);
        }
        r.append(parts[i].as_str());
        proof {
            assert(longer.drop_last() =~= sofar);
        }
        i += 1;
    }
    assert(texts(parts@).take(i as int) =~= texts(parts@));
    r
}

fn major_line(board: &Board) -> (r: String)
    ensures
        r@ == joined(Seq::new(22, |rank: int| major_mark(board@, rank)), seq![' ']),
{
    let left = board.major_foundation_left_max();
    let right = board.major_foundation_right_min();
    let mut marks: Vec<String> = Vec::new();
    let mut idx: u8 = 0;
    while idx < 22
        invariant
            idx <= 22,
            left == board@.left_max,
            right == board@.right_min,
            texts(marks@) == Seq::new(idx as nat, |rank: int| major_mark(board@, rank)),
        decreases 22 - idx,
    {
        let has_left = match left {
            None => false,
            Some(lo) => idx <= lo,
        };
        let has_right = match right {
            None => false,
            Some(hi) => idx >= hi,
        };
        let mark = if has_left || has_right {
            padded(decimal_string(idx).as_str(), 2)
        } else {
            proof {
                reveal_strlit("..");
            }
            let dots = String::from_str("..");
            dots
        };
        assert(mark@ == major_mark(board@, idx as int));
        let ghost before = texts(marks@);
        marks.push(mark);
        assert(texts(marks@) =~= before.push(mark@));
        idx += 1;
    }
    proof {
        reveal_strlit(" ");
    }
    let r = join(&marks, " ");
    assert(" "@ =~= seq![' ']);
    r
}

fn minor_line(board: &Board) -> (r: String)
    ensures
        r@ == joined(Seq::new(4, |slot: int| minor_mark(board@, slot)), seq![' ']),
{
    let stacks = board.virtual_cards_minor_foundation();
    let mut marks: Vec<String> = Vec::new();
    let mut slot: usize = 0;
    while slot < 4
        invariant
            slot <= 4,
            forall|s: int|
                0 <= s < 4 ==> (#[trigger] stacks[s])@ == minor_run(
                    MinorSuit::spec_n(s),
                    board@.minor_maxes[s],
                ),
            texts(marks@) == Seq::new(slot as nat, |s: int| minor_mark(board@, s)),
        decreases 4 - slot,
    {
        let stack = &stacks[slot];
        let count = stack.len();
        let mark = if count > 0 {
            padded(stack[count - 1].to_string().as_str(), 3)
        } else {
            proof {
                reveal_strlit("...");
            }
            let dots = String::from_str("...");
            dots
        };
        assert(mark@ == minor_mark(board@, slot as int));
        let ghost before = texts(marks@);
        marks.push(mark);
        assert(texts(marks@) =~= before.push(mark@));
        slot += 1;
    }
    proof {
        reveal_strlit(" ");
    }
    let r = join(&marks, " ");
    assert(" "@ =~= seq![' ']);
    r
}

fn cards_row(cards: &Vec<Card>) -> (r: String)
    ensures
        r@ == cards_line(cards@),
{
    let mut parts: Vec<String> = Vec::new();
    let mut j: usize = 0;
    while j < cards.len()
        invariant
            j <= cards@.len(),
            texts(parts@) == Seq::new(j as nat, |k: int| pad_left(cards@[k].text(), 3)),
        decreases cards@.len() - j,
    {
        let part = padded(cards[j].to_string().as_str(), 3);
        let ghost before = texts(parts@);
        parts.push(part);
        assert(texts(parts@) =~= before.push(part@));
        j += 1;
    }
    proof {
        reveal_strlit(" ");
    }
    let r = join(&parts, " ");
    assert(" "@ =~= seq![' ']);
    r
}

fn columns_lines(board: &Board) -> (r: String)
    ensures
        r@ == joined(Seq::new(COLUMN_COUNT as nat, |idx: int| column_line(board@, idx)), seq!['\n']),
{
    let columns = board.columns();
    let mut lines: Vec<String> = Vec::new();
    let mut col_idx: usize = 0;
    while col_idx < COLUMN_COUNT
        invariant
            col_idx <= COLUMN_COUNT,
            board@.columns.len() == COLUMN_COUNT,
            forall|k: int| 0 <= k < COLUMN_COUNT ==> (#[trigger] columns[k])@ == board@.columns[k],
            texts(lines@) == Seq::new(col_idx as nat, |idx: int| column_line(board@, idx)),
        decreases COLUMN_COUNT - col_idx,
    {
        let row = cards_row(columns[col_idx].cards());
        let mut line = padded(decimal_string(col_idx as u8).as_str(), 2);
        line.append(". ");
        line.append(row.as_str());
        proof {
            reveal_strlit(". ");
            assert(line@ =~= column_line(board@, col_idx as int));
        }
        let ghost before = texts(lines@);
        lines.push(line);
        assert(texts(lines@) =~= before.push(line@));
        col_idx += 1;
    }
    proof {
        reveal_strlit("\n");
    }
    let r = join(&lines, "\n");
    assert("\n"@ =~= seq!['\n']);
    r
}

/// The board as text, ready to be printed.
pub fn print_board(board: &Board) -> (r: String)
    ensures
        r@ == board_text(board@),
{
    proof {
        reveal_strlit("~{");
        reveal_strlit("}~\n");
        reveal_strlit("[");
        reveal_strlit("]");
        reveal_strlit(" -[");
        reveal_strlit("]-");
        reveal_strlit("\n");
    }
    let maj = major_line(board);
    let minor_maxes = minor_line(board);
    let columns = columns_lines(board);
    let mut r = String::from_str("~{");
    r.append(maj.as_str());
    r.append("}~\n");
    r.append("[");
    r.append(minor_maxes.as_str());
    r.append("]");
    if let Some(store) = board.minor_foundation_storage() {
        r.append(" -[");
        r.append(store.to_string().as_str());
        r.append("]-");
    }
    r.append("\n");
    r.append(columns.as_str());
    r.append("\n");
    r
}

} // verus!
