//! A backtracking search for a way to win a given board.
//!
//! The search is iterative: it keeps a stack of frames, each a board and
//! the move that is being tried from it, and it remembers every board it
//! has gone down into, so that none is searched twice. One call of
//! [`Solver::take_step`] does one unit of work, so that a caller can stop
//! the search whenever it likes; [`try_solve`] runs it to the end.

use ahash::AHashSet;
use vstd::prelude::*;
use vstd::set_lib::lemma_len_subset;

use crate::board::Board;
use crate::cards::Card;
use crate::cascade::lemma_settle;
use crate::conservation::lemma_move_keeps_cards;
use crate::fingerprint::{fingerprint, key_of, lemma_key_len, HEADER_LEN};
use crate::laws::lemma_solved_is_settled;
use crate::rules::{BoardView, BoardZone, COLUMN_COUNT};
use crate::search::{
    lemma_exhausted_search_means_unwinnable, lemma_search_advances, lemma_search_backtracks,
    lemma_search_begins, lemma_search_descends, search_inv, searched_moves,
};
use crate::seen::{keys_upto, lemma_keys_upto_finite, seen_insert, seen_keys, seen_new};
use crate::zones::{successor, zone_at, zone_index, ZonesIter, ZONE_COUNT};

verus! {

impl BoardView {
    /// One step of the search: the move with its whole run, then the
    /// automatic cascade; `None` if the move is refused.
    #[verifier::opaque]
    pub open spec fn step(self, src: BoardZone, dst: BoardZone) -> Option<BoardView> {
        match self.move_outcome(src, dst, true) {
            Ok(moved) => Some(moved.settle()),
            Err(_) => None,
        }
    }

    /// The board that a list of steps leads to from this one, or `None` if
    /// one of the moves is refused on the way.
    pub open spec fn play(self, moves: Seq<(BoardZone, BoardZone)>) -> Option<BoardView>
        decreases moves.len(),
    {
        if moves.len() == 0 {
            Some(self)
        } else {
            match self.step(moves[0].0, moves[0].1) {
                Some(next) => next.play(moves.skip(1)),
                None => None,
            }
        }
    }

    /// The cards that can be taken: the one in storage, then the top card
    /// of each column. Defined where storage and every column have a card.
    pub open spec fn exposed(self) -> Seq<Card> {
        Seq::new(
            (COLUMN_COUNT + 1) as nat,
            |k: int|
                if k == 0 {
                    self.storage.unwrap()
                } else {
                    self.columns[k - 1].last()
                },
        )
    }

    /// The test by which the search gives a board up without looking
    /// further: storage is taken, no column is empty, and each of the cards
    /// that can be taken stacks with each of the others.
    pub open spec fn dead(self) -> bool {
        &&& self.storage is Some
        &&& forall|i: int| 0 <= i < COLUMN_COUNT ==> (#[trigger] self.columns[i]).len() > 0
        &&& forall|l: int, r: int|
            0 <= r < l <= COLUMN_COUNT ==> (#[trigger] self.exposed()[l]).stacks_with(
                #[trigger] self.exposed()[r],
            )
    }
}

/// No board passes the test `dead`: of three cards, not each can stack with
/// both of the others, since their ranks would have to differ by one three
/// times over. So the test never makes the search give up a board that
/// could still be won.
pub proof fn lemma_no_board_is_dead(b: BoardView)
    ensures
        !b.dead(),
{
    if b.dead() {
        let x = b.exposed()[0];
        let y = b.exposed()[1];
        let z = b.exposed()[2];
        assert(y.stacks_with(x));
        assert(z.stacks_with(x));
        assert(z.stacks_with(y));
        assert(false);
    }
}

/// Whether the search gives `board` up without looking further; see
/// [`BoardView::dead`].
pub fn board_is_dead(board: &Board) -> (r: bool)
    ensures
        r == board@.dead(),
{
    let mut availables: Vec<Card> = Vec::new();
    match board.minor_foundation_storage() {
        Some(card) => availables.push(card.clone()),
        // With storage free there is always somewhere to put a card.
        None => {
            return false;
        },
    }
    let columns = board.columns();
    let mut i: usize = 0;
    while i < COLUMN_COUNT
        invariant
            i <= COLUMN_COUNT,
            board@.storage is Some,
            forall|k: int| 0 <= k < COLUMN_COUNT ==> (#[trigger] columns[k])@ == board@.columns[k],
            availables@.len() == i + 1,
            forall|k: int| 0 <= k < i ==> (#[trigger] board@.columns[k]).len() > 0,
            forall|k: int| 0 <= k <= i ==> availables@[k] == #[trigger] board@.exposed()[k],
        decreases COLUMN_COUNT - i,
    {
        match columns[i].last() {
            Some(it) => availables.push(it.clone()),
            None => {
                return false;
            },
        }
        i += 1;
    }
    // Every pair once: `maj` runs over the cards, `min` over those before it.
    let mut maj: usize = 0;
    while maj < availables.len()
        invariant
            maj <= availables@.len(),
            availables@ == board@.exposed(),
            board@.storage is Some,
            forall|k: int| 0 <= k < COLUMN_COUNT ==> (#[trigger] board@.columns[k]).len() > 0,
            forall|l: int, r: int|
                0 <= r < l < maj ==> (#[trigger] board@.exposed()[l]).stacks_with(
                    #[trigger] board@.exposed()[r],
                ),
        decreases availables@.len() - maj,
    {
        let mut min: usize = 0;
        while min < maj
            invariant
                min <= maj < availables@.len(),
                availables@ == board@.exposed(),
                board@.storage is Some,
                forall|k: int| 0 <= k < COLUMN_COUNT ==> (#[trigger] board@.columns[k]).len() > 0,
                forall|l: int, r: int|
                    0 <= r < l < maj ==> (#[trigger] board@.exposed()[l]).stacks_with(
                        #[trigger] board@.exposed()[r],
                    ),
                forall|r: int|
                    0 <= r < min ==> board@.exposed()[maj as int].stacks_with(
                        #[trigger] board@.exposed()[r],
                    ),
            decreases maj - min,
        {
            if !availables[maj].can_stack(&availables[min]) {
                return false;
            }
            min += 1;
        }
        maj += 1;
    }
    true
}

/// One frame of the search: a board, and the move that is being tried from
/// it.
#[derive(Debug)]
pub struct Step {
    pub state: Board,
    pub trying_zones: ZonesIter,
}

impl Step {
    /// The frame stands on a well-formed board and on a move to try.
    pub open spec fn wf(self) -> bool {
        self.state.wf() && self.trying_zones.live()
    }

    /// The move that is being tried.
    pub open spec fn pair(self) -> (BoardZone, BoardZone) {
        (self.trying_zones.src, self.trying_zones.dst)
    }

    /// How much of the frame is left to do: one for each pair from the one
    /// it stands on, and one for taking the frame away.
    pub open spec fn weight(self) -> int {
        ZONE_COUNT * ZONE_COUNT + 1 - self.trying_zones.position()
    }

    /// The frame for `board`, with the first move to try.
    pub fn new(board: Board) -> (r: Self)
        ensures
            r.state == board,
            r.trying_zones.src == BoardZone::Column(1),
            r.trying_zones.dst == BoardZone::Column(0),
            !r.trying_zones.finished,
    {
        Self { state: board, trying_zones: ZonesIter::new() }
    }
}

/// What the frames of a stack have left to do, together.
pub open spec fn pending(steps: Seq<Step>) -> int
    decreases steps.len(),
{
    if steps.len() == 0 {
        0
    } else {
        pending(steps.drop_last()) + steps.last().weight()
    }
}

/// The longest that the bytes of a board can be which the search reaches
/// from `root`: no move brings a card back into play.
pub open spec fn key_bound(root: BoardView) -> nat {
    (HEADER_LEN + COLUMN_COUNT + root.in_play()) as nat
}

/// How many boards the search from `root` can still go down into, at most:
/// the byte strings that might be a board's bytes and are not in `seen`.
pub open spec fn unseen(root: BoardView, seen: Set<Seq<u8>>) -> int {
    keys_upto(key_bound(root)).len() - seen.len()
}

/// Frames that are well formed have something left to do, each of them.
pub proof fn lemma_pending_bounds(steps: Seq<Step>)
    requires
        forall|k: int| 0 <= k < steps.len() ==> (#[trigger] steps[k]).wf(),
    ensures
        pending(steps) >= steps.len(),
    decreases steps.len(),
{
    if steps.len() > 0 {
        let rest = steps.drop_last();
        lemma_pending_bounds(rest);
    }
}

/// Boards of which each is reached from the one before by the step with
/// the same number, and `end` from the last: the steps played from the
/// first board lead to `end`.
pub proof fn lemma_chain_plays(
    states: Seq<BoardView>,
    moves: Seq<(BoardZone, BoardZone)>,
    end: BoardView,
)
    requires
        states.len() == moves.len(),
        states.len() > 0,
        forall|k: int|
            0 <= k < states.len() - 1 ==> (#[trigger] states[k]).step(moves[k].0, moves[k].1)
                == Some(states[k + 1]),
        states.last().step(moves.last().0, moves.last().1) == Some(end),
    ensures
        states[0].play(moves) == Some(end),
    decreases states.len(),
{
    if states.len() == 1 {
        assert(end.play(moves.skip(1)) == Some(end));
    } else {
        let later = states.skip(1);
        let rest = moves.skip(1);
        lemma_chain_plays(later, rest, end);
    }
}

/// Frames that hang together: each is well formed, each but the first is
/// reached from the one before by the step that that one stands on, and
/// none has more cards in play than the first.
pub open spec fn frames_wf(steps: Seq<Step>) -> bool {
    &&& forall|k: int| 0 <= k < steps.len() ==> (#[trigger] steps[k]).wf()
    &&& forall|k: int|
        0 <= k < steps.len() - 1 ==> (#[trigger] steps[k]).state@.step(
            steps[k].pair().0,
            steps[k].pair().1,
        ) == Some(steps[k + 1].state@)
    &&& forall|k: int|
        0 <= k < steps.len() ==> (#[trigger] steps[k]).state@.in_play() <= steps[0].state@.in_play()
}

/// A frame for the board that the last frame's move leads to hangs
/// together with the frames before it, and adds its own work to theirs.
pub proof fn lemma_frames_push(steps: Seq<Step>, child: Step)
    requires
        steps.len() > 0,
        frames_wf(steps),
        child.wf(),
        steps.last().state@.step(steps.last().pair().0, steps.last().pair().1) == Some(
            child.state@,
        ),
        child.state@.in_play() <= steps[0].state@.in_play(),
    ensures
        frames_wf(steps.push(child)),
        pending(steps.push(child)) == pending(steps) + child.weight(),
{
    let longer = steps.push(child);
    assert(longer.drop_last() =~= steps);
}

/// Without their last frame, frames still hang together, and have that
/// frame's work less to do.
pub proof fn lemma_frames_pop(steps: Seq<Step>)
    requires
        steps.len() > 0,
        frames_wf(steps),
    ensures
        frames_wf(steps.drop_last()),
        pending(steps.drop_last()) == pending(steps) - steps.last().weight(),
        steps.last().weight() >= 1,
{
}

/// When the last frame goes on to a later move, the frames still hang
/// together, and have less to do.
pub proof fn lemma_frames_advance(steps: Seq<Step>, moved: Step)
    requires
        steps.len() > 0,
        frames_wf(steps),
        moved.state == steps.last().state,
        moved.wf(),
        moved.trying_zones.position() > steps.last().trying_zones.position(),
    ensures
        frames_wf(steps.update(steps.len() - 1, moved)),
        pending(steps.update(steps.len() - 1, moved)) < pending(steps),
{
    let after = steps.update(steps.len() - 1, moved);
    assert(after.drop_last() =~= steps.drop_last());
}

/// Tries one step from `state`: the move with its whole run on a copy of
/// the board, and the automatic cascade after it. Returns the board that
/// the step leads to, or `None` if the move is refused.
pub fn try_move(state: &Board, src: BoardZone, dst: BoardZone) -> (r: Option<Board>)
    requires
        state.wf(),
        src.in_bounds(),
        dst.in_bounds(),
    ensures
        match state@.step(src, dst) {
            Some(next) => r is Some && r.unwrap()@ == next && r.unwrap().wf() && next.in_play()
                <= state@.in_play(),
            None => r is None,
        },
{
    reveal(BoardView::step);
    let mut board2 = state.clone();
    let move_res = board2.move_card(src, dst, true);
    match move_res {
        Ok(()) => {
            // The move was legal.
            proof {
                lemma_move_keeps_cards(state@, src, dst, true);
                lemma_settle(board2@);
            }
            board2.check_automove_cards();
            Some(board2)
        },
        Err(_) => None,
    }
}

/// What holds of a search from `root` that remembers `seen` and has the
/// frames `steps`: the frames hang together and begin with `root`; what is
/// remembered are finitely many byte strings, none longer than the bytes of
/// a board that can be reached; and the search has looked everywhere it
/// says it has.
pub open spec fn solver_inv(root: BoardView, seen: Set<Seq<u8>>, steps: Seq<Step>) -> bool {
    &&& frames_wf(steps)
    &&& steps.len() > 0 ==> steps[0].state@ == root
    &&& seen.finite()
    &&& seen.subset_of(keys_upto(key_bound(root)))
    &&& search_inv(root, seen, steps)
}

/// The state of a search.
pub struct Solver {
    /// The bytes of every board that the search has gone down into.
    pub seen_states: AHashSet<Vec<u8>>,
    /// The frames from the board that the search began with down to the
    /// one it is at.
    pub steps: Vec<Step>,
}

impl Solver {
    /// The board that the search began with.
    pub open spec fn root(self) -> BoardView {
        self.steps@[0].state@
    }

    /// The moves that lead from the first board to the one being tried:
    /// the move that each frame stands on.
    pub open spec fn trail(self) -> Seq<(BoardZone, BoardZone)> {
        Seq::new(self.steps@.len(), |k: int| self.steps@[k].pair())
    }

    /// The boards of the frames, first to last.
    pub open spec fn states(self) -> Seq<BoardView> {
        Seq::new(self.steps@.len(), |k: int| self.steps@[k].state@)
    }

    /// A search that is under way: it has frames, and `solver_inv` holds
    /// of it.
    pub open spec fn wf(self) -> bool {
        &&& self.steps@.len() > 0
        &&& solver_inv(self.root(), seen_keys(self.seen_states), self.steps@)
    }

    /// A search that begins with `board` and has seen nothing yet. The
    /// board is one that is not won: a won board needs no search.
    pub fn new(board: Board) -> (r: Solver)
        requires
            board.wf(),
            !board@.solved(),
        ensures
            r.wf(),
            r.root() == board@,
            r.steps@.len() == 1,
            seen_keys(r.seen_states) == Set::<Seq<u8>>::empty(),
    {
        let mut steps: Vec<Step> = Vec::new();
        let first = Step::new(board);
        proof {
            lemma_search_begins(board@, first);
        }
        steps.push(first);
        Solver { seen_states: seen_new(), steps }
    }

    /// Whether the search has run out of moves to try.
    pub fn is_exhausted(&self) -> (r: bool)
        ensures
            r == (self.steps@.len() == 0),
    {
        self.steps.len() == 0
    }

    /// The moves that lead from the first board to the one being tried.
    pub fn solution(&self) -> (moves: Vec<(BoardZone, BoardZone)>)
        ensures
            moves@ == self.trail(),
    {
        let mut moves: Vec<(BoardZone, BoardZone)> = Vec::new();
        let mut k: usize = 0;
        while k < self.steps.len()
            invariant
                k <= self.steps@.len(),
                moves@ == self.trail().take(k as int),
            decreases self.steps@.len() - k,
        {
            moves.push((self.steps[k].trying_zones.src, self.steps[k].trying_zones.dst));
            k += 1;
        }
        moves
    }

    /// One unit of the search: tries the move that the last frame stands
    /// on, on a copy of its board, and runs the automatic cascade after it.
    ///
    /// If that wins the game, the result is `true` and the frames stay as
    /// they are, so that their moves are the way to win. If it leads to a
    /// board that is not dead and has not been seen, the board is
    /// remembered and gets a frame of its own. Otherwise the last frame
    /// goes on to its next move, and is taken away if it has none.
    ///
    /// Every call that does not win either remembers a new board or leaves
    /// the frames with less to do, so a search comes to an end.
    pub fn take_step(&mut self) -> (success: bool)
        requires
            old(self).wf(),
        ensures
            ({
                let top = old(self).steps@.last();
                let child = top.state@.step(top.pair().0, top.pair().1);
                let seen = seen_keys(old(self).seen_states);
                let looked_at = child is Some && !child.unwrap().dead();
                let goes_down = looked_at && !seen.contains(key_of(child.unwrap()));
                let following = successor(
                    zone_index(top.trying_zones.src),
                    zone_index(top.trying_zones.dst),
                );
                &&& seen_keys(final(self).seen_states) == if looked_at {
                    seen.insert(key_of(child.unwrap()))
                } else {
                    seen
                }
                &&& success == (goes_down && child.unwrap().solved())
                &&& goes_down && !success ==> {
                    &&& final(self).steps@.len() == old(self).steps@.len() + 1
                    &&& final(self).steps@.drop_last() == old(self).steps@
                    &&& final(self).steps@.last().state@ == child.unwrap()
                    &&& final(self).steps@.last().trying_zones == (ZonesIter {
                        src: BoardZone::Column(1),
                        dst: BoardZone::Column(0),
                        finished: false,
                    })
                }
                &&& !goes_down && following.1 < ZONE_COUNT ==> final(self).steps@ == old(
                    self,
                ).steps@.update(
                    old(self).steps@.len() - 1,
                    Step {
                        state: top.state,
                        trying_zones: ZonesIter {
                            src: zone_at(following.0),
                            dst: zone_at(following.1),
                            finished: false,
                        },
                    },
                )
                &&& !goes_down && following.1 >= ZONE_COUNT ==> final(self).steps@ == old(
                    self,
                ).steps@.drop_last()
            }),
            success ==> {
                &&& final(self).steps == old(self).steps
                &&& searched_moves(old(self).trail())
                &&& old(self).root().play(old(self).trail()) is Some
                &&& old(self).root().play(old(self).trail()).unwrap().solved()
            },
            !success ==> {
                &&& solver_inv(
                    old(self).root(),
                    seen_keys(final(self).seen_states),
                    final(self).steps@,
                )
                &&& 0 <= unseen(old(self).root(), seen_keys(final(self).seen_states))
                &&& 0 <= pending(final(self).steps@)
                &&& {
                    ||| unseen(old(self).root(), seen_keys(final(self).seen_states)) < unseen(
                        old(self).root(),
                        seen_keys(old(self).seen_states),
                    )
                    ||| {
                        &&& seen_keys(final(self).seen_states) == seen_keys(old(self).seen_states)
                        &&& pending(final(self).steps@) < pending(old(self).steps@)
                    }
                }
            },
    {
        let ghost root = self.root();
        let ghost before = self.steps@;
        let ghost seen_before = seen_keys(self.seen_states);
        let depth = self.steps.len();
        let top = depth - 1;
        proof {
            lemma_keys_upto_finite(key_bound(root));
            lemma_len_subset(seen_before, keys_upto(key_bound(root)));
            lemma_pending_bounds(before);
        }

        let src = self.steps[top].trying_zones.src;
        let dst = self.steps[top].trying_zones.dst;
        let next_step = match try_move(&self.steps[top].state, src, dst) {
            Some(board2) => {
                if board_is_dead(&board2) {
                    proof {
                        lemma_no_board_is_dead(board2@);
                    }
                    None
                } else {
                    let key = fingerprint(&board2);
                    proof {
                        lemma_key_len(board2@);
                    }
                    let fresh = seen_insert(&mut self.seen_states, key);
                    proof {
                        let seen_after = seen_keys(self.seen_states);
                        lemma_len_subset(seen_after, keys_upto(key_bound(root)));
                    }
                    if !fresh {
                        None
                    } else {
                        if board2.is_solved() {
                            proof {
                                lemma_chain_plays(self.states(), self.trail(), board2@);
                            }
                            return true;
                        }
                        let frame = Step::new(board2);
                        proof {
                            lemma_search_descends(root, seen_before, before, frame);
                        }
                        Some(frame)
                    }
                }
            },
            None => None,
        };

        if let Some(next_step) = next_step {
            proof {
                lemma_frames_push(before, next_step);
            }
            self.steps.push(next_step);
        } else {
            proof {
                assert(seen_keys(self.seen_states) == seen_before);
            }
            // The move led nowhere new: go on to the next one.
            let advanced = self.steps[top].trying_zones.next();
            proof {
                lemma_frames_pop(before);
                if advanced is Some {
                    lemma_frames_advance(before, self.steps@[top as int]);
                    lemma_search_advances(root, seen_before, before, self.steps@[top as int]);
                } else {
                    lemma_search_backtracks(root, seen_before, before);
                }
            }
            if advanced.is_none() {
                // Every move from this board has been tried.
                self.steps.pop();
                proof {
                    assert(self.steps@ =~= before.drop_last());
                }
            }
        }
        proof {
            lemma_pending_bounds(self.steps@);
        }
        false
    }
}

/// Looks for a way to win `board`. The automatic cascade runs first; if
/// that wins the game, the answer is the empty list of moves. Otherwise
/// the search tries moves between the columns and the storage slot, each
/// with its whole run and followed by the automatic cascade, and goes back
/// when a board has no move left that leads to a board it has not seen.
///
/// The answer, if there is one, wins the game: its moves, played in order
/// from the board that the cascade leaves, each followed by the cascade,
/// are all legal and end on a won board. There is an answer whenever such
/// moves exist: `None` says that the game cannot be won by them.
pub fn try_solve(board: &Board) -> (r: Option<Vec<(BoardZone, BoardZone)>>)
    requires
        board.wf(),
    ensures
        r is Some <==> board@.settle().winnable(),
        board@.solved() ==> r is Some && r.unwrap()@.len() == 0,
        r is Some ==> {
            &&& searched_moves(r.unwrap()@)
            &&& board@.settle().play(r.unwrap()@) is Some
            &&& board@.settle().play(r.unwrap()@).unwrap().solved()
            &&& r.unwrap()@.len() == 0 <==> board@.settle().solved()
        },
{
    proof {
        if board@.solved() {
            lemma_solved_is_settled(board@);
        }
    }
    let mut board2 = board.clone();
    board2.check_automove_cards();
    let ghost root = board2@;
    if board2.is_solved() {
        return Some(Vec::new());
    }
    let mut solver = Solver::new(board2);
    proof {
        lemma_keys_upto_finite(key_bound(root));
        lemma_pending_bounds(solver.steps@);
    }
    while !solver.is_exhausted()
        invariant
            root == board@.settle(),
            !root.solved(),
            !board@.solved(),
            solver_inv(root, seen_keys(solver.seen_states), solver.steps@),
            0 <= unseen(root, seen_keys(solver.seen_states)),
            0 <= pending(solver.steps@),
        decreases unseen(root, seen_keys(solver.seen_states)), pending(solver.steps@),
    {
        let success = solver.take_step();
        if success {
            let solution = solver.solution();
            return Some(solution);
        }
    }
    proof {
        lemma_exhausted_search_means_unwinnable(root, seen_keys(solver.seen_states));
    }
    None
}

} // verus!
