//! Why a search that runs out of moves has looked everywhere: what it has
//! seen is closed under the moves it tries, so that a board it never met
//! cannot be reached, and none of those it met was won.

use vstd::prelude::*;

use crate::fingerprint::{key_of, lemma_key_tells_boards_apart};
use crate::rules::{BoardView, BoardZone};
use crate::solver::Step;
use crate::zones::{enumerated, successor, zone_index, ZONE_COUNT};

verus! {

/// Moves as the search makes them: each from and to a column or the
/// storage slot.
pub open spec fn searched_moves(moves: Seq<(BoardZone, BoardZone)>) -> bool {
    forall|k: int|
        0 <= k < moves.len() ==> enumerated((#[trigger] moves[k]).0) && enumerated(moves[k].1)
}

impl BoardView {
    /// The board can be won by moves between the columns and the storage
    /// slot, each with its whole run and followed by the automatic
    /// cascade.
    pub open spec fn winnable(self) -> bool {
        exists|moves: Seq<(BoardZone, BoardZone)>|
            searched_moves(moves) && (#[trigger] self.play(moves)) is Some && self.play(
                moves,
            ).unwrap().solved()
    }
}

/// The place of a pair in the order in which the search tries moves.
pub open spec fn pair_position(src: BoardZone, dst: BoardZone) -> int {
    zone_index(dst) * ZONE_COUNT + zone_index(src)
}

/// A board that the search has met: the one it began with, or one whose
/// bytes it remembers.
pub open spec fn visited(root: BoardView, seen: Set<Seq<u8>>, v: BoardView) -> bool {
    v.wf() && (v == root || seen.contains(key_of(v)))
}

/// The move from `src` to `dst` on board `v` leads nowhere new: it is
/// refused, or the board it leads to has been met.
pub open spec fn done(
    root: BoardView,
    seen: Set<Seq<u8>>,
    v: BoardView,
    src: BoardZone,
    dst: BoardZone,
) -> bool {
    v.step(src, dst) is Some ==> visited(root, seen, v.step(src, dst).unwrap())
}

/// No move on board `v` leads anywhere new.
pub open spec fn closed(root: BoardView, seen: Set<Seq<u8>>, v: BoardView) -> bool {
    forall|src: BoardZone, dst: BoardZone|
        enumerated(src) && enumerated(dst) ==> #[trigger] done(root, seen, v, src, dst)
}

/// No move on board `v` that comes before `position` in the order of
/// trying leads anywhere new.
pub open spec fn tried_before(
    root: BoardView,
    seen: Set<Seq<u8>>,
    v: BoardView,
    position: int,
) -> bool {
    forall|src: BoardZone, dst: BoardZone|
        enumerated(src) && enumerated(dst) && src != dst && pair_position(src, dst) < position
            ==> #[trigger] done(root, seen, v, src, dst)
}

/// Board `v` is the board of one of the frames.
pub open spec fn on_stack(steps: Seq<Step>, v: BoardView) -> bool {
    exists|k: int| 0 <= k < steps.len() && (#[trigger] steps[k]).state@ == v
}

/// What a search knows at any time: no board it has met is won; every
/// board it has met and is no longer working on is closed; and every frame
/// stands on a board it has met, with all the moves before the one it
/// stands on tried.
pub open spec fn search_inv(root: BoardView, seen: Set<Seq<u8>>, steps: Seq<Step>) -> bool {
    &&& root.wf()
    &&& forall|v: BoardView| #[trigger] visited(root, seen, v) ==> !v.solved()
    &&& forall|v: BoardView|
        #[trigger] visited(root, seen, v) && !on_stack(steps, v) ==> closed(root, seen, v)
    &&& forall|k: int|
        0 <= k < steps.len() ==> tried_before(
            root,
            seen,
            (#[trigger] steps[k]).state@,
            steps[k].trying_zones.position(),
        )
    &&& forall|k: int| 0 <= k < steps.len() ==> visited(root, seen, (#[trigger] steps[k]).state@)
}

/// No move comes before the first one that a frame tries.
pub proof fn lemma_nothing_before_first(root: BoardView, seen: Set<Seq<u8>>, v: BoardView)
    ensures
        tried_before(root, seen, v, 1),
{
}

/// A move of a zone onto itself leads nowhere.
pub proof fn lemma_move_onto_itself_done(
    root: BoardView,
    seen: Set<Seq<u8>>,
    v: BoardView,
    zone: BoardZone,
)
    ensures
        done(root, seen, v, zone, zone),
{
    reveal(BoardView::step);
}

/// What a search knows when it begins.
pub proof fn lemma_search_begins(root: BoardView, first: Step)
    requires
        root.wf(),
        !root.solved(),
        first.state@ == root,
        first.trying_zones.position() == 1,
    ensures
        search_inv(root, Set::<Seq<u8>>::empty(), seq![first]),
{
    let seen = Set::<Seq<u8>>::empty();
    let steps = seq![first];
    lemma_nothing_before_first(root, seen, root);
    assert forall|v: BoardView| #[trigger] visited(root, seen, v) && !on_stack(
        steps,
        v,
    ) implies closed(root, seen, v) by {
        assert(steps[0].state@ == v);
    }
}

/// What a search knows stays true when it remembers a new board that is
/// not won and gives it a frame.
pub proof fn lemma_search_descends(
    root: BoardView,
    seen: Set<Seq<u8>>,
    steps: Seq<Step>,
    child: Step,
)
    requires
        search_inv(root, seen, steps),
        child.state@.wf(),
        !child.state@.solved(),
        child.trying_zones.position() == 1,
    ensures
        search_inv(root, seen.insert(key_of(child.state@)), steps.push(child)),
{
    let key = key_of(child.state@);
    let more = seen.insert(key);
    let longer = steps.push(child);
    // Whatever is met now was met before, or is the new board.
    assert forall|v: BoardView| #[trigger] visited(root, more, v) implies visited(root, seen, v)
        || v == child.state@ by {
        if v != root && !seen.contains(key_of(v)) {
            lemma_key_tells_boards_apart(v, child.state@);
        }
    }
    assert(longer[steps.len() as int].state@ == child.state@);
    assert forall|v: BoardView| #[trigger] visited(root, more, v) && !on_stack(
        longer,
        v,
    ) implies closed(root, more, v) by {
        if on_stack(steps, v) {
            let k = choose|k: int| 0 <= k < steps.len() && (#[trigger] steps[k]).state@ == v;
            assert(longer[k].state@ == v);
        }
        assert forall|src: BoardZone, dst: BoardZone|
            enumerated(src) && enumerated(dst) implies #[trigger] done(
            root,
            more,
            v,
            src,
            dst,
        ) by {
            assert(done(root, seen, v, src, dst));
        }
    }
    assert forall|k: int| 0 <= k < longer.len() implies tried_before(
        root,
        more,
        (#[trigger] longer[k]).state@,
        longer[k].trying_zones.position(),
    ) by {
        if k < steps.len() {
            assert forall|src: BoardZone, dst: BoardZone|
                enumerated(src) && enumerated(dst) && src != dst && pair_position(src, dst)
                    < steps[k].trying_zones.position() implies #[trigger] done(
                root,
                more,
                steps[k].state@,
                src,
                dst,
            ) by {
                assert(done(root, seen, steps[k].state@, src, dst));
            }
        } else {
            lemma_nothing_before_first(root, more, child.state@);
        }
    }
}

/// What a search knows stays true when its last frame, whose move led
/// nowhere new, goes on to the move that follows.
pub proof fn lemma_search_advances(
    root: BoardView,
    seen: Set<Seq<u8>>,
    steps: Seq<Step>,
    moved: Step,
)
    requires
        search_inv(root, seen, steps),
        steps.len() > 0,
        steps.last().trying_zones.live(),
        done(
            root,
            seen,
            steps.last().state@,
            steps.last().trying_zones.src,
            steps.last().trying_zones.dst,
        ),
        moved.state == steps.last().state,
        moved.trying_zones.wf(),
        zone_index(moved.trying_zones.src) == successor(
            zone_index(steps.last().trying_zones.src),
            zone_index(steps.last().trying_zones.dst),
        ).0,
        zone_index(moved.trying_zones.dst) == successor(
            zone_index(steps.last().trying_zones.src),
            zone_index(steps.last().trying_zones.dst),
        ).1,
    ensures
        search_inv(root, seen, steps.update(steps.len() - 1, moved)),
{
    let top = steps.len() - 1;
    let last = steps[top];
    let after = steps.update(top, moved);
    assert forall|v: BoardView| #[trigger] visited(root, seen, v) && !on_stack(
        after,
        v,
    ) implies closed(root, seen, v) by {
        if on_stack(steps, v) {
            let k = choose|k: int| 0 <= k < steps.len() && (#[trigger] steps[k]).state@ == v;
            assert(after[k].state@ == v);
        }
    }
}

/// What a search knows stays true when its last frame, all of whose moves
/// led nowhere new, is taken away.
pub proof fn lemma_search_backtracks(root: BoardView, seen: Set<Seq<u8>>, steps: Seq<Step>)
    requires
        search_inv(root, seen, steps),
        steps.len() > 0,
        steps.last().trying_zones.live(),
        done(
            root,
            seen,
            steps.last().state@,
            steps.last().trying_zones.src,
            steps.last().trying_zones.dst,
        ),
        successor(
            zone_index(steps.last().trying_zones.src),
            zone_index(steps.last().trying_zones.dst),
        ).1 >= ZONE_COUNT,
    ensures
        search_inv(root, seen, steps.drop_last()),
{
    let top = steps.len() - 1;
    let last = steps[top];
    let fewer = steps.drop_last();
    assert(closed(root, seen, last.state@)) by {
        assert forall|src: BoardZone, dst: BoardZone|
            enumerated(src) && enumerated(dst) implies #[trigger] done(
            root,
            seen,
            last.state@,
            src,
            dst,
        ) by {
            if src == dst {
                lemma_move_onto_itself_done(root, seen, last.state@, src);
            } else {
                assert(pair_position(src, dst) <= last.trying_zones.position());
            }
        }
    }
    assert forall|v: BoardView| #[trigger] visited(root, seen, v) && !on_stack(
        fewer,
        v,
    ) implies closed(root, seen, v) by {
        if v != last.state@ {
            if on_stack(steps, v) {
                let k = choose|k: int| 0 <= k < steps.len() && (#[trigger] steps[k]).state@ == v;
                assert(fewer[k].state@ == v);
            }
        }
    }
}

/// Once a search has no frame left, every board that can be reached from
/// one it has met is one it has met.
pub proof fn lemma_search_reaches_only_visited(
    root: BoardView,
    seen: Set<Seq<u8>>,
    from: BoardView,
    moves: Seq<(BoardZone, BoardZone)>,
)
    requires
        search_inv(root, seen, Seq::<Step>::empty()),
        visited(root, seen, from),
        searched_moves(moves),
        from.play(moves) is Some,
    ensures
        visited(root, seen, from.play(moves).unwrap()),
    decreases moves.len(),
{
    if moves.len() > 0 {
        assert(done(root, seen, from, moves[0].0, moves[0].1));
        let next = from.step(moves[0].0, moves[0].1).unwrap();
        let rest = moves.skip(1);
        lemma_search_reaches_only_visited(root, seen, next, rest);
    }
}

/// A search that has run out of frames without winning shows that the
/// board it began with cannot be won by the moves it tries.
pub proof fn lemma_exhausted_search_means_unwinnable(root: BoardView, seen: Set<Seq<u8>>)
    requires
        search_inv(root, seen, Seq::<Step>::empty()),
    ensures
        !root.winnable(),
{
    if root.winnable() {
        let moves = choose|moves: Seq<(BoardZone, BoardZone)>|
            searched_moves(moves) && (#[trigger] root.play(moves)) is Some && root.play(
                moves,
            ).unwrap().solved();
        lemma_search_reaches_only_visited(root, seen, root, moves);
    }
}

} // verus!
