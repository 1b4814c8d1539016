//! The order in which the solver tries moves: every pair of a source and a
//! destination among the columns and the storage slot.

use vstd::prelude::*;

use crate::rules::{BoardZone, COLUMN_COUNT};

verus! {

/// The number of zones that a card can be taken from: the columns and the
/// storage slot.
pub const ZONE_COUNT: usize = 12;

/// The place of a zone in the order of enumeration: the columns first, then
/// the storage slot. The foundations have no place in it.
pub open spec fn zone_index(zone: BoardZone) -> int {
    match zone {
        BoardZone::Column(c) => c as int,
        BoardZone::MinorFoundationStorage => COLUMN_COUNT as int,
        _ => -1,
    }
}

/// Whether a zone is one that is enumerated: a column of the board or the
/// storage slot.
pub open spec fn enumerated(zone: BoardZone) -> bool {
    zone.in_bounds() && !zone.is_write_only()
}

/// The zone at place `k` of the order of enumeration.
pub open spec fn zone_at(k: int) -> BoardZone {
    if k < COLUMN_COUNT {
        BoardZone::Column(k as usize)
    } else {
        BoardZone::MinorFoundationStorage
    }
}

/// One step of the enumeration, a move onto its own source included: the
/// next source, or the first source with the next destination.
pub open spec fn advance(src: int, dst: int) -> (int, int) {
    if src + 1 < ZONE_COUNT {
        (src + 1, dst)
    } else {
        (0, dst + 1)
    }
}

/// The pair that follows `(src, dst)` in the enumeration, which leaves out
/// the moves of a zone onto itself. A destination of `ZONE_COUNT` says that
/// no pair follows.
pub open spec fn successor(src: int, dst: int) -> (int, int) {
    let (s, d) = advance(src, dst);
    if s == d {
        advance(s, d)
    } else {
        (s, d)
    }
}

/// A resumable walk over all pairs of a source and a destination, the
/// sources running fastest. It starts at the first pair and stands on the
/// pair that is being tried.
#[derive(Debug, Clone, Copy, PartialEq, Eq)]
pub struct ZonesIter {
    pub src: BoardZone,
    pub dst: BoardZone,
    pub finished: bool,
}

impl ZonesIter {
    /// Both zones are among those enumerated.
    pub open spec fn wf(self) -> bool {
        &&& enumerated(self.src)
        &&& enumerated(self.dst)
    }

    /// The walk stands on a pair that is a move to try.
    pub open spec fn live(self) -> bool {
        self.wf() && !self.finished && self.src != self.dst
    }

    /// How far the walk has come: the number of pairs before the one it
    /// stands on, moves of a zone onto itself counted.
    pub open spec fn position(self) -> int {
        zone_index(self.dst) * ZONE_COUNT + zone_index(self.src)
    }

    /// The walk at its start: it stands on the move from the second column
    /// to the first.
    pub fn new() -> (r: Self)
        ensures
            r.src == BoardZone::Column(1),
            r.dst == BoardZone::Column(0),
            !r.finished,
            r.live(),
    {
        Self { src: BoardZone::Column(1), dst: BoardZone::Column(0), finished: false }
    }

    /// The zone after `zone` in the order of enumeration, or `None` after
    /// the last.
    pub fn next_board_zone(zone: &BoardZone) -> (r: Option<BoardZone>)
        requires
            !zone.is_write_only(),
        ensures
            match *zone {
                BoardZone::Column(c) => r == Some(
                    if c < COLUMN_COUNT - 1 {
                        BoardZone::Column((c + 1) as usize)
                    } else {
                        BoardZone::MinorFoundationStorage
                    },
                ),
                _ => r is None,
            },
    {
        match zone {
            BoardZone::Column(c) => {
                if *c < COLUMN_COUNT - 1 {
                    Some(BoardZone::Column(*c + 1))
                } else {
                    Some(BoardZone::MinorFoundationStorage)
                }
            },
            _ => None,
        }
    }

    /// Goes on to the next pair and returns it, or returns `None` when
    /// every pair has been visited; from then on it always does.
    pub fn next(&mut self) -> (r: Option<(BoardZone, BoardZone)>)
        requires
            old(self).wf(),
        ensures
            old(self).finished ==> r is None && *final(self) == *old(self),
            !old(self).finished ==> ({
                let (s, d) = successor(zone_index(old(self).src), zone_index(old(self).dst));
                if d < ZONE_COUNT {
                    &&& r == Some((zone_at(s), zone_at(d)))
                    &&& final(self).src == zone_at(s)
                    &&& final(self).dst == zone_at(d)
                    &&& final(self).live()
                    &&& final(self).position() > old(self).position()
                } else {
                    r is None && final(self).finished
                }
            }),
    {
        if self.finished {
            return None;
        }
        // A move of a zone onto itself is never tried.
        let ghost s0 = zone_index(self.src);
        let ghost d0 = zone_index(self.dst);
        let ghost mut hops: int = 0;
        loop
            invariant_except_break
                self.wf(),
                !self.finished,
                0 <= hops <= 1,
                hops == 0 ==> *self == *old(self),
                hops == 1 ==> zone_index(self.src) == advance(s0, d0).0 && zone_index(self.dst)
                    == advance(s0, d0).1 && self.src == self.dst,
            invariant
                old(self).wf(),
                !old(self).finished,
                s0 == zone_index(old(self).src),
                d0 == zone_index(old(self).dst),
            ensures
                self.live(),
                zone_index(self.src) == successor(s0, d0).0,
                zone_index(self.dst) == successor(s0, d0).1,
                self.position() > old(self).position(),
            decreases 2 - hops,
        {
            if let Some(next) = Self::next_board_zone(&self.src) {
                self.src = next;
            } else {
                self.src = BoardZone::Column(0);
                if let Some(next) = Self::next_board_zone(&self.dst) {
                    self.dst = next;
                } else {
                    self.finished = true;
                    return None;
                }
            }
            proof {
                hops = hops + 1;
            }
            if self.src != self.dst {
                break ;
            }
        }
        Some((self.src, self.dst))
    }
}

} // verus!
