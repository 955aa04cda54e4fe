use crate::types::{Direction, GridPos};
use std::collections::VecDeque;
use vstd::prelude::*;

verus! {

/// The cell one step from `p` in direction `d`. Coordinates wrap around at the ends of the
/// `u32` range, so every position has a neighbour in every direction.
pub open spec fn step(p: GridPos, d: Direction) -> GridPos {
    match d {
        Direction::North => GridPos { x: p.x, y: if p.y == 0 { u32::MAX } else { (p.y - 1) as u32 } },
        Direction::South => GridPos { x: p.x, y: if p.y == u32::MAX { 0 } else { (p.y + 1) as u32 } },
        Direction::East => GridPos { x: if p.x == u32::MAX { 0 } else { (p.x + 1) as u32 }, y: p.y },
        Direction::West => GridPos { x: if p.x == 0 { u32::MAX } else { (p.x - 1) as u32 }, y: p.y },
    }
}

/// The body after one step: a new head in front, the last segment gone.
pub open spec fn moved_body(body: Seq<GridPos>, d: Direction) -> Seq<GridPos> {
    seq![step(body[0], d)] + body.drop_last()
}

/// A snake: the way it faces and its body, head first.
pub struct Snake {
    /// The way the snake moves on each tick.
    pub direction: Direction,
    /// The cells it covers, head at the front.
    pub body: VecDeque<GridPos>,
}

impl Snake {
    /// A snake facing north with no body yet; it must get at least one segment before it moves.
    pub fn new() -> (s: Snake)
        ensures
            s.direction == Direction::North,
            s.body@ == Seq::<GridPos>::empty(),
    {
        Snake { direction: Direction::North, body: VecDeque::new() }
    }

    /// Moves the snake one cell in the way it faces: the new head goes in front and the
    /// tail segment is dropped, so the length stays the same.
    pub fn move_forward(&mut self)
        requires
            old(self).body@.len() > 0,
        ensures
            final(self).direction == old(self).direction,
            final(self).body@ == moved_body(old(self).body@, old(self).direction),
    {
        let head = self.body[0];
        let new_head = match self.direction {
            Direction::North => GridPos {
                x: head.x,
                y: if head.y == 0 { u32::MAX } else { head.y - 1 },
            },
            Direction::South => GridPos {
                x: head.x,
                y: if head.y == u32::MAX { 0 } else { head.y + 1 },
            },
            Direction::East => GridPos {
                x: if head.x == u32::MAX { 0 } else { head.x + 1 },
                y: head.y,
            },
            Direction::West => GridPos {
                x: if head.x == 0 { u32::MAX } else { head.x - 1 },
                y: head.y,
            },
        };
        let ghost before = self.body@;
        self.body.push_front(new_head);
        let _ = self.body.pop_back();
        assert(self.body@ =~= moved_body(before, self.direction));
    }
}

/// One move keeps the length, puts the head one cell further in the facing direction, and
/// leaves the old tail cell only where the new head re-enters it (for a body that covers each
/// cell once).
pub proof fn lemma_move_forward(body: Seq<GridPos>, d: Direction)
    requires
        body.len() > 0,
    ensures
        moved_body(body, d).len() == body.len(),
        moved_body(body, d)[0] == step(body[0], d),
        body.no_duplicates() ==> (moved_body(body, d).contains(body.last()) <==> step(body[0], d)
            == body.last()),
{
    let m = moved_body(body, d);
    let t = body.last();
    if body.no_duplicates() && m.contains(t) && step(body[0], d) != t {
        let j = choose|j: int| 0 <= j < m.len() && m[j] == t;
        assert(j > 0);
        assert(body[j - 1] == t);
        assert(body[body.len() - 1] == t);
    }
    if step(body[0], d) == t {
        assert(m[0] == t);
    }
}

} // verus!
