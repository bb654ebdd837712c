use vstd::prelude::*;

verus! {

/// Produces the finite sequence of 2-D integer coordinates `(x, y)` with
/// `0 <= x < max_x` and `0 <= y < max_y`, in row-major order: all `x` for
/// `y = 0`, then all `x` for `y = 1`, and so on. A fresh iterator restarts
/// the same sequence; empty bounds give an empty sequence.
pub struct ImageIterator {
    pub max_x: u32,
    pub max_y: u32,
    pub x: u32,
    pub y: u32,
}

impl ImageIterator {
    /// The cursor stands on a coordinate still to be produced, or, once
    /// done, on the first cell past the last row.
    pub open spec fn wf(self) -> bool {
        &&& self.y <= self.max_y
        &&& if self.y < self.max_y {
                self.x < self.max_x
            } else {
                self.x == 0
            }
    }

    /// How many coordinates have been produced so far.
    pub open spec fn pos(self) -> int {
        (self.y as int) * (self.max_x as int) + (self.x as int)
    }

    /// How many coordinates the whole sequence holds.
    pub open spec fn total(self) -> int {
        (self.max_x as int) * (self.max_y as int)
    }

    /// A fresh iterator over the given bounds, standing before the first
    /// coordinate.
    pub fn new(max_x: u32, max_y: u32) -> (it: ImageIterator)
        ensures
            it.wf(),
            it.max_x == max_x,
            it.max_y == max_y,
            it.pos() == 0,
            it.pos() <= it.total(),
    {
        if max_x == 0 || max_y == 0 {
            ImageIterator { max_x, max_y, x: 0, y: max_y }
        } else {
            ImageIterator { max_x, max_y, x: 0, y: 0 }
        }
    }

    /// Hands out the next coordinate in row-major order, or `None` once all
    /// `max_x * max_y` coordinates have been produced.
    pub fn next(&mut self) -> (r: Option<(u32, u32)>)
        requires
            old(self).wf(),
        ensures
            final(self).wf(),
            final(self).max_x == old(self).max_x,
            final(self).max_y == old(self).max_y,
            final(self).pos() <= final(self).total(),
            old(self).pos() < old(self).total() ==> {
                &&& r == Some((old(self).x, old(self).y))
                &&& old(self).x < old(self).max_x
                &&& old(self).y < old(self).max_y
                &&& final(self).pos() == old(self).pos() + 1
            },
            old(self).pos() >= old(self).total() ==> r is None && *final(self) == *old(self),
    {
        proof {
            let mx = self.max_x as int;
            let my = self.max_y as int;
            let cx = self.x as int;
            let cy = self.y as int;
            // on a live cursor the position is still short of the total,
            // and a finished cursor stands exactly at it
            assert(cy < my && cx < mx ==> cy * mx + cx < mx * my) by (nonlinear_arith)
                requires
                    0 <= cx,
                    0 <= cy,
            ;
            assert(cy == my && cx == 0 ==> cy * mx + cx == mx * my) by (nonlinear_arith);
        }
        if self.y < self.max_y {
            let r = (self.x, self.y);
            if self.x + 1 < self.max_x {
                self.x = self.x + 1;
            } else {
                self.x = 0;
                self.y = self.y + 1;
            }
            proof {
                let mx = self.max_x as int;
                let my = self.max_y as int;
                let cy = self.y as int;
                assert((cy - 1) * mx + (mx - 1) + 1 == cy * mx) by (nonlinear_arith);
                assert(cy <= my ==> cy * mx <= my * mx) by (nonlinear_arith)
                    requires
                        0 <= cy,
                        0 <= mx,
                ;
                assert(cy < my && (self.x as int) < mx ==> cy * mx + (self.x as int) < mx * my)
                    by (nonlinear_arith)
                    requires
                        0 <= cy,
                        0 <= self.x,
                ;
            }
            Some(r)
        } else {
            None
        }
    }
}

} // verus!
