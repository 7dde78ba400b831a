//! The occupancy grid.
use crate::ieee::double::Double;
use vstd::prelude::*;

verus! {

/// Occupancy of the plane around the robot, cell by cell.
pub struct OccupancyGrid {
    pub width: usize,
    pub height: usize,
    /// Metres per cell.
    pub resolution: Double,
    pub origin_x: Double,
    pub origin_y: Double,
    /// 0 is free, 100 is occupied; row by row.
    pub data: Vec<u8>,
}

/// Column or row of a coordinate, counted from the origin of the grid; -1 before
/// the origin.
pub open spec fn spec_cells(at: Double, origin: Double, resolution: Double) -> i64 {
    let n = at.spec_minus(origin).spec_over(resolution);
    if n.lt(Double::zero()) {
        -1i64
    } else {
        n.spec_truncate()
    }
}

#[verifier::when_used_as_spec(spec_cells)]
pub fn cells(at: Double, origin: Double, resolution: Double) -> (r: i64)
    ensures
        r == spec_cells(at, origin, resolution),
{
    let n = at.minus(origin).over(resolution);
    if n.lt(Double::zero()) {
        -1
    } else {
        n.truncate()
    }
}

/// A cell of a grid has a place in its row-by-row storage, and no other cell
/// has the same one.
pub proof fn lemma_place(width: int, height: int, x: int, y: int)
    requires
        0 <= x < width,
        0 <= y < height,
    ensures
        0 <= y * width + x < width * height,
        (y * width + x) % width == x,
        (y * width + x) / width == y,
{
    assert(0 <= y * width && y * width + width <= width * height) by (nonlinear_arith)
        requires
            0 <= y < height,
            0 < width,
    ;
    vstd::arithmetic::div_mod::lemma_fundamental_div_mod_converse(y * width + x, width, y, x);
}

impl OccupancyGrid {
    pub open spec fn wf(self) -> bool {
        self.data@.len() == self.width * self.height
    }

    pub open spec fn column(self, x: Double) -> int {
        cells(x, self.origin_x, self.resolution) as int
    }

    pub open spec fn row(self, y: Double) -> int {
        cells(y, self.origin_y, self.resolution) as int
    }

    /// The cell that holds the point, of a point in bounds.
    pub open spec fn place(self, x: Double, y: Double) -> int {
        self.row(y) * self.width + self.column(x)
    }

    pub open spec fn spec_in_bounds(&self, x: Double, y: Double) -> bool {
        0 <= self.column(x) < self.width && 0 <= self.row(y) < self.height
    }

    /// A cell counts as occupied from the middle of the scale up.
    pub open spec fn taken(self, i: int) -> bool {
        self.data@[i] >= 50
    }

    pub open spec fn spec_is_occupied(&self, x: Double, y: Double) -> bool {
        !self.spec_in_bounds(x, y) || self.taken(self.place(x, y))
    }

    /// A free grid.
    pub fn new(
        width: usize,
        height: usize,
        resolution: Double,
        origin_x: Double,
        origin_y: Double,
    ) -> (r: OccupancyGrid)
        requires
            width * height <= isize::MAX,
        ensures
            r.wf(),
            r.width == width && r.height == height,
            r.resolution == resolution && r.origin_x == origin_x && r.origin_y == origin_y,
            forall|i: int| 0 <= i < r.data@.len() ==> r.data@[i] == 0,
            forall|x: Double, y: Double| r.is_occupied(x, y) <==> !r.in_bounds(x, y),
    {
        let r = OccupancyGrid {
            width,
            height,
            resolution,
            origin_x,
            origin_y,
            data: vec![0; width * height],
        };
        proof {
            assert forall|x: Double, y: Double| r.in_bounds(x, y) implies !r.is_occupied(x, y) by {
                lemma_place(width as int, height as int, r.column(x), r.row(y));
            }
        }
        r
    }

    /// Place of an in-bounds cell.
    fn index(&self, gx: i64, gy: i64) -> (r: usize)
        requires
            self.wf(),
            0 <= gx < self.width,
            0 <= gy < self.height,
        ensures
            r == gy * self.width + gx,
            r < self.data@.len(),
    {
        let n = self.data.len();
        proof {
            lemma_place(self.width as int, self.height as int, gx as int, gy as int);
            assert(gy * self.width + gx < n);
            assert(0 <= gy * self.width) by (nonlinear_arith)
                requires
                    0 <= gy,
            ;
        }
        gy as usize * self.width + gx as usize
    }

    /// The point lies on an occupied cell or outside the grid.
    #[verifier::when_used_as_spec(spec_is_occupied)]
    pub fn is_occupied(&self, x: Double, y: Double) -> (r: bool)
        requires
            self.wf(),
        ensures
            r == self.spec_is_occupied(x, y),
    {
        let gx = cells(x, self.origin_x, self.resolution);
        let gy = cells(y, self.origin_y, self.resolution);
        if gx < 0 || gy < 0 || gx as u64 >= self.width as u64 || gy as u64 >= self.height as u64 {
            return true;
        }
        self.data[self.index(gx, gy)] >= 50
    }

    /// Marks the cell of a point in bounds as occupied; a point outside is
    /// passed over.
    pub fn set_occupied(&mut self, x: Double, y: Double)
        requires
            old(self).wf(),
        ensures
            final(self).wf(),
            final(self).width == old(self).width && final(self).height == old(self).height,
            final(self).resolution == old(self).resolution,
            final(self).origin_x == old(self).origin_x && final(self).origin_y == old(
                self,
            ).origin_y,
            final(self).data@ == (if old(self).in_bounds(x, y) {
                old(self).data@.update(old(self).place(x, y), 100)
            } else {
                old(self).data@
            }),
            final(self).is_occupied(x, y),
            forall|px: Double, py: Double|
                final(self).is_occupied(px, py) <==> old(self).is_occupied(px, py) || (
                old(self).in_bounds(px, py) && old(self).in_bounds(x, y) && old(self).place(px, py)
                    == old(self).place(x, y)),
    {
        let gx = cells(x, self.origin_x, self.resolution);
        let gy = cells(y, self.origin_y, self.resolution);
        if gx >= 0 && gy >= 0 && (gx as u64) < self.width as u64 && (gy as u64)
            < self.height as u64 {
            let i = self.index(gx, gy);
            self.data.set(i, 100);
        }
        proof {
            let (w, h) = (self.width as int, self.height as int);
            assert forall|px: Double, py: Double| self.in_bounds(px, py) implies 0 <= self.place(
                px,
                py,
            ) < self.data@.len() by {
                lemma_place(w, h, self.column(px), self.row(py));
            }
        }
    }

    /// The point lies inside the grid.
    #[verifier::when_used_as_spec(spec_in_bounds)]
    pub fn in_bounds(&self, x: Double, y: Double) -> (r: bool)
        ensures
            r == self.spec_in_bounds(x, y),
    {
        let gx = cells(x, self.origin_x, self.resolution);
        let gy = cells(y, self.origin_y, self.resolution);
        gx >= 0 && gy >= 0 && (gx as u64) < self.width as u64 && (gy as u64) < self.height as u64
    }
}

} // verus!
