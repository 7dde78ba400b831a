//! Distance to the nearest occupied cell.
use crate::global_planner::grid::{cells, lemma_place, OccupancyGrid};
use crate::ieee::double;
use crate::ieee::double::{lemma_encode_decode, Double};
use crate::ieee::laws::{lemma_encode_monotone, lemma_rounded_one};
use crate::ieee::single::{decode, exponent, Single};
use vstd::arithmetic::power2::{
    lemma2_to64, lemma2_to64_rest, lemma_pow2_adds, lemma_pow2_pos, pow2,
};
use vstd::prelude::*;

verus! {

/// For each cell of a grid the distance to the nearest occupied one, measured
/// along the eight directions of the grid and capped.
pub struct ClearanceField {
    pub width: usize,
    pub height: usize,
    pub resolution: Double,
    pub origin_x: Double,
    pub origin_y: Double,
    pub cap: Single,
    pub dist: Vec<Single>,
}

/// Distance across a corner of a cell.
pub open spec fn diagonal(g: &OccupancyGrid) -> Single {
    g.resolution.narrow().times(Single { bits: 0x3fb5_04f3 })
}

/// Distance before any propagation.
pub open spec fn seed(g: &OccupancyGrid, x: int, y: int) -> Single {
    if g.taken(y * g.width + x) {
        Single { bits: 0 }
    } else {
        Single { bits: 0x7f80_0000 }
    }
}

/// Distance of the cell along paths that come from above and from the left.
pub open spec fn from_above(g: &OccupancyGrid, x: int, y: int) -> Single
    decreases y, x,
{
    if x < 0 || y < 0 {
        Single { bits: 0 }
    } else {
        let res = g.resolution.narrow();
        let d0 = seed(g, x, y);
        let d1 = if x > 0 {
            d0.min(from_above(g, x - 1, y).plus(res))
        } else {
            d0
        };
        if y == 0 {
            d1
        } else {
            let d2 = d1.min(from_above(g, x, y - 1).plus(res));
            let d3 = if x > 0 {
                d2.min(from_above(g, x - 1, y - 1).plus(diagonal(g)))
            } else {
                d2
            };
            if x + 1 < g.width {
                d3.min(from_above(g, x + 1, y - 1).plus(diagonal(g)))
            } else {
                d3
            }
        }
    }
}

/// Capped distance of the cell along paths from all sides.
pub open spec fn from_around(g: &OccupancyGrid, cap: Single, x: int, y: int) -> Single
    decreases g.height - y, g.width - x,
{
    if x >= g.width || y >= g.height {
        Single { bits: 0 }
    } else {
        let res = g.resolution.narrow();
        let d0 = from_above(g, x, y);
        let d1 = if x + 1 < g.width {
            d0.min(from_around(g, cap, x + 1, y).plus(res))
        } else {
            d0
        };
        let d4 = if y + 1 < g.height {
            let d2 = d1.min(from_around(g, cap, x, y + 1).plus(res));
            let d3 = if x + 1 < g.width {
                d2.min(from_around(g, cap, x + 1, y + 1).plus(diagonal(g)))
            } else {
                d2
            };
            if x > 0 {
                d3.min(from_around(g, cap, x - 1, y + 1).plus(diagonal(g)))
            } else {
                d3
            }
        } else {
            d1
        };
        d4.min(cap)
    }
}

/// The same, of the `i`-th cell in storage.
pub open spec fn above_at(g: &OccupancyGrid, i: int) -> Single {
    from_above(g, i % (g.width as int), i / (g.width as int))
}

/// The same, of the `i`-th cell in storage.
pub open spec fn around_at(g: &OccupancyGrid, cap: Single, i: int) -> Single {
    from_around(g, cap, i % (g.width as int), i / (g.width as int))
}

/// Some cell is occupied.
pub open spec fn any_taken(g: &OccupancyGrid) -> bool {
    exists|i: int| 0 <= i < g.data@.len() && #[trigger] g.taken(i)
}

/// The distance that the field holds for a cell.
pub open spec fn clearance_of(g: &OccupancyGrid, cap: Single, x: int, y: int) -> Single {
    if any_taken(g) {
        from_around(g, cap, x, y).min(cap)
    } else {
        cap
    }
}

impl ClearanceField {
    pub open spec fn wf(self) -> bool {
        self.dist@.len() == self.width * self.height
    }

    /// The field belongs to the grid.
    pub open spec fn of_grid(self, g: &OccupancyGrid, cap_m: Double) -> bool {
        &&& self.width == g.width && self.height == g.height
        &&& self.resolution == g.resolution
        &&& self.origin_x == g.origin_x && self.origin_y == g.origin_y
        &&& self.cap == cap_m.narrow()
        &&& self.wf()
        &&& forall|i: int|
            0 <= i < self.dist@.len() ==> #[trigger] self.dist@[i] == clearance_of(
                g,
                cap_m.narrow(),
                i % (g.width as int),
                i / (g.width as int),
            )
    }

    /// The clearance field of a grid, capped at `cap_m`.
    pub fn build(grid: &OccupancyGrid, cap_m: Double) -> (r: ClearanceField)
        requires
            grid.wf(),
        ensures
            r.of_grid(grid, cap_m),
    {
        let cap = cap_m.narrow();
        let n = grid.data.len();
        let mut any_occupied = false;
        let mut k: usize = 0;
        while k < n
            invariant
                n == grid.data@.len(),
                k <= n,
                any_occupied == exists|i: int| 0 <= i < k && #[trigger] grid.taken(i),
            decreases n - k,
        {
            if grid.data[k] >= 50 {
                assert(grid.taken(k as int));
                any_occupied = true;
            }
            k = k + 1;
        }
        let dist = if any_occupied {
            let above = ClearanceField::sweep_down(grid);
            ClearanceField::sweep_up(grid, cap, above)
        } else {
            let mut flat: Vec<Single> = Vec::with_capacity(n);
            while flat.len() < n
                invariant
                    flat@.len() <= n,
                    forall|i: int| 0 <= i < flat@.len() ==> flat@[i] == cap,
                decreases n - flat@.len(),
            {
                flat.push(cap);
            }
            flat
        };
        ClearanceField {
            width: grid.width,
            height: grid.height,
            resolution: grid.resolution,
            origin_x: grid.origin_x,
            origin_y: grid.origin_y,
            cap,
            dist,
        }
    }

    /// The pass from the first cell to the last.
    fn sweep_down(grid: &OccupancyGrid) -> (dist: Vec<Single>)
        requires
            grid.wf(),
        ensures
            dist@.len() == grid.data@.len(),
            forall|i: int|
                0 <= i < dist@.len() ==> #[trigger] dist@[i] == above_at(grid, i),
    {
        let n = grid.data.len();
        let (w, h) = (grid.width, grid.height);
        let res = grid.resolution.narrow();
        let diag = res.times(Single { bits: 0x3fb5_04f3 });
        let mut dist: Vec<Single> = Vec::with_capacity(n);
        let mut x: usize = 0;
        let mut y: usize = 0;
        proof {
            assert(0 * w == 0);
            if n > 0 {
                assert(w > 0 && h > 0) by (nonlinear_arith)
                    requires
                        w * h == n,
                        n > 0,
                ;
            }
        }
        while dist.len() < n
            invariant
                n == grid.data@.len(),
                n == w * h,
                w == grid.width,
                h == grid.height,
                res == grid.resolution.narrow(),
                diag == diagonal(grid),
                dist@.len() <= n,
                dist@.len() == y * w + x,
                dist@.len() < n ==> x < w && y < h,
                forall|i: int|
                    0 <= i < dist@.len() ==> #[trigger] dist@[i] == above_at(grid, i),
            decreases n - dist@.len(),
        {
            let i = dist.len();
            proof {
                lemma_place(w as int, h as int, x as int, y as int);
                if x > 0 {
                    lemma_place(w as int, h as int, x - 1, y as int);
                }
                if y > 0 {
                    lemma_row_above(w as int, x as int, y as int);
                    lemma_place(w as int, h as int, x as int, y - 1);
                    if x > 0 {
                        lemma_place(w as int, h as int, x - 1, y - 1);
                    }
                    if x + 1 < w {
                        lemma_place(w as int, h as int, x + 1, y - 1);
                    }
                }
            }
            let mut d = if grid.data[i] >= 50 {
                Single { bits: 0 }
            } else {
                Single { bits: 0x7f80_0000 }
            };
            if x > 0 {
                d = d.min(dist[i - 1].plus(res));
            }
            if y > 0 {
                d = d.min(dist[i - w].plus(res));
                if x > 0 {
                    d = d.min(dist[i - w - 1].plus(diag));
                }
                if x + 1 < w {
                    d = d.min(dist[i - w + 1].plus(diag));
                }
            }
            assert(d == from_above(grid, x as int, y as int));
            dist.push(d);
            if x + 1 < w {
                x = x + 1;
            } else {
                proof {
                    assert((y + 1) * w == y * w + w) by (nonlinear_arith);
                    assert(y + 1 < h || dist@.len() == n) by (nonlinear_arith)
                        requires
                            dist@.len() == y * w + w,
                            n == w * h,
                            dist@.len() <= n,
                            y < h,
                    ;
                }
                x = 0;
                y = y + 1;
            }
        }
        dist
    }

    /// The distance of one cell in the pass from the last to the first.
    fn cell_up(
        grid: &OccupancyGrid,
        cap: Single,
        dist: &Vec<Single>,
        i: usize,
        x: usize,
        y: usize,
    ) -> (r: Single)
        requires
            grid.wf(),
            dist@.len() == grid.data@.len(),
            x < grid.width,
            y < grid.height,
            i == y * grid.width + x,
            dist@[i as int] == above_at(grid, i as int),
            forall|j: int| i < j < dist@.len() ==> #[trigger] dist@[j] == around_at(grid, cap, j),
        ensures
            r == from_around(grid, cap, x as int, y as int),
    {
        let (w, h) = (grid.width, grid.height);
        let n = dist.len();
        let res = grid.resolution.narrow();
        let diag = res.times(Single { bits: 0x3fb5_04f3 });
        proof {
            lemma_place(w as int, h as int, x as int, y as int);
            if x + 1 < w {
                lemma_place(w as int, h as int, x + 1, y as int);
            }
            if y + 1 < h {
                lemma_row_above(w as int, x as int, y + 1);
                lemma_place(w as int, h as int, x as int, y + 1);
                if x + 1 < w {
                    lemma_place(w as int, h as int, x + 1, y + 1);
                }
                if x > 0 {
                    lemma_place(w as int, h as int, x - 1, y + 1);
                }
            }
        }
        let mut d = dist[i];
        if x + 1 < w {
            d = d.min(dist[i + 1].plus(res));
        }
        if y + 1 < h {
            d = d.min(dist[i + w].plus(res));
            if x + 1 < w {
                d = d.min(dist[i + w + 1].plus(diag));
            }
            if x > 0 {
                d = d.min(dist[i + w - 1].plus(diag));
            }
        }
        d.min(cap)
    }

    /// The pass from the last cell to the first.
    fn sweep_up(grid: &OccupancyGrid, cap: Single, above: Vec<Single>) -> (dist: Vec<Single>)
        requires
            grid.wf(),
            above@.len() == grid.data@.len(),
            forall|i: int|
                0 <= i < above@.len() ==> #[trigger] above@[i] == above_at(grid, i),
        ensures
            dist@.len() == grid.data@.len(),
            forall|i: int|
                0 <= i < dist@.len() ==> #[trigger] dist@[i] == around_at(grid, cap, i).min(cap),
    {
        let n = grid.data.len();
        let (w, h) = (grid.width, grid.height);
        let mut dist = above;
        if n == 0 {
            return dist;
        }
        proof {
            assert(w > 0 && h > 0) by (nonlinear_arith)
                requires
                    w * h == n,
                    n > 0,
            ;
            assert((h - 1) * w + w == w * h) by (nonlinear_arith);
        }
        let mut i: usize = n;
        let mut x: usize = w;
        let mut y: usize = h - 1;
        while i > 0
            invariant
                n == grid.data@.len(),
                n == w * h,
                w == grid.width,
                h == grid.height,
                w > 0,
                grid.wf(),
                dist@.len() == n,
                i <= n,
                i == y * w + x,
                y < h,
                x <= w,
                forall|j: int|
                    0 <= j < i ==> #[trigger] dist@[j] == above_at(grid, j),
                forall|j: int|
                    i <= j < n ==> #[trigger] dist@[j] == around_at(grid, cap, j),
            decreases i,
        {
            if x == 0 {
                proof {
                    assert(y > 0) by (nonlinear_arith)
                        requires
                            i == y * w + x,
                            i > 0,
                            x == 0,
                    ;
                    assert((y - 1) * w + w == y * w) by (nonlinear_arith);
                }
                y = y - 1;
                x = w;
            }
            x = x - 1;
            i = i - 1;
            let c = ClearanceField::cell_up(grid, cap, &dist, i, x, y);
            proof {
                lemma_place(w as int, h as int, x as int, y as int);
            }
            dist.set(i, c);
        }
        let mut k: usize = 0;
        while k < n
            invariant
                k <= n,
                dist@.len() == n,
                forall|j: int|
                    0 <= j < k ==> #[trigger] dist@[j] == around_at(grid, cap, j).min(cap),
                forall|j: int|
                    k <= j < n ==> #[trigger] dist@[j] == around_at(grid, cap, j),
            decreases n - k,
        {
            let c = dist[k].min(cap);
            dist.set(k, c);
            k = k + 1;
        }
        dist
    }

    pub open spec fn spec_distance_at(&self, x: Double, y: Double) -> Double {
        let gx = cells(x, self.origin_x, self.resolution) as int;
        let gy = cells(y, self.origin_y, self.resolution) as int;
        if 0 <= gx < self.width && 0 <= gy < self.height {
            self.dist@[gy * self.width + gx].widen()
        } else {
            self.cap.widen()
        }
    }

    /// Distance (m) from the cell of the point to the nearest occupied one; the
    /// cap outside the grid, whose borders are no obstacles.
    #[verifier::when_used_as_spec(spec_distance_at)]
    pub fn distance_at(&self, x: Double, y: Double) -> (r: Double)
        requires
            self.wf(),
        ensures
            r == self.spec_distance_at(x, y),
    {
        let gx = cells(x, self.origin_x, self.resolution);
        let gy = cells(y, self.origin_y, self.resolution);
        if gx < 0 || gy < 0 || gx as u64 >= self.width as u64 || gy as u64 >= self.height as u64 {
            return self.cap.widen();
        }
        let n = self.dist.len();
        proof {
            lemma_place(self.width as int, self.height as int, gx as int, gy as int);
            assert(gy * self.width + gx < n);
            assert(0 <= gy * self.width) by (nonlinear_arith)
                requires
                    0 <= gy,
            ;
        }
        self.dist[gy as usize * self.width + gx as usize].widen()
    }
}

proof fn lemma_row_above(w: int, x: int, y: int)
    ensures
        (y - 1) * w + x == y * w + x - w,
{
    assert((y - 1) * w == y * w - w) by (nonlinear_arith);
}

/// The distance is a number, and its sign is not set.
pub open spec fn counts(d: Single) -> bool {
    !d.nan() && !d.negative()
}

proof fn lemma_narrow_counts(d: Double)
    requires
        !d.nan() && !d.negative(),
    ensures
        counts(d.narrow()),
{
    reveal(Double::spec_narrow);
}

proof fn lemma_widen_counts(d: Single)
    requires
        counts(d),
    ensures
        !d.widen().nan() && !d.widen().negative(),
        d.bits > 0 ==> d.widen().mag() > 0,
{
    reveal(Single::spec_widen);
    if d.bits > 0 && d.mag() < 0x7f80_0000 {
        let (m, x) = ((d.mag() - exponent(d.mag()) * 0x80_0000) as nat, pow2(exponent(d.mag())));
        let y = pow2(925);
        lemma_pow2_pos(exponent(d.mag()));
        lemma_pow2_pos(925);
        assert((m * x) * y >= 1) by (nonlinear_arith)
            requires
                m >= 1,
                x >= 1,
                y >= 1,
        ;
        lemma_rounded_one();
        lemma_encode_monotone(1, decode(d.mag()) * y, 1);
    }
}

pub proof fn lemma_plus_counts(a: Single, b: Single)
    requires
        counts(a),
        counts(b),
    ensures
        counts(a.plus(b)),
{
    reveal(Single::spec_plus);
    reveal(Double::spec_plus);
    lemma_widen_counts(a);
    lemma_widen_counts(b);
    lemma_narrow_counts(a.widen().plus(b.widen()));
}

/// The length of a unit diagonal stays finite in binary64.
proof fn lemma_root()
    ensures
        (Single { bits: 0x3fb5_04f3 }).widen().finite(),
{
    reveal(Single::spec_widen);
    let two: nat = 0x4000_0000_0000_0000;
    let (x, y, z) = (pow2(126), pow2(925), pow2(1051));
    lemma_pow2_adds(126, 925);
    lemma_pow2_adds(24, 1051);
    lemma_pow2_adds(52, 1023);
    lemma2_to64();
    lemma2_to64_rest();
    assert(exponent(0x3fb5_04f3) == 126);
    assert(double::exponent(two) == 1023);
    assert(double::decode(two) == pow2(1075));
    assert((0xb5_04f3 * x) * y == 0xb5_04f3 * (x * y)) by (nonlinear_arith);
    assert(0xb5_04f3 * z <= pow2(24) * z) by (nonlinear_arith)
        requires
            0xb5_04f3 <= pow2(24),
    ;
    lemma_encode_decode(two);
    lemma_encode_monotone(decode(0x3fb5_04f3) * y, pow2(1075), 1);
}

pub proof fn lemma_diagonal_counts(g: &OccupancyGrid)
    requires
        !g.resolution.nan() && !g.resolution.negative(),
    ensures
        counts(g.resolution.narrow()),
        counts(diagonal(g)),
{
    reveal(Single::spec_times);
    reveal(Double::spec_times);
    let side = g.resolution.narrow();
    let root = Single { bits: 0x3fb5_04f3 };
    lemma_narrow_counts(g.resolution);
    lemma_widen_counts(side);
    lemma_widen_counts(root);
    lemma_root();
    lemma_narrow_counts(side.widen().times(root.widen()));
}

pub proof fn lemma_above(g: &OccupancyGrid, x: int, y: int)
    requires
        !g.resolution.nan() && !g.resolution.negative(),
    ensures
        counts(from_above(g, x, y)),
        x >= 0 && y >= 0 && g.taken(y * g.width + x) ==> from_above(g, x, y).bits == 0,
    decreases y, x,
{
    if x >= 0 && y >= 0 {
        let res = g.resolution.narrow();
        lemma_diagonal_counts(g);
        if x > 0 {
            lemma_above(g, x - 1, y);
            lemma_plus_counts(from_above(g, x - 1, y), res);
        }
        if y > 0 {
            lemma_above(g, x, y - 1);
            lemma_plus_counts(from_above(g, x, y - 1), res);
            if x > 0 {
                lemma_above(g, x - 1, y - 1);
                lemma_plus_counts(from_above(g, x - 1, y - 1), diagonal(g));
            }
            if x + 1 < g.width {
                lemma_above(g, x + 1, y - 1);
                lemma_plus_counts(from_above(g, x + 1, y - 1), diagonal(g));
            }
        }
    }
}

pub proof fn lemma_around(g: &OccupancyGrid, cap: Single, x: int, y: int)
    requires
        !g.resolution.nan() && !g.resolution.negative(),
        counts(cap),
    ensures
        counts(from_around(g, cap, x, y)),
        0 <= x < g.width && 0 <= y < g.height && g.taken(y * g.width + x) ==> from_around(
            g,
            cap,
            x,
            y,
        ).bits == 0,
    decreases g.height - y, g.width - x,
{
    if x < g.width && y < g.height {
        let res = g.resolution.narrow();
        lemma_diagonal_counts(g);
        lemma_above(g, x, y);
        if x + 1 < g.width {
            lemma_around(g, cap, x + 1, y);
            lemma_plus_counts(from_around(g, cap, x + 1, y), res);
        }
        if y + 1 < g.height {
            lemma_around(g, cap, x, y + 1);
            lemma_plus_counts(from_around(g, cap, x, y + 1), res);
            if x + 1 < g.width {
                lemma_around(g, cap, x + 1, y + 1);
                lemma_plus_counts(from_around(g, cap, x + 1, y + 1), diagonal(g));
            }
            if x > 0 {
                lemma_around(g, cap, x - 1, y + 1);
                lemma_plus_counts(from_around(g, cap, x - 1, y + 1), diagonal(g));
            }
        }
    }
}

/// Clearance is a number between zero and the cap, zero on an occupied cell, and
/// the cap everywhere where no cell is occupied.
pub proof fn law_clearance(g: &OccupancyGrid, cap: Single, x: int, y: int)
    requires
        g.wf(),
        !g.resolution.nan() && !g.resolution.negative(),
        counts(cap),
        0 <= x < g.width,
        0 <= y < g.height,
    ensures
        counts(clearance_of(g, cap, x, y)),
        clearance_of(g, cap, x, y).le(cap),
        g.taken(y * g.width + x) ==> clearance_of(g, cap, x, y).bits == 0,
        !any_taken(g) ==> clearance_of(g, cap, x, y) == cap,
{
    lemma_around(g, cap, x, y);
    lemma_place(g.width as int, g.height as int, x, y);
    if g.taken(y * g.width + x) {
        assert(any_taken(g));
    }
}

/// A cell is at most one side farther from the nearest occupied one than the cells
/// to its right and below it, and at most one diagonal farther than the two across
/// its lower corners. From the other side the sums may round differently.
pub proof fn law_clearance_is_even(g: &OccupancyGrid, cap: Single, x: int, y: int)
    requires
        !g.resolution.nan() && !g.resolution.negative(),
        counts(cap),
        0 <= x < g.width,
        0 <= y < g.height,
        any_taken(g),
    ensures
        ({
            let here = clearance_of(g, cap, x, y);
            let side = g.resolution.narrow();
            &&& x + 1 < g.width ==> here.le(clearance_of(g, cap, x + 1, y).plus(side))
            &&& y + 1 < g.height ==> here.le(clearance_of(g, cap, x, y + 1).plus(side))
            &&& x + 1 < g.width && y + 1 < g.height ==> here.le(
                clearance_of(g, cap, x + 1, y + 1).plus(diagonal(g)),
            )
            &&& x > 0 && y + 1 < g.height ==> here.le(
                clearance_of(g, cap, x - 1, y + 1).plus(diagonal(g)),
            )
        }),
{
    lemma_diagonal_counts(g);
    lemma_around(g, cap, x, y);
    lemma_above(g, x, y);
    let side = g.resolution.narrow();
    lemma_around(g, cap, x + 1, y);
    lemma_around(g, cap, x, y + 1);
    lemma_around(g, cap, x + 1, y + 1);
    lemma_around(g, cap, x - 1, y + 1);
    lemma_plus_counts(from_around(g, cap, x + 1, y), side);
    lemma_plus_counts(from_around(g, cap, x, y + 1), side);
    lemma_plus_counts(from_around(g, cap, x + 1, y + 1), diagonal(g));
    lemma_plus_counts(from_around(g, cap, x - 1, y + 1), diagonal(g));
}

} // verus!
