//! Cells, zones and where they lie.
use crate::geometry::{distance, distance_squared};
use crate::global_planner::escape::{
    pose_blocked, spec_touches, true_footprint_clearance_m, wedged, EscapeZone, PhysicalObstacle,
};
use crate::global_planner::grid::{cells, OccupancyGrid};
use crate::ieee::double::{lemma_decode_zero, Double};
use crate::ieee::laws::{lemma_rounded_monotone, lemma_rounded_zero, rounded};
use vstd::arithmetic::div_mod::lemma_div_is_ordered;
use vstd::arithmetic::power2::{lemma_pow2_pos, pow2};
use vstd::prelude::*;

verus! {

/// The first cell begins at the origin of its axis, and what matters is the offset from
/// there: places that are offset alike are in cells of the same number. Before the origin
/// there are no cells.
pub proof fn law_cells_count_from_the_origin(
    at: Double,
    origin: Double,
    at2: Double,
    origin2: Double,
    resolution: Double,
)
    requires
        resolution.positive(),
        origin.finite() && at.finite(),
        at2.minus(origin2) == at.minus(origin),
    ensures
        cells(origin, origin, resolution) == 0,
        cells(at2, origin2, resolution) == cells(at, origin, resolution),
        at.minus(origin).over(resolution).key() < 0 ==> cells(at, origin, resolution) == -1,
        origin.le(at) ==> cells(at, origin, resolution) >= 0,
        at.minus(origin) == resolution ==> cells(at, origin, resolution) == 1,
{
    origin.lemma_minus(origin);
    at.lemma_minus(origin);
    lemma_rounded_zero();
    let d = at.minus(origin);
    let z = origin.minus(origin);
    d.lemma_over_side(resolution);
    z.lemma_over_side(resolution);
    z.over(resolution).lemma_whole_of_nothing();
    if origin.le(at) {
        origin.lemma_order(at);
        lemma_rounded_monotone(0, at.value() - origin.value());
        d.over(resolution).lemma_whole_side();
    }
    if d == resolution {
        resolution.lemma_over_itself();
        Double::lemma_whole_of_one();
    }
}

impl Double {
    proof fn lemma_whole_of_nothing(self)
        requires
            self.mag() == 0,
        ensures
            self.truncate() == 0,
    {
        reveal(Double::spec_truncate);
        lemma_decode_zero();
        lemma_pow2_pos(1074);
        assert(0nat / pow2(1074) == 0) by (nonlinear_arith)
            requires
                pow2(1074) > 0,
        ;
    }

    proof fn lemma_whole_side(self)
        requires
            !self.nan() && self.key() >= 0,
        ensures
            self.truncate() >= 0,
    {
        reveal(Double::spec_truncate);
        if self.mag() == 0 {
            self.lemma_whole_of_nothing();
        }
    }

    proof fn lemma_whole_of_one()
        ensures
            Double::one().truncate() == 1,
    {
        reveal(Double::spec_truncate);
        Double::lemma_one();
        lemma_pow2_pos(1074);
        assert(pow2(1074) / pow2(1074) == 1) by (nonlinear_arith)
            requires
                pow2(1074) > 0,
        ;
    }

    proof fn lemma_truncate_order(self, o: Double)
        requires
            self.finite() && o.finite(),
            0 <= self.key() <= o.key(),
        ensures
            self.truncate() <= o.truncate(),
    {
        reveal(Double::spec_truncate);
        self.lemma_order(o);
        lemma_decode_zero();
        lemma_pow2_pos(1074);
        lemma_div_is_ordered(self.units() as int, o.units() as int, pow2(1074) as int);
        if self.mag() == 0 {
            self.lemma_whole_of_nothing();
            o.lemma_whole_side();
        }
    }
}

/// Farther along an axis the cells have higher numbers.
pub proof fn law_cells_go_up(at: Double, farther: Double, origin: Double, resolution: Double)
    requires
        resolution.positive(),
        origin.finite() && at.finite() && farther.finite(),
        origin.le(at) && at.le(farther),
        farther.minus(origin).over(resolution).finite(),
    ensures
        cells(at, origin, resolution) <= cells(farther, origin, resolution),
{
    at.lemma_minus(origin);
    farther.lemma_minus(origin);
    lemma_rounded_zero();
    origin.lemma_order(at);
    at.lemma_order(farther);
    let (x, y) = (at.value() - origin.value(), farther.value() - origin.value());
    lemma_rounded_monotone(0, x);
    lemma_rounded_monotone(x, y);
    let (a, b) = (at.minus(origin), farther.minus(origin));
    Double::lemma_over_monotone(a, b, resolution);
    a.over(resolution).lemma_truncate_order(b.over(resolution));
}

/// One column on, the cell is the next in the data; one row on, it is a whole row later.
pub proof fn law_cells_go_row_by_row(g: OccupancyGrid, x: Double, y: Double, x2: Double, y2: Double)
    requires
        cells(x2, g.origin_x, g.resolution) == cells(x, g.origin_x, g.resolution) + 1,
        cells(y2, g.origin_y, g.resolution) == cells(y, g.origin_y, g.resolution) + 1,
    ensures
        g.place(x2, y) == g.place(x, y) + 1,
        g.place(x, y2) == g.place(x, y) + g.width,
        g.in_bounds(x2, y) ==> cells(x, g.origin_x, g.resolution) + 1 < g.width,
        g.in_bounds(x, y2) ==> cells(y, g.origin_y, g.resolution) + 1 < g.height,
{
    let (r, w) = (g.row(y), g.width as int);
    assert((r + 1) * w == r * w + w) by (nonlinear_arith);
}

/// What touches an obstacle touches a larger one in its place, and nothing touches where
/// it is as far away as the radius and the footprint reach.
pub proof fn law_touching(o: PhysicalObstacle, larger: PhysicalObstacle, x: Double, y: Double)
    requires
        larger.x == o.x && larger.y == o.y,
        o.radius.finite() && larger.radius.finite() && o.radius.le(larger.radius),
    ensures
        spec_touches(o, x, y) ==> spec_touches(larger, x, y),
        !distance(x, y, o.x, o.y).nan() && spec_touches(o, x, y) ==> distance(x, y, o.x, o.y).key()
            < o.radius.plus(
            true_footprint_clearance_m(),
        ).key(),
{
    let c = true_footprint_clearance_m();
    lemma_reach();
    o.radius.lemma_plus(c);
    larger.radius.lemma_plus(c);
    Double::lemma_plus_monotone(o.radius, larger.radius, c, c);
}

proof fn lemma_reach()
    ensures
        true_footprint_clearance_m().finite(),
{
    let (a, b) = (Double::ratio(19, 100), Double::ratio(3, 100));
    Double::lemma_ratio_number(19, 100);
    Double::lemma_ratio_number(3, 100);
    Double::lemma_ratio_le_one(19, 100);
    Double::lemma_ratio_le_one(3, 100);
    let one = Double::one();
    a.lemma_plus(b);
    one.lemma_plus(one);
    a.lemma_plus_nonnegative(b);
    Double::lemma_plus_monotone(a, one, b, one);
    lemma_two();
}

proof fn lemma_two()
    ensures
        Double::one().plus(Double::one()).finite(),
{
    let one = Double::one();
    Double::lemma_of(2);
    one.lemma_plus(one);
    Double::lemma_one();
    assert(one.value() + one.value() == 2 * pow2(1074));
    assert(rounded(2 * pow2(1074) as int) == Double::of(2).key());
}

/// A zone holds its centre, and with a place every nearer one.
pub proof fn law_zone(zone: &EscapeZone, x: Double, y: Double, x2: Double, y2: Double)
    requires
        zone.cx.finite() && zone.cy.finite() && zone.radius.finite(),
    ensures
        zone.contains(zone.cx, zone.cy),
        zone.contains(x, y) && distance_squared(zone.cx, zone.cy, x2, y2).le(
            distance_squared(zone.cx, zone.cy, x, y),
        ) ==> zone.contains(x2, y2),
{
    let r = zone.radius;
    r.lemma_square_opposite(r);
    r.lemma_product_order(r, r, r);
    zone.cx.lemma_taken_away();
    zone.cy.lemma_taken_away();
    let (a, b) = (zone.cx.minus(zone.cx), zone.cy.minus(zone.cy));
    a.lemma_times_zero(a);
    b.lemma_times_zero(b);
    a.square().lemma_plus_nothing(b.square());
}

/// A robot that stands in the margin of an obstacle without touching it is not held there:
/// its own place is free in the zone around it.
pub proof fn law_wedged_robot_is_freed(
    grid: &OccupancyGrid,
    obstacles: &[PhysicalObstacle],
    x: Double,
    y: Double,
    radius: Double,
)
    requires
        wedged(grid, obstacles, x, y, radius),
        grid.in_bounds(x, y),
        x.finite() && y.finite() && radius.finite(),
    ensures
        pose_blocked(grid, None, x, y),
        !pose_blocked(grid, Some(&(EscapeZone { cx: x, cy: y, radius, obstacles })), x, y),
{
    law_zone(&(EscapeZone { cx: x, cy: y, radius, obstacles }), x, y, x, y);
}

} // verus!
