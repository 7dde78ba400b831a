//! What the clearance of a cell is: the cap, or the length of a way from an occupied
//! cell. It is no more than the length of the direct way from any of them, and no less
//! than as many steps in a row as the nearest of them is away.
use crate::global_planner::clearance::{
    any_taken, clearance_of, counts, diagonal, from_above, from_around, lemma_above, lemma_around,
    lemma_diagonal_counts, lemma_plus_counts,
};
use crate::global_planner::grid::{lemma_place, OccupancyGrid};
use crate::ieee::single::Single;
use vstd::prelude::*;

verus! {

/// Column and row of a cell.
pub type Cell = (int, int);

pub open spec fn in_grid(g: &OccupancyGrid, c: Cell) -> bool {
    0 <= c.0 < g.width && 0 <= c.1 < g.height
}

/// The cells share a side or a corner.
pub open spec fn adjacent(a: Cell, b: Cell) -> bool {
    a != b && -1 <= a.0 - b.0 <= 1 && -1 <= a.1 - b.1 <= 1
}

/// The cell comes before the other, row by row.
pub open spec fn precedes(a: Cell, b: Cell) -> bool {
    a.1 < b.1 || (a.1 == b.1 && a.0 < b.0)
}

/// Length of the step between two cells.
pub open spec fn step_length(g: &OccupancyGrid, a: Cell, b: Cell) -> Single {
    if a.0 == b.0 || a.1 == b.1 {
        g.resolution.narrow()
    } else {
        diagonal(g)
    }
}

/// A way over the grid, from cell to adjacent cell, that begins on an occupied one.
pub open spec fn is_way(g: &OccupancyGrid, way: Seq<Cell>) -> bool {
    &&& way.len() > 0
    &&& g.taken(way[0].1 * g.width + way[0].0)
    &&& forall|i: int| 0 <= i < way.len() ==> in_grid(g, #[trigger] way[i])
    &&& forall|i: int| 0 < i < way.len() ==> adjacent(way[i - 1], #[trigger] way[i])
}

/// Length of a way, step by step.
pub open spec fn way_length(g: &OccupancyGrid, way: Seq<Cell>) -> Single
    decreases way.len(),
{
    if way.len() <= 1 {
        Single { bits: 0 }
    } else {
        way_length(g, way.drop_last()).plus(
            step_length(g, way[way.len() - 2], way[way.len() - 1]),
        )
    }
}

/// The way goes on in the order of the rows up to its `k`-th cell, and from there
/// against it.
pub open spec fn turns_once(way: Seq<Cell>, k: int) -> bool {
    &&& 0 <= k < way.len()
    &&& forall|i: int| 0 < i <= k ==> precedes(way[i - 1], #[trigger] way[i])
    &&& forall|i: int| k < i < way.len() ==> precedes(#[trigger] way[i], way[i - 1])
}

/// The number is the length of a way to the cell.
pub open spec fn is_way_to(g: &OccupancyGrid, d: Single, c: Cell, way: Seq<Cell>) -> bool {
    is_way(g, way) && way.last() == c && way_length(g, way) == d
}

/// Some way to the cell has that length.
spec fn reaches(g: &OccupancyGrid, d: Single, c: Cell) -> bool {
    exists|way: Seq<Cell>| #[trigger] is_way_to(g, d, c, way)
}

/// A way to a cell goes on to the cells beside it.
proof fn lemma_goes_on(g: &OccupancyGrid, d: Single, a: Cell, b: Cell)
    requires
        reaches(g, d, a),
        in_grid(g, b),
        adjacent(a, b),
    ensures
        reaches(g, d.plus(step_length(g, a, b)), b),
{
    let way = choose|way: Seq<Cell>| #[trigger] is_way_to(g, d, a, way);
    let next = way.push(b);
    assert(next.drop_last() =~= way);
    assert forall|i: int| 0 < i < next.len() implies adjacent(next[i - 1], #[trigger] next[i]) by {
        if i < way.len() {
            assert(next[i] == way[i]);
        }
    }
    assert forall|i: int| 0 <= i < next.len() implies in_grid(g, #[trigger] next[i]) by {
        if i < way.len() {
            assert(next[i] == way[i]);
        }
    }
    assert(next[0] == way[0]);
    assert(is_way_to(g, d.plus(step_length(g, a, b)), b, next));
}

proof fn lemma_starts(g: &OccupancyGrid, c: Cell)
    requires
        in_grid(g, c),
        g.taken(c.1 * g.width + c.0),
    ensures
        reaches(g, Single { bits: 0 }, c),
{
    assert(is_way_to(g, Single { bits: 0 }, c, seq![c]));
}

/// The number is at least the other, or the length of a way to the cell.
spec fn far_or_reaches(g: &OccupancyGrid, d: Single, c: Cell, cap: Single) -> bool {
    reaches(g, d, c) || cap.le(d)
}

proof fn lemma_candidate(g: &OccupancyGrid, d: Single, a: Cell, b: Cell, cap: Single)
    requires
        !g.resolution.nan() && !g.resolution.negative(),
        counts(cap) && counts(d),
        far_or_reaches(g, d, a, cap),
        in_grid(g, b),
        adjacent(a, b),
    ensures
        far_or_reaches(g, d.plus(step_length(g, a, b)), b, cap),
{
    lemma_diagonal_counts(g);
    if reaches(g, d, a) {
        lemma_goes_on(g, d, a, b);
    } else {
        d.lemma_plus_grows(step_length(g, a, b));
    }
}

proof fn lemma_above_reaches(g: &OccupancyGrid, cap: Single, x: int, y: int)
    requires
        !g.resolution.nan() && !g.resolution.negative(),
        counts(cap),
        in_grid(g, (x, y)),
    ensures
        far_or_reaches(g, from_above(g, x, y), (x, y), cap),
    decreases y, x,
{
    let c = (x, y);
    lemma_diagonal_counts(g);
    if g.taken(y * g.width + x) {
        lemma_starts(g, c);
    }
    if x > 0 {
        lemma_above(g, x - 1, y);
        lemma_above_reaches(g, cap, x - 1, y);
        lemma_candidate(g, from_above(g, x - 1, y), (x - 1, y), c, cap);
    }
    if y > 0 {
        lemma_above(g, x, y - 1);
        lemma_above_reaches(g, cap, x, y - 1);
        lemma_candidate(g, from_above(g, x, y - 1), (x, y - 1), c, cap);
        if x > 0 {
            lemma_above(g, x - 1, y - 1);
            lemma_above_reaches(g, cap, x - 1, y - 1);
            lemma_candidate(g, from_above(g, x - 1, y - 1), (x - 1, y - 1), c, cap);
        }
        if x + 1 < g.width {
            lemma_above(g, x + 1, y - 1);
            lemma_above_reaches(g, cap, x + 1, y - 1);
            lemma_candidate(g, from_above(g, x + 1, y - 1), (x + 1, y - 1), c, cap);
        }
    }
}

proof fn lemma_around_reaches(g: &OccupancyGrid, cap: Single, x: int, y: int)
    requires
        !g.resolution.nan() && !g.resolution.negative(),
        counts(cap),
        in_grid(g, (x, y)),
    ensures
        reaches(g, from_around(g, cap, x, y), (x, y)) || from_around(g, cap, x, y) == cap,
    decreases g.height - y, g.width - x,
{
    let c = (x, y);
    lemma_diagonal_counts(g);
    lemma_above_reaches(g, cap, x, y);
    lemma_above(g, x, y);
    lemma_around(g, cap, x, y);
    if x + 1 < g.width {
        lemma_around(g, cap, x + 1, y);
        lemma_around_reaches(g, cap, x + 1, y);
        lemma_candidate(g, from_around(g, cap, x + 1, y), (x + 1, y), c, cap);
    }
    if y + 1 < g.height {
        lemma_around(g, cap, x, y + 1);
        lemma_around_reaches(g, cap, x, y + 1);
        lemma_candidate(g, from_around(g, cap, x, y + 1), (x, y + 1), c, cap);
        if x + 1 < g.width {
            lemma_around(g, cap, x + 1, y + 1);
            lemma_around_reaches(g, cap, x + 1, y + 1);
            lemma_candidate(g, from_around(g, cap, x + 1, y + 1), (x + 1, y + 1), c, cap);
        }
        if x > 0 {
            lemma_around(g, cap, x - 1, y + 1);
            lemma_around_reaches(g, cap, x - 1, y + 1);
            lemma_candidate(g, from_around(g, cap, x - 1, y + 1), (x - 1, y + 1), c, cap);
        }
    }
}

/// Clearance is the cap or the length of a way from an occupied cell.
pub proof fn law_clearance_is_a_way(g: &OccupancyGrid, cap: Single, x: int, y: int)
    requires
        !g.resolution.nan() && !g.resolution.negative(),
        counts(cap),
        in_grid(g, (x, y)),
    ensures
        ({
            let d = clearance_of(g, cap, x, y);
            d == cap || exists|way: Seq<Cell>| #[trigger] is_way_to(g, d, (x, y), way)
        }),
{
    lemma_around_reaches(g, cap, x, y);
    lemma_around(g, cap, x, y);
}

/// Coming from a cell that precedes it, a cell is no farther than one step more.
proof fn lemma_above_steps(g: &OccupancyGrid, a: Cell, b: Cell)
    requires
        !g.resolution.nan() && !g.resolution.negative(),
        in_grid(g, a) && in_grid(g, b),
        adjacent(a, b) && precedes(a, b),
    ensures
        from_above(g, b.0, b.1).le(from_above(g, a.0, a.1).plus(step_length(g, a, b))),
{
    let (x, y) = b;
    lemma_diagonal_counts(g);
    lemma_above(g, x, y);
    lemma_above(g, a.0, a.1);
    if x > 0 {
        lemma_above(g, x - 1, y);
        lemma_plus_counts(from_above(g, x - 1, y), g.resolution.narrow());
    }
    if y > 0 {
        lemma_above(g, x, y - 1);
        lemma_plus_counts(from_above(g, x, y - 1), g.resolution.narrow());
        if x > 0 {
            lemma_above(g, x - 1, y - 1);
            lemma_plus_counts(from_above(g, x - 1, y - 1), diagonal(g));
        }
        if x + 1 < g.width {
            lemma_above(g, x + 1, y - 1);
            lemma_plus_counts(from_above(g, x + 1, y - 1), diagonal(g));
        }
    }
}

/// Coming from a cell that it precedes, a cell is no farther than one step more.
proof fn lemma_around_steps(g: &OccupancyGrid, cap: Single, a: Cell, b: Cell)
    requires
        !g.resolution.nan() && !g.resolution.negative(),
        counts(cap),
        in_grid(g, a) && in_grid(g, b),
        adjacent(a, b) && precedes(b, a),
    ensures
        from_around(g, cap, b.0, b.1).le(
            from_around(g, cap, a.0, a.1).plus(step_length(g, a, b)),
        ),
{
    let (x, y) = b;
    lemma_diagonal_counts(g);
    lemma_above(g, x, y);
    lemma_around(g, cap, x, y);
    lemma_around(g, cap, a.0, a.1);
    if x + 1 < g.width {
        lemma_around(g, cap, x + 1, y);
        lemma_plus_counts(from_around(g, cap, x + 1, y), g.resolution.narrow());
    }
    if y + 1 < g.height {
        lemma_around(g, cap, x, y + 1);
        lemma_plus_counts(from_around(g, cap, x, y + 1), g.resolution.narrow());
        if x + 1 < g.width {
            lemma_around(g, cap, x + 1, y + 1);
            lemma_plus_counts(from_around(g, cap, x + 1, y + 1), diagonal(g));
        }
        if x > 0 {
            lemma_around(g, cap, x - 1, y + 1);
            lemma_plus_counts(from_around(g, cap, x - 1, y + 1), diagonal(g));
        }
    }
}

proof fn lemma_around_below_above(g: &OccupancyGrid, cap: Single, c: Cell)
    requires
        !g.resolution.nan() && !g.resolution.negative(),
        counts(cap),
        in_grid(g, c),
    ensures
        from_around(g, cap, c.0, c.1).le(from_above(g, c.0, c.1)),
{
    let (x, y) = c;
    lemma_diagonal_counts(g);
    lemma_above(g, x, y);
    lemma_around(g, cap, x, y);
    if x + 1 < g.width {
        lemma_around(g, cap, x + 1, y);
        lemma_plus_counts(from_around(g, cap, x + 1, y), g.resolution.narrow());
    }
    if y + 1 < g.height {
        lemma_around(g, cap, x, y + 1);
        lemma_plus_counts(from_around(g, cap, x, y + 1), g.resolution.narrow());
        if x + 1 < g.width {
            lemma_around(g, cap, x + 1, y + 1);
            lemma_plus_counts(from_around(g, cap, x + 1, y + 1), diagonal(g));
        }
        if x > 0 {
            lemma_around(g, cap, x - 1, y + 1);
            lemma_plus_counts(from_around(g, cap, x - 1, y + 1), diagonal(g));
        }
    }
}

/// The part of a way up to the `n`-th cell.
proof fn lemma_shorter_way(g: &OccupancyGrid, way: Seq<Cell>)
    requires
        is_way(g, way),
        way.len() > 1,
    ensures
        is_way(g, way.drop_last()),
        way.drop_last().last() == way[way.len() - 2],
        adjacent(way[way.len() - 2], way[way.len() - 1]),
        in_grid(g, way[way.len() - 1]) && in_grid(g, way[way.len() - 2]),
{
    let early = way.drop_last();
    assert forall|i: int| 0 <= i < early.len() implies in_grid(g, #[trigger] early[i]) by {
        assert(early[i] == way[i]);
    }
    assert forall|i: int| 0 < i < early.len() implies adjacent(early[i - 1], #[trigger] early[i]) by {
        assert(early[i] == way[i]);
    }
}

proof fn lemma_above_is_least(g: &OccupancyGrid, way: Seq<Cell>)
    requires
        !g.resolution.nan() && !g.resolution.negative(),
        is_way(g, way),
        turns_once(way, way.len() - 1),
    ensures
        from_above(g, way.last().0, way.last().1).le(way_length(g, way)),
        counts(way_length(g, way)),
    decreases way.len(),
{
    let n = way.len();
    let c = way.last();
    lemma_above(g, c.0, c.1);
    lemma_diagonal_counts(g);
    if n > 1 {
        let early = way.drop_last();
        lemma_shorter_way(g, way);
        assert forall|i: int| 0 < i <= early.len() - 1 implies precedes(
            early[i - 1],
            #[trigger] early[i],
        ) by {
            assert(early[i] == way[i]);
        }
        lemma_above_is_least(g, early);
        let a = way[n - 2];
        lemma_above(g, a.0, a.1);
        let step = step_length(g, a, c);
        lemma_above_steps(g, a, c);
        Single::lemma_plus_monotone(from_above(g, a.0, a.1), way_length(g, early), step);
        lemma_plus_counts(way_length(g, early), step);
        lemma_plus_counts(from_above(g, a.0, a.1), step);
    } else {
        assert(way[0] == c);
    }
}

proof fn lemma_around_is_least(g: &OccupancyGrid, cap: Single, way: Seq<Cell>, k: int)
    requires
        !g.resolution.nan() && !g.resolution.negative(),
        counts(cap),
        is_way(g, way),
        turns_once(way, k),
    ensures
        from_around(g, cap, way.last().0, way.last().1).le(way_length(g, way)),
        counts(way_length(g, way)),
    decreases way.len(),
{
    let n = way.len();
    let c = way.last();
    lemma_around(g, cap, c.0, c.1);
    lemma_above(g, c.0, c.1);
    lemma_diagonal_counts(g);
    if k == n - 1 {
        lemma_above_is_least(g, way);
        assert(in_grid(g, way[n - 1]));
        lemma_around_below_above(g, cap, c);
    } else {
        let early = way.drop_last();
        lemma_shorter_way(g, way);
        assert forall|i: int| 0 < i <= k implies precedes(early[i - 1], #[trigger] early[i]) by {
            assert(early[i] == way[i]);
        }
        assert forall|i: int| k < i < early.len() implies precedes(
            #[trigger] early[i],
            early[i - 1],
        ) by {
            assert(early[i] == way[i]);
        }
        lemma_around_is_least(g, cap, early, k);
        let a = way[n - 2];
        lemma_around(g, cap, a.0, a.1);
        let step = step_length(g, a, c);
        assert(precedes(way[n - 1], way[n - 2]));
        lemma_around_steps(g, cap, a, c);
        Single::lemma_plus_monotone(
            from_around(g, cap, a.0, a.1),
            way_length(g, early),
            step,
        );
        lemma_plus_counts(way_length(g, early), step);
        lemma_plus_counts(from_around(g, cap, a.0, a.1), step);
    }
}

/// No way from an occupied cell that turns once in the order of the rows is shorter
/// than the clearance.
pub proof fn law_clearance_is_least(g: &OccupancyGrid, cap: Single, way: Seq<Cell>, k: int)
    requires
        g.wf(),
        !g.resolution.nan() && !g.resolution.negative(),
        counts(cap),
        is_way(g, way),
        turns_once(way, k),
    ensures
        clearance_of(g, cap, way.last().0, way.last().1).le(way_length(g, way)),
{
    let first = way[0];
    assert(in_grid(g, first));
    lemma_place(g.width as int, g.height as int, first.0, first.1);
    assert(any_taken(g));
    let c = way.last();
    lemma_around_is_least(g, cap, way, k);
    lemma_around(g, cap, c.0, c.1);
}

/// From `a`, `i` steps toward `b` and no farther.
pub open spec fn toward(a: int, b: int, i: int) -> int {
    if a <= b {
        if a + i <= b {
            a + i
        } else {
            b
        }
    } else if a - i >= b {
        a - i
    } else {
        b
    }
}

pub open spec fn gap(a: int, b: int) -> int {
    if a <= b {
        b - a
    } else {
        a - b
    }
}

/// Number of steps between two cells, and how many of them go across a corner.
pub open spec fn steps_between(a: Cell, b: Cell) -> (int, int) {
    let (dx, dy) = (gap(a.0, b.0), gap(a.1, b.1));
    if dx <= dy {
        (dy, dx)
    } else {
        (dx, dy)
    }
}

/// The direct way between two cells: downward the steps across corners come first,
/// upward they come last.
pub open spec fn direct(a: Cell, b: Cell) -> Seq<Cell> {
    let n = steps_between(a, b).0;
    Seq::new(
        (n + 1) as nat,
        |i: int|
            if a.1 <= b.1 {
                (toward(a.0, b.0, i), toward(a.1, b.1, i))
            } else {
                (toward(b.0, a.0, n - i), toward(b.1, a.1, n - i))
            },
    )
}

/// Where the direct way turns in the order of the rows.
pub open spec fn turn_of(a: Cell, b: Cell) -> int {
    let (n, m) = steps_between(a, b);
    if a.1 <= b.1 {
        if b.0 < a.0 && gap(a.0, b.0) > m {
            m
        } else {
            n
        }
    } else if a.0 < b.0 && gap(a.0, b.0) > m {
        n - m
    } else {
        0
    }
}

/// A step of the direct way.
proof fn lemma_direct_step(a: Cell, b: Cell, i: int)
    requires
        0 < i <= steps_between(a, b).0,
    ensures
        ({
            let (p, q) = (direct(a, b)[i - 1], direct(a, b)[i]);
            let (n, m) = steps_between(a, b);
            let across = p.0 != q.0 && p.1 != q.1;
            &&& adjacent(p, q)
            &&& across <==> (a.1 <= b.1 && i <= m) || (a.1 > b.1 && i > n - m)
            &&& i <= turn_of(a, b) ==> precedes(p, q)
            &&& i > turn_of(a, b) ==> precedes(q, p)
        }),
{
    let (n, m) = steps_between(a, b);
    let (p, q) = (direct(a, b)[i - 1], direct(a, b)[i]);
    if a.1 <= b.1 {
        assert(p == (toward(a.0, b.0, i - 1), toward(a.1, b.1, i - 1)));
        assert(q == (toward(a.0, b.0, i), toward(a.1, b.1, i)));
    } else {
        assert(p == (toward(b.0, a.0, n - i + 1), toward(b.1, a.1, n - i + 1)));
        assert(q == (toward(b.0, a.0, n - i), toward(b.1, a.1, n - i)));
    }
}

/// The direct way from an occupied cell leads from cell to adjacent cell. It takes
/// as many steps as the cells are columns or rows apart, whichever is more, and the
/// lesser number of them across corners. It turns once in the order of the rows.
pub proof fn law_direct_way(g: &OccupancyGrid, a: Cell, b: Cell)
    requires
        in_grid(g, a) && in_grid(g, b),
        g.taken(a.1 * g.width + a.0),
    ensures
        ({
            let way = direct(a, b);
            let (n, m) = steps_between(a, b);
            &&& is_way(g, way)
            &&& way.last() == b
            &&& way.len() == n + 1
            &&& turns_once(way, turn_of(a, b))
            &&& forall|i: int|
                0 < i <= n ==> step_length(g, way[i - 1], #[trigger] way[i]) == if (a.1 <= b.1
                    && i <= m) || (a.1 > b.1 && i > n - m) {
                    diagonal(g)
                } else {
                    g.resolution.narrow()
                }
        }),
{
    let way = direct(a, b);
    let (n, m) = steps_between(a, b);
    assert(way[0] == a);
    assert(way[n] == b);
    assert forall|i: int| 0 <= i < way.len() implies in_grid(g, #[trigger] way[i]) by {}
    assert forall|i: int| 0 < i < way.len() implies adjacent(way[i - 1], #[trigger] way[i]) by {
        lemma_direct_step(a, b, i);
    }
    let k = turn_of(a, b);
    assert forall|i: int| 0 < i <= k implies precedes(way[i - 1], #[trigger] way[i]) by {
        lemma_direct_step(a, b, i);
    }
    assert forall|i: int| k < i < way.len() implies precedes(#[trigger] way[i], way[i - 1]) by {
        lemma_direct_step(a, b, i);
    }
    assert forall|i: int| 0 < i <= n implies step_length(g, way[i - 1], #[trigger] way[i]) == if (
    a.1 <= b.1 && i <= m) || (a.1 > b.1 && i > n - m) {
        diagonal(g)
    } else {
        g.resolution.narrow()
    } by {
        lemma_direct_step(a, b, i);
    }
}

/// Clearance is no more than the length of the direct way from any occupied cell.
pub proof fn law_clearance_is_direct(g: &OccupancyGrid, cap: Single, a: Cell, b: Cell)
    requires
        g.wf(),
        !g.resolution.nan() && !g.resolution.negative(),
        counts(cap),
        in_grid(g, a) && in_grid(g, b),
        g.taken(a.1 * g.width + a.0),
    ensures
        clearance_of(g, cap, b.0, b.1).le(way_length(g, direct(a, b))),
{
    law_direct_way(g, a, b);
    law_clearance_is_least(g, cap, direct(a, b), turn_of(a, b));
}

/// Length of `n` steps in a row or a column.
pub open spec fn straight_length(g: &OccupancyGrid, n: int) -> Single
    decreases n,
{
    if n <= 0 {
        Single { bits: 0 }
    } else {
        straight_length(g, n - 1).plus(g.resolution.narrow())
    }
}

proof fn lemma_straight_length(g: &OccupancyGrid, n: int, m: int)
    requires
        !g.resolution.nan() && !g.resolution.negative(),
        n <= m,
    ensures
        counts(straight_length(g, m)),
        straight_length(g, n).le(straight_length(g, m)),
    decreases m,
{
    lemma_diagonal_counts(g);
    if m > 0 {
        lemma_straight_length(g, if n < m { n } else { m - 1 }, m - 1);
        let before = straight_length(g, m - 1);
        lemma_plus_counts(before, g.resolution.narrow());
        before.lemma_plus_grows(g.resolution.narrow());
    }
}

/// A step across a corner is no shorter than one across a side.
proof fn lemma_step_length(g: &OccupancyGrid, a: Cell, b: Cell)
    requires
        !g.resolution.nan() && !g.resolution.negative(),
    ensures
        counts(step_length(g, a, b)),
        g.resolution.narrow().le(step_length(g, a, b)),
{
    lemma_diagonal_counts(g);
    g.resolution.narrow().lemma_times_grows(Single { bits: 0x3fb5_04f3 });
}

/// A way has as many steps as its ends are apart, or more, and is no shorter than
/// as many steps in a row.
proof fn lemma_way_is_no_shorter(g: &OccupancyGrid, way: Seq<Cell>)
    requires
        !g.resolution.nan() && !g.resolution.negative(),
        is_way(g, way),
    ensures
        steps_between(way[0], way.last()).0 <= way.len() - 1,
        counts(way_length(g, way)),
        straight_length(g, way.len() - 1).le(way_length(g, way)),
    decreases way.len(),
{
    if way.len() > 1 {
        let early = way.drop_last();
        let (a, b) = (way[way.len() - 2], way[way.len() - 1]);
        let side = g.resolution.narrow();
        assert forall|i: int| 0 <= i < early.len() implies #[trigger] early[i] == way[i] by {}
        lemma_way_is_no_shorter(g, early);
        lemma_step_length(g, a, b);
        lemma_diagonal_counts(g);
        lemma_straight_length(g, way.len() - 2, way.len() - 2);
        let (short, long) = (straight_length(g, way.len() - 2), way_length(g, early));
        lemma_plus_counts(short, side);
        lemma_plus_counts(long, side);
        lemma_plus_counts(long, step_length(g, a, b));
        Single::lemma_plus_monotone(short, long, side);
        Single::lemma_plus_ordered(long, side, step_length(g, a, b));
    }
}

/// Where every occupied cell is at least `n` steps away, clearance is the cap or no
/// less than the length of `n` steps in a row.
pub proof fn law_clearance_is_no_less(g: &OccupancyGrid, cap: Single, x: int, y: int, n: int)
    requires
        !g.resolution.nan() && !g.resolution.negative(),
        counts(cap),
        in_grid(g, (x, y)),
        forall|a: Cell| #[trigger]
            in_grid(g, a) && g.taken(a.1 * g.width + a.0) ==> n <= steps_between(a, (x, y)).0,
    ensures
        ({
            let d = clearance_of(g, cap, x, y);
            d == cap || straight_length(g, n).le(d)
        }),
{
    let d = clearance_of(g, cap, x, y);
    law_clearance_is_a_way(g, cap, x, y);
    if d != cap {
        let way = choose|way: Seq<Cell>| #[trigger] is_way_to(g, d, (x, y), way);
        assert(in_grid(g, way[0]));
        lemma_way_is_no_shorter(g, way);
        lemma_straight_length(g, n, way.len() - 1);
    }
}

} // verus!
