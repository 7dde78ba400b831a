//! Hybrid A*: a search over poses with the motion primitives of the bicycle
//! model, forward and in reverse.
use crate::geometry::distance;
use crate::global_planner::clearance::ClearanceField;
use crate::global_planner::config::HybridAStarConfig;
use crate::global_planner::escape::{
    pose_blocked, start_escape_zone, wedged, EscapeZone, PhysicalObstacle,
};
use crate::global_planner::grid::{lemma_place, OccupancyGrid};
use crate::global_planner::open_list::{Entry, OpenList};
use crate::global_planner::reeds_shepp::{connect, connection, law_connection_ends};
use crate::global_planner::{PathWaypoint, Pose, SegmentDir};
use crate::ieee::double::Double;
use crate::trig::{
    cos, cosine, functional, normalize_angle, sin, sine, tan, tangent, trig_of, Circular, Trig,
};
use std::collections::HashSet;
use vstd::multiset::Multiset;
use vstd::prelude::*;
use vstd::std_specs::hash::group_hash_axioms;

verus! {

/// A node of the search tree.
#[derive(Clone, Copy, Debug)]
pub struct Node {
    pub x: Double,
    pub y: Double,
    pub theta: Double,
    pub g_cost: Double,
    pub f_cost: Double,
    pub steering: Double,
    /// Direction in which the node was reached.
    pub dir: SegmentDir,
    pub parent_idx: Option<usize>,
}

/// Statistics of a search.
#[derive(Clone, Copy, Debug)]
pub struct PlanStats {
    /// Nodes taken from the open list.
    pub iterations: usize,
    /// Analytic connections tried.
    pub rs_attempts: usize,
    /// The path ends in an analytic connection.
    pub rs_connected: bool,
}

impl Default for PlanStats {
    fn default() -> (r: PlanStats)
        ensures
            r == PlanStats::none(),
    {
        PlanStats { iterations: 0, rs_attempts: 0, rs_connected: false }
    }
}

impl PlanStats {
    pub open spec fn none() -> PlanStats {
        PlanStats { iterations: 0, rs_attempts: 0, rs_connected: false }
    }
}

/// An analytic connection is tried from the first node near the goal, and from
/// every one that comes this many after one that was tried.
pub const RS_ATTEMPT_STRIDE: usize = 5;

/// Weight of the heading in the estimated cost: 0.3.
pub open spec fn spec_heading_weight() -> Double {
    Double { bits: 0x3fd3_3333_3333_3333 }
}

#[verifier::when_used_as_spec(spec_heading_weight)]
pub fn heading_weight() -> (r: Double)
    ensures
        r == spec_heading_weight(),
{
    Double { bits: 0x3fd3_3333_3333_3333 }
}

/// Estimated cost to the goal: distance, and a penalty on the heading.
pub open spec fn spec_heuristic(x: Double, y: Double, theta: Double, goal: &Pose) -> Double {
    distance(goal.x, goal.y, x, y).plus(
        heading_weight().times(normalize_angle(theta.minus(goal.theta)).abs()),
    )
}

#[verifier::when_used_as_spec(spec_heuristic)]
pub fn heuristic(x: Double, y: Double, theta: Double, goal: &Pose) -> (r: Double)
    ensures
        r == spec_heuristic(x, y, theta, goal),
{
    distance(goal.x, goal.y, x, y).plus(
        heading_weight().times(normalize_angle(theta.minus(goal.theta)).abs()),
    )
}

/// A cell of the search space as one number.
pub open spec fn spec_packed(key: (i32, i32, i32, u8)) -> u128 {
    ((((key.0 + 0x8000_0000) * 0x1_0000_0000 + (key.1 + 0x8000_0000)) * 0x1_0000_0000 + (key.2
        + 0x8000_0000)) * 0x100 + key.3) as u128
}

#[verifier::when_used_as_spec(spec_packed)]
pub fn packed(key: (i32, i32, i32, u8)) -> (r: u128)
    ensures
        r == spec_packed(key),
{
    let a = (key.0 as i64 + 0x8000_0000) as u128;
    let b = (key.1 as i64 + 0x8000_0000) as u128;
    let c = (key.2 as i64 + 0x8000_0000) as u128;
    ((a * 0x1_0000_0000 + b) * 0x1_0000_0000 + c) * 0x100 + key.3 as u128
}

/// Different cells have different numbers.
pub proof fn law_packed_is_injective(a: (i32, i32, i32, u8), b: (i32, i32, i32, u8))
    requires
        packed(a) == packed(b),
    ensures
        a == b,
{
}

/// What is searched: from where, to where, and through what.
#[derive(Clone, Copy)]
pub struct Task<'a, 'b> {
    pub start: &'a Pose,
    pub goal: &'a Pose,
    pub grid: &'a OccupancyGrid,
    pub clearance: Option<&'a ClearanceField>,
    pub escape: Option<&'a EscapeZone<'b>>,
}

impl<'a, 'b> Task<'a, 'b> {
    pub open spec fn wf(self) -> bool {
        &&& self.grid.wf()
        &&& self.clearance matches Some(f) ==> f.wf()
    }
}

/// The state of a search.
pub struct Search {
    pub nodes: Seq<Node>,
    pub open: Multiset<Entry>,
    pub closed: Set<u128>,
    /// Nodes near the goal before the next analytic connection is tried.
    pub countdown: usize,
    pub stats: PlanStats,
}

/// What a search returns.
pub type Found = (Option<Seq<PathWaypoint>>, PlanStats);

/// The waypoints of a path, if there is one.
pub open spec fn contents(path: Option<Vec<PathWaypoint>>) -> Option<Seq<PathWaypoint>> {
    match path {
        Some(p) => Some(p@),
        None => None,
    }
}

/// What one node taken from the open list leads to.
pub enum Progress {
    Done(Found),
    On(Search),
}

/// Every parent comes before its child.
pub open spec fn is_tree(nodes: Seq<Node>) -> bool {
    forall|i: int|
        0 <= i < nodes.len() ==> ((#[trigger] nodes[i]).parent_idx matches Some(p) ==> p < i)
}

/// The entry may be taken next: as long as all costs are numbers, no other
/// costs less.
pub open spec fn may_take(open: Multiset<Entry>, e: Entry) -> bool {
    &&& open.contains(e)
    &&& (forall|x: Entry| #[trigger] open.contains(x) ==> !x.f_cost.nan()) ==> (forall|x: Entry|
        #[trigger]
        open.contains(x) ==> !x.f_cost.lt(e.f_cost))
}

pub open spec fn waypoint(n: Node) -> PathWaypoint {
    PathWaypoint { x: n.x, y: n.y, theta: n.theta, steering: n.steering, dir: n.dir }
}

/// The waypoints from the root to a node.
pub open spec fn branch(nodes: Seq<Node>, i: int) -> Seq<PathWaypoint>
    decreases i,
{
    match nodes[i].parent_idx {
        Some(p) if 0 <= p < i => branch(nodes, p as int).push(waypoint(nodes[i])),
        _ => seq![waypoint(nodes[i])],
    }
}

/// The path with the direction of its first segment on its first waypoint, so
/// that the direction changes between waypoints at cusps and nowhere else.
pub open spec fn headed(path: Seq<PathWaypoint>) -> Seq<PathWaypoint> {
    if path.len() > 1 {
        path.update(0, PathWaypoint { dir: path[1].dir, ..path[0] })
    } else {
        path
    }
}

/// The path to a node.
pub open spec fn path_to(nodes: Seq<Node>, i: int) -> Seq<PathWaypoint> {
    headed(branch(nodes, i))
}

pub struct HybridAStar {
    pub config: HybridAStarConfig,
    pub steer_angles: Vec<Double>,
}

/// The `i`-th of the steering angles, spread evenly from side to side.
pub open spec fn steer_angle(config: &HybridAStarConfig, i: int) -> Double {
    let n = config.num_steer_angles as u64;
    if n == 1 {
        Double::zero()
    } else {
        config.max_steering_angle.negate().plus(
            Double::of(2).times(config.max_steering_angle).times(Double::of(i as u64)).over(
                Double::of(n).minus(Double::one()),
            ),
        )
    }
}

impl HybridAStar {
    pub fn new(config: HybridAStarConfig) -> (r: HybridAStar)
        ensures
            r.config == config,
            r.steer_angles@ == Seq::new(
                config.num_steer_angles as nat,
                |i: int| steer_angle(&config, i),
            ),
    {
        let n = config.num_steer_angles;
        let mut steer_angles: Vec<Double> = Vec::new();
        let mut i: usize = 0;
        while i < n
            invariant
                n == config.num_steer_angles,
                i <= n,
                steer_angles@.len() == i,
                forall|j: int| 0 <= j < i ==> #[trigger] steer_angles@[j] == steer_angle(&config, j),
            decreases n - i,
        {
            let a = if n == 1 {
                Double::zero()
            } else {
                config.max_steering_angle.negate().plus(
                    Double::of(2).times(config.max_steering_angle).times(Double::of(i as u64)).over(
                        Double::of(n as u64).minus(Double::one()),
                    ),
                )
            };
            steer_angles.push(a);
            i = i + 1;
        }
        assert(steer_angles@ =~= Seq::new(n as nat, |i: int| steer_angle(&config, i)));
        HybridAStar { config, steer_angles }
    }

    /// The clearance layer is in use.
    pub open spec fn uses_clearance(self) -> bool {
        Double::zero().lt(self.config.clearance_cost_weight) && Double::zero().lt(
            self.config.clearance_decay_m,
        )
    }

    /// The clearance field of a grid, if the clearance layer is in use. One
    /// field serves planning, smoothing and cost.
    pub fn build_clearance(&self, grid: &OccupancyGrid) -> (r: Option<ClearanceField>)
        requires
            grid.wf(),
        ensures
            r is Some <==> self.uses_clearance(),
            r matches Some(f) ==> f.of_grid(grid, self.config.clearance_decay_m),
    {
        if Double::zero().lt(self.config.clearance_cost_weight) && Double::zero().lt(
            self.config.clearance_decay_m,
        ) {
            Some(ClearanceField::build(grid, self.config.clearance_decay_m))
        } else {
            None
        }
    }

    /// Signed length of a primitive.
    pub open spec fn spec_stride(&self, dir: SegmentDir) -> Double {
        self.config.step_size.times(dir.sign())
    }

    #[verifier::when_used_as_spec(spec_stride)]
    pub fn stride(&self, dir: SegmentDir) -> (r: Double)
        ensures
            r == self.spec_stride(dir),
    {
        self.config.step_size.times(dir.sign())
    }

    /// Turn of the heading over a primitive. In reverse the same steering swings
    /// the heading the other way.
    pub open spec fn swing(self, t: Trig, steer: Double, dir: SegmentDir) -> Double {
        self.stride(dir).over(self.config.wheelbase).times(tangent(t, steer))
    }

    /// The pose a stride further, with the heading turned on the way.
    pub open spec fn swept(
        t: Trig,
        x: Double,
        y: Double,
        theta: Double,
        d: Double,
        dtheta: Double,
    ) -> (Double, Double, Double) {
        let mid = theta.plus(dtheta.times(Double::half()));
        (
            x.plus(d.times(cosine(t, mid))),
            y.plus(d.times(sine(t, mid))),
            normalize_angle(theta.plus(dtheta)),
        )
    }

    /// The pose one primitive further.
    pub open spec fn stepped(
        self,
        t: Trig,
        x: Double,
        y: Double,
        theta: Double,
        steer: Double,
        dir: SegmentDir,
    ) -> (Double, Double, Double) {
        HybridAStar::swept(t, x, y, theta, self.stride(dir), self.swing(t, steer, dir))
    }

    fn sweep<M: Fn(Circular, Double, Double) -> Double>(
        m: &M,
        x: Double,
        y: Double,
        theta: Double,
        d: Double,
        dtheta: Double,
    ) -> (r: (Double, Double, Double))
        requires
            functional(m),
        ensures
            r == HybridAStar::swept(trig_of(m), x, y, theta, d, dtheta),
    {
        let mid = theta.plus(dtheta.times(Double::half()));
        let new_x = x.plus(d.times(cos(m, mid)));
        let new_y = y.plus(d.times(sin(m, mid)));
        (new_x, new_y, normalize_angle(theta.plus(dtheta)))
    }

    pub fn bicycle_step<M: Fn(Circular, Double, Double) -> Double>(
        &self,
        m: &M,
        x: Double,
        y: Double,
        theta: Double,
        steer: Double,
        dir: SegmentDir,
    ) -> (r: (Double, Double, Double))
        requires
            functional(m),
        ensures
            r == self.stepped(trig_of(m), x, y, theta, steer, dir),
    {
        let d = self.stride(dir);
        let dtheta = d.over(self.config.wheelbase).times(tan(m, steer));
        HybridAStar::sweep(m, x, y, theta, d, dtheta)
    }

    /// The turns of the primitives in a direction, angle by angle. They are the
    /// same for every node.
    fn swings<M: Fn(Circular, Double, Double) -> Double>(&self, m: &M, dir: SegmentDir) -> (r: Vec<
        Double,
    >)
        requires
            functional(m),
        ensures
            self.has_swings(trig_of(m), dir, r@),
    {
        let d = self.stride(dir);
        let n = self.steer_angles.len();
        let mut r: Vec<Double> = Vec::new();
        let mut k: usize = 0;
        while k < n
            invariant
                functional(m),
                n == self.steer_angles@.len(),
                k <= n,
                d == self.stride(dir),
                r@.len() == k,
                forall|i: int|
                    0 <= i < k ==> #[trigger] r@[i] == self.swing(
                        trig_of(m),
                        self.steer_angles@[i],
                        dir,
                    ),
            decreases n - k,
        {
            r.push(d.over(self.config.wheelbase).times(tan(m, self.steer_angles[k])));
            k = k + 1;
        }
        r
    }

    /// The turns of the primitives in a direction.
    pub open spec fn has_swings(self, t: Trig, dir: SegmentDir, swings: Seq<Double>) -> bool {
        &&& swings.len() == self.steer_angles@.len()
        &&& forall|i: int|
            0 <= i < swings.len() ==> #[trigger] swings[i] == self.swing(
                t,
                self.steer_angles@[i],
                dir,
            )
    }

    pub open spec fn spec_discretize(
        &self,
        x: Double,
        y: Double,
        theta: Double,
        dir: SegmentDir,
    ) -> (i32, i32, i32, u8) {
        (
            x.over(self.config.xy_resolution).round(),
            y.over(self.config.xy_resolution).round(),
            normalize_angle(theta).over(self.config.theta_resolution).round(),
            match dir {
                SegmentDir::Forward => 0u8,
                SegmentDir::Reverse => 1u8,
            },
        )
    }

    /// The cell of the search space that holds a pose. The direction of arrival
    /// is part of it: going on in that direction is free, turning round is not.
    #[verifier::when_used_as_spec(spec_discretize)]
    pub fn discretize(&self, x: Double, y: Double, theta: Double, dir: SegmentDir) -> (r: (
        i32,
        i32,
        i32,
        u8,
    ))
        ensures
            r == self.spec_discretize(x, y, theta, dir),
    {
        let gx = x.over(self.config.xy_resolution).round();
        let gy = y.over(self.config.xy_resolution).round();
        let gt = normalize_angle(theta).over(self.config.theta_resolution).round();
        (
            gx,
            gy,
            gt,
            match dir {
                SegmentDir::Forward => 0u8,
                SegmentDir::Reverse => 1u8,
            },
        )
    }

    /// Directions of travel.
    pub open spec fn directions(self) -> Seq<SegmentDir> {
        if self.config.reverse_enabled {
            seq![SegmentDir::Forward, SegmentDir::Reverse]
        } else {
            seq![SegmentDir::Forward]
        }
    }

    /// Cost of being close to obstacles for the length of a primitive.
    pub open spec fn proximity_cost(self, task: Task, x: Double, y: Double) -> Double {
        match task.clearance {
            None => Double::zero(),
            Some(c) => {
                let d = c.distance_at(x, y);
                let decay = self.config.clearance_decay_m;
                if d.lt(decay) {
                    self.config.clearance_cost_weight.times(self.config.step_size).times(
                        Double::one().minus(d.over(decay)),
                    )
                } else {
                    Double::zero()
                }
            },
        }
    }

    /// Cost of a primitive: its length, more in reverse, half its steering, the
    /// proximity of obstacles, and a change of direction.
    pub open spec fn step_cost(
        self,
        task: Task,
        from: SegmentDir,
        dir: SegmentDir,
        steer: Double,
        x: Double,
        y: Double,
    ) -> Double {
        let travel = match dir {
            SegmentDir::Forward => self.config.step_size,
            SegmentDir::Reverse => self.config.step_size.times(self.config.reverse_cost_multiplier),
        };
        let switch = if dir != from {
            self.config.direction_switch_penalty
        } else {
            Double::zero()
        };
        travel.plus(Double::half().times(steer.abs())).plus(
            self.proximity_cost(task, x, y),
        ).plus(switch)
    }

    fn primitive_cost(
        &self,
        task: &Task,
        from: SegmentDir,
        dir: SegmentDir,
        steer: Double,
        x: Double,
        y: Double,
    ) -> (r: Double)
        requires
            task.wf(),
        ensures
            r == self.step_cost(*task, from, dir, steer, x, y),
    {
        let proximity = match task.clearance {
            None => Double::zero(),
            Some(c) => {
                let d = c.distance_at(x, y);
                let decay = self.config.clearance_decay_m;
                if d.lt(decay) {
                    self.config.clearance_cost_weight.times(self.config.step_size).times(
                        Double::one().minus(d.over(decay)),
                    )
                } else {
                    Double::zero()
                }
            },
        };
        let travel = match dir {
            SegmentDir::Forward => self.config.step_size,
            SegmentDir::Reverse => self.config.step_size.times(self.config.reverse_cost_multiplier),
        };
        let switch = if dir != from {
            self.config.direction_switch_penalty
        } else {
            Double::zero()
        };
        travel.plus(Double::half().times(steer.abs())).plus(proximity).plus(switch)
    }

    /// The node at a pose that a primitive leads to.
    pub open spec fn arrived(
        self,
        task: Task,
        node: Node,
        idx: usize,
        steer: Double,
        dir: SegmentDir,
        at: (Double, Double, Double),
    ) -> Node {
        let (x, y, theta) = at;
        let g = node.g_cost.plus(self.step_cost(task, node.dir, dir, steer, x, y));
        Node {
            x,
            y,
            theta: normalize_angle(theta),
            g_cost: g,
            f_cost: g.plus(heuristic(x, y, theta, task.goal)),
            steering: steer,
            dir,
            parent_idx: Some(idx),
        }
    }

    /// The pose lies on a blocked place or in a closed cell.
    pub open spec fn refused(
        self,
        task: Task,
        closed: Set<u128>,
        dir: SegmentDir,
        at: (Double, Double, Double),
    ) -> bool {
        let (x, y, theta) = at;
        pose_blocked(task.grid, task.escape, x, y) || closed.contains(
            packed(self.discretize(x, y, theta, dir)),
        )
    }

    /// The node that a primitive leads to.
    pub open spec fn child(
        self,
        t: Trig,
        task: Task,
        node: Node,
        idx: usize,
        steer: Double,
        dir: SegmentDir,
    ) -> Node {
        let at = self.stepped(t, node.x, node.y, node.theta, steer, dir);
        self.arrived(task, node, idx, steer, dir, at)
    }

    /// The primitive leads to a blocked place or a closed cell.
    pub open spec fn dropped(
        self,
        t: Trig,
        task: Task,
        closed: Set<u128>,
        node: Node,
        steer: Double,
        dir: SegmentDir,
    ) -> bool {
        self.refused(
            task,
            closed,
            dir,
            self.stepped(t, node.x, node.y, node.theta, steer, dir),
        )
    }

    /// The state after the first `q` primitives of a node: direction by
    /// direction, angle by angle.
    pub open spec fn expanded(self, t: Trig, task: Task, s: Search, idx: usize, q: int) -> Search
        decreases q,
    {
        if q <= 0 {
            s
        } else {
            let b = self.expanded(t, task, s, idx, q - 1);
            let n = self.steer_angles@.len() as int;
            let steer = self.steer_angles@[(q - 1) % n];
            let dir = self.directions()[(q - 1) / n];
            let node = s.nodes[idx as int];
            if self.dropped(t, task, s.closed, node, steer, dir) {
                b
            } else {
                let c = self.child(t, task, node, idx, steer, dir);
                Search {
                    nodes: b.nodes.push(c),
                    open: b.open.insert(Entry { f_cost: c.f_cost, idx: b.nodes.len() as usize }),
                    ..b
                }
            }
        }
    }

    /// Number of primitives of a node.
    pub open spec fn fan(self) -> int {
        (self.directions().len() * self.steer_angles@.len()) as int
    }

    /// Distance of a node from the goal.
    pub open spec fn goal_distance(task: Task, node: Node) -> Double {
        distance(task.goal.x, task.goal.y, node.x, node.y)
    }

    /// The node is near enough to the goal.
    pub open spec fn at_goal(self, task: Task, node: Node) -> bool {
        HybridAStar::goal_distance(task, node).lt(
            self.config.xy_resolution.times(Double::of(2)),
        )
    }

    /// The node is near enough for an analytic connection.
    pub open spec fn connectable(self, task: Task, node: Node) -> bool {
        self.config.rs_expansion_enabled && Double::zero().lt(self.config.rs_expansion_radius)
            && HybridAStar::goal_distance(task, node).lt(self.config.rs_expansion_radius)
    }

    /// The analytic connection from a node.
    pub open spec fn tail(self, t: Trig, task: Task, node: Node) -> Option<Seq<PathWaypoint>> {
        connection(
            t,
            &(Pose { x: node.x, y: node.y, theta: node.theta }),
            task.goal,
            tangent(t, self.config.max_steering_angle).over(self.config.wheelbase),
            node.dir,
            &self.config,
            task.grid,
            task.clearance,
            task.escape,
        )
    }

    /// Cell of a node.
    pub open spec fn cell(self, node: Node) -> u128 {
        packed(self.discretize(node.x, node.y, node.theta, node.dir))
    }

    /// The state with the entry taken out and counted.
    pub open spec fn counted(s: Search, e: Entry) -> Search {
        Search {
            open: s.open.remove(e),
            stats: PlanStats { iterations: (s.stats.iterations + 1) as usize, ..s.stats },
            ..s
        }
    }

    /// What an open entry leads to: giving up, a path, or the next state.
    pub open spec fn progress(self, t: Trig, task: Task, s: Search, e: Entry) -> Progress {
        let c = HybridAStar::counted(s, e);
        let node = s.nodes[e.idx as int];
        if c.stats.iterations > self.config.max_iterations {
            Progress::Done((None, c.stats))
        } else if self.at_goal(task, node) {
            Progress::Done((Some(path_to(s.nodes, e.idx as int)), c.stats))
        } else if s.closed.contains(self.cell(node)) {
            Progress::On(c)
        } else {
            let d = Search { closed: s.closed.insert(self.cell(node)), ..c };
            if !self.connectable(task, node) {
                Progress::On(self.expanded(t, task, d, e.idx, self.fan()))
            } else if s.countdown > 0 {
                Progress::On(
                    self.expanded(
                        t,
                        task,
                        Search { countdown: (s.countdown - 1) as usize, ..d },
                        e.idx,
                        self.fan(),
                    ),
                )
            } else {
                let stats = PlanStats {
                    rs_attempts: (c.stats.rs_attempts + 1) as usize,
                    ..c.stats
                };
                match self.tail(t, task, node) {
                    Some(tail) => Progress::Done(
                        (
                            Some(headed(path_to(s.nodes, e.idx as int) + tail.drop_first())),
                            PlanStats { rs_connected: true, ..stats },
                        ),
                    ),
                    None => Progress::On(
                        self.expanded(
                            t,
                            task,
                            Search { countdown: (RS_ATTEMPT_STRIDE - 1) as usize, stats, ..d },
                            e.idx,
                            self.fan(),
                        ),
                    ),
                }
            }
        }
    }

    /// The search may return `found` from the state on: the open list is empty
    /// and there is no path, or some entry that may be taken leads there.
    pub open spec fn leads_to(self, t: Trig, task: Task, s: Search, found: Found) -> bool
        decreases self.config.max_iterations + 1 - s.stats.iterations,
    {
        if s.open.len() == 0 {
            found == (None::<Seq<PathWaypoint>>, s.stats)
        } else {
            exists|e: Entry|
                #![trigger s.open.contains(e)]
                may_take(s.open, e) && match self.progress(t, task, s, e) {
                    Progress::Done(f) => found == f,
                    Progress::On(next) => s.stats.iterations < next.stats.iterations
                        <= self.config.max_iterations && self.leads_to(t, task, next, found),
                }
        }
    }

    /// The state in which a search begins. The start counts as reached forward.
    pub open spec fn beginning(task: Task) -> Search {
        let f = heuristic(task.start.x, task.start.y, task.start.theta, task.goal);
        Search {
            nodes: seq![
                Node {
                    x: task.start.x,
                    y: task.start.y,
                    theta: normalize_angle(task.start.theta),
                    g_cost: Double::zero(),
                    f_cost: f,
                    steering: Double::zero(),
                    dir: SegmentDir::Forward,
                    parent_idx: None,
                },
            ],
            open: Multiset::empty().insert(Entry { f_cost: f, idx: 0 }),
            closed: Set::empty(),
            countdown: 0,
            stats: PlanStats::none(),
        }
    }

    /// The search may return `found`.
    pub open spec fn finds(self, t: Trig, task: Task, found: Found) -> bool {
        self.leads_to(t, task, HybridAStar::beginning(task), found)
    }

    /// Walks from a node back to the root.
    fn reconstruct_path(&self, nodes: &Vec<Node>, goal_idx: usize) -> (r: Vec<PathWaypoint>)
        requires
            is_tree(nodes@),
            goal_idx < nodes@.len(),
        ensures
            r@ == path_to(nodes@, goal_idx as int),
    {
        let mut back: Vec<PathWaypoint> = Vec::new();
        let mut idx = goal_idx;
        let ghost whole = branch(nodes@, goal_idx as int);
        let mut more = true;
        proof {
            assert(back@.reverse() =~= Seq::<PathWaypoint>::empty());
            assert(branch(nodes@, idx as int) + back@.reverse() =~= whole);
        }
        while more
            invariant
                is_tree(nodes@),
                idx < nodes@.len(),
                more ==> branch(nodes@, idx as int) + back@.reverse() == whole,
                !more ==> back@.reverse() == whole,
            decreases idx, (if more { 1int } else { 0int }),
        {
            let node = nodes[idx];
            let wp = PathWaypoint {
                x: node.x,
                y: node.y,
                theta: node.theta,
                steering: node.steering,
                dir: node.dir,
            };
            let ghost before = back@;
            back.push(wp);
            proof {
                assert(back@.reverse() =~= seq![wp] + before.reverse());
            }
            match node.parent_idx {
                Some(p) => {
                    proof {
                        let up = branch(nodes@, p as int);
                        assert(up.push(wp) + before.reverse() =~= up + (seq![wp]
                            + before.reverse()));
                    }
                    idx = p;
                },
                None => {
                    more = false;
                },
            }
        }
        let mut path: Vec<PathWaypoint> = Vec::with_capacity(back.len());
        let n = back.len();
        let mut i: usize = 0;
        while i < n
            invariant
                n == back@.len(),
                back@.reverse() == whole,
                i <= n,
                path@ == whole.take(i as int),
            decreases n - i,
        {
            path.push(back[n - 1 - i]);
            i = i + 1;
            assert(whole.take(i as int) =~= whole.take(i - 1).push(whole[i - 1]));
        }
        assert(path@ =~= whole);
        if path.len() > 1 {
            let mut first = path[0];
            first.dir = path[1].dir;
            path.set(0, first);
        }
        path
    }

    /// The path to a node, gone on with by a connection from there.
    fn join(&self, nodes: &Vec<Node>, idx: usize, tail: &Vec<PathWaypoint>) -> (r: Vec<PathWaypoint>)
        requires
            idx < nodes@.len(),
            is_tree(nodes@),
            tail@.len() >= 2,
        ensures
            r@ == headed(path_to(nodes@, idx as int) + tail@.drop_first()),
    {
        let mut path = self.reconstruct_path(nodes, idx);
        let ghost head = path@;
        let mut k: usize = 1;
        assert(head + tail@.subrange(1, 1) =~= head);
        while k < tail.len()
            invariant
                1 <= k <= tail@.len(),
                path@ == head + tail@.subrange(1, k as int),
            decreases tail@.len() - k,
        {
            path.push(tail[k]);
            k = k + 1;
            assert(head + tail@.subrange(1, k as int) =~= (head + tail@.subrange(1, k - 1)).push(
                tail@[k - 1],
            ));
        }
        assert(tail@.subrange(1, tail@.len() as int) =~= tail@.drop_first());
        let mut first = path[0];
        first.dir = path[1].dir;
        path.set(0, first);
        path
    }

    /// Adds a pose that a primitive leads to to the tree and the open list,
    /// unless it is refused.
    fn arrive(
        &self,
        task: &Task,
        closed: &HashSet<u128>,
        node: &Node,
        idx: usize,
        steer: Double,
        dir: SegmentDir,
        at: (Double, Double, Double),
        nodes: &mut Vec<Node>,
        open: &mut OpenList,
    )
        requires
            task.wf(),
            old(open).wf(),
            idx < old(nodes)@.len(),
            is_tree(old(nodes)@),
            forall|e: Entry| #[trigger]
                old(open).entries().contains(e) ==> e.idx < old(nodes)@.len(),
        ensures
            final(open).wf(),
            is_tree(final(nodes)@),
            forall|e: Entry| #[trigger]
                final(open).entries().contains(e) ==> e.idx < final(nodes)@.len(),
            old(nodes)@.len() <= final(nodes)@.len(),
            ({
                let c = self.arrived(*task, *node, idx, steer, dir, at);
                if self.refused(*task, closed@, dir, at) {
                    final(nodes)@ == old(nodes)@ && final(open).entries() == old(open).entries()
                } else {
                    &&& final(nodes)@ == old(nodes)@.push(c)
                    &&& final(open).entries() == old(open).entries().insert(
                        Entry { f_cost: c.f_cost, idx: old(nodes)@.len() as usize },
                    )
                }
            }),
    {
        broadcast use group_hash_axioms;

        let (x, y, theta) = at;
        if pose_blocked(task.grid, task.escape, x, y) {
            return ;
        }
        let key = packed(self.discretize(x, y, theta, dir));
        if closed.contains(&key) {
            return ;
        }
        let cost = self.primitive_cost(task, node.dir, dir, steer, x, y);
        let g = node.g_cost.plus(cost);
        let f = g.plus(heuristic(x, y, theta, task.goal));
        let place = nodes.len();
        let ghost waiting = open.entries();
        nodes.push(
            Node {
                x,
                y,
                theta: normalize_angle(theta),
                g_cost: g,
                f_cost: f,
                steering: steer,
                dir,
                parent_idx: Some(idx),
            },
        );
        open.push(Entry { f_cost: f, idx: place });
        proof {
            let added = Entry { f_cost: f, idx: place };
            assert forall|e: Entry| #[trigger] open.entries().contains(e) implies e.idx
                < nodes@.len() by {
                assert(waiting.insert(added).count(e) > 0);
                if e != added {
                    assert(waiting.contains(e));
                }
            }
        }
    }

    /// Closes the cell of a node, and tells whether it was closed before.
    fn close(&self, closed: &mut HashSet<u128>, node: &Node) -> (r: bool)
        ensures
            r == old(closed)@.contains(self.cell(*node)),
            final(closed)@ == old(closed)@.insert(self.cell(*node)),
    {
        broadcast use group_hash_axioms;

        let key = packed(self.discretize(node.x, node.y, node.theta, node.dir));
        !closed.insert(key)
    }

    /// Expands a node into the tree and the open list.
    fn expand<M: Fn(Circular, Double, Double) -> Double>(
        &self,
        m: &M,
        task: &Task,
        forward: &Vec<Double>,
        reverse: &Vec<Double>,
        closed: &HashSet<u128>,
        idx: usize,
        nodes: &mut Vec<Node>,
        open: &mut OpenList,
        state: Ghost<Search>,
    )
        requires
            functional(m),
            self.has_swings(trig_of(m), SegmentDir::Forward, forward@),
            self.has_swings(trig_of(m), SegmentDir::Reverse, reverse@),
            task.wf(),
            old(open).wf(),
            state@.nodes == old(nodes)@,
            state@.open == old(open).entries(),
            state@.closed == closed@,
            idx < old(nodes)@.len(),
            is_tree(old(nodes)@),
            forall|e: Entry| #[trigger]
                old(open).entries().contains(e) ==> e.idx < old(nodes)@.len(),
        ensures
            final(open).wf(),
            ({
                let s = self.expanded(trig_of(m), *task, state@, idx, self.fan());
                final(nodes)@ == s.nodes && final(open).entries() == s.open
            }),
            is_tree(final(nodes)@),
            forall|e: Entry| #[trigger]
                final(open).entries().contains(e) ==> e.idx < final(nodes)@.len(),
    {
        broadcast use group_hash_axioms;

        let ghost t = trig_of(m);
        let ghost s0 = state@;
        let node = nodes[idx];
        let n = self.steer_angles.len();
        let dirs: usize = if self.config.reverse_enabled {
            2
        } else {
            1
        };
        let mut d: usize = 0;
        while d < dirs
            invariant
                functional(m),
                t == trig_of(m),
                self.has_swings(t, SegmentDir::Forward, forward@),
                self.has_swings(t, SegmentDir::Reverse, reverse@),
                task.wf(),
                n == self.steer_angles@.len(),
                dirs == self.directions().len(),
                dirs <= 2,
                s0.closed == closed@,
                node == s0.nodes[idx as int],
                d <= dirs,
                open.wf(),
                idx < nodes@.len(),
                is_tree(nodes@),
                forall|e: Entry| #[trigger]
                    open.entries().contains(e) ==> e.idx < nodes@.len(),
                nodes@ == self.expanded(t, *task, s0, idx, d * n).nodes,
                open.entries() == self.expanded(t, *task, s0, idx, d * n).open,
            decreases dirs - d,
        {
            let (dir, swings) = if d == 0 {
                (SegmentDir::Forward, forward)
            } else {
                (SegmentDir::Reverse, reverse)
            };
            let stride = self.stride(dir);
            let mut k: usize = 0;
            while k < n
                invariant
                    functional(m),
                    t == trig_of(m),
                    self.has_swings(t, dir, swings@),
                    stride == self.stride(dir),
                    task.wf(),
                    n == self.steer_angles@.len(),
                    dirs == self.directions().len(),
                    s0.closed == closed@,
                    node == s0.nodes[idx as int],
                    d < dirs,
                    dir == self.directions()[d as int],
                    k <= n,
                    open.wf(),
                    idx < nodes@.len(),
                    is_tree(nodes@),
                    forall|e: Entry| #[trigger]
                        open.entries().contains(e) ==> e.idx < nodes@.len(),
                    nodes@ == self.expanded(t, *task, s0, idx, d * n + k).nodes,
                    open.entries() == self.expanded(t, *task, s0, idx, d * n + k).open,
                decreases n - k,
            {
                proof {
                    lemma_place(n as int, dirs as int, k as int, d as int);
                }
                let steer = self.steer_angles[k];
                let at = HybridAStar::sweep(m, node.x, node.y, node.theta, stride, swings[k]);
                self.arrive(task, closed, &node, idx, steer, dir, at, nodes, open);
                k = k + 1;
            }
            d = d + 1;
            proof {
                assert((d - 1) * n + n == d * n) by (nonlinear_arith);
            }
        }
    }

    /// Searches a path. Within the escape zone the physical check replaces the
    /// grid, for primitives and for the analytic connection alike.
    #[verifier::rlimit(40)]
    pub fn plan_with_escape<M: Fn(Circular, Double, Double) -> Double>(
        &self,
        m: &M,
        start: &Pose,
        goal: &Pose,
        grid: &OccupancyGrid,
        clearance: Option<&ClearanceField>,
        escape: Option<&EscapeZone>,
    ) -> (r: (Option<Vec<PathWaypoint>>, PlanStats))
        requires
            functional(m),
            grid.wf(),
            clearance matches Some(f) ==> f.wf(),
            self.config.max_iterations < usize::MAX,
        ensures
            self.finds(
                trig_of(m),
                (Task { start, goal, grid, clearance, escape }),
                (
                    contents(r.0),
                    r.1,
                ),
            ),
    {
        let ghost t = trig_of(m);
        let task = Task { start, goal, grid, clearance, escape };
        let mut stats = PlanStats { iterations: 0, rs_attempts: 0, rs_connected: false };
        let mut open = OpenList::new();
        let mut nodes: Vec<Node> = Vec::new();
        let mut closed: HashSet<u128> = HashSet::new();
        let kappa_max = tan(m, self.config.max_steering_angle).over(self.config.wheelbase);
        let rs_active = self.config.rs_expansion_enabled && Double::zero().lt(
            self.config.rs_expansion_radius,
        );
        let goal_radius = self.config.xy_resolution.times(Double::of(2));
        let forward = self.swings(m, SegmentDir::Forward);
        let reverse = self.swings(m, SegmentDir::Reverse);
        let mut rs_countdown: usize = 0;
        let f = heuristic(start.x, start.y, start.theta, goal);
        nodes.push(
            Node {
                x: start.x,
                y: start.y,
                theta: normalize_angle(start.theta),
                g_cost: Double::zero(),
                f_cost: f,
                steering: Double::zero(),
                dir: SegmentDir::Forward,
                parent_idx: None,
            },
        );
        open.push(Entry { f_cost: f, idx: 0 });
        let ghost mut s = HybridAStar::beginning(task);
        assert(nodes@ =~= s.nodes);
        assert(closed@ =~= s.closed);
        loop
            invariant
                functional(m),
                t == trig_of(m),
                self.has_swings(t, SegmentDir::Forward, forward@),
                self.has_swings(t, SegmentDir::Reverse, reverse@),
                task.wf(),
                task == (Task { start, goal, grid, clearance, escape }),
                self.config.max_iterations < usize::MAX,
                kappa_max == tangent(t, self.config.max_steering_angle).over(self.config.wheelbase),
                rs_active == (self.config.rs_expansion_enabled && Double::zero().lt(
                    self.config.rs_expansion_radius,
                )),
                goal_radius == self.config.xy_resolution.times(Double::of(2)),
                open.wf(),
                is_tree(nodes@),
                forall|e: Entry| #[trigger]
                    open.entries().contains(e) ==> e.idx < nodes@.len(),
                stats.rs_attempts <= stats.iterations <= self.config.max_iterations,
                s == (Search {
                    nodes: nodes@,
                    open: open.entries(),
                    closed: closed@,
                    countdown: rs_countdown,
                    stats,
                }),
                forall|found: Found| #[trigger]
                    self.leads_to(t, task, s, found) ==> self.finds(t, task, found),
            decreases self.config.max_iterations - stats.iterations,
        {
            let current = match open.pop() {
                Some(e) => e,
                None => {
                    proof {
                        let found: Found = (None, stats);
                        assert(self.leads_to(t, task, s, found));
                    }
                    return (None, stats);
                },
            };
            proof {
                assert(s.open.contains(current));
                assert(s.open.len() > 0);
                assert(may_take(s.open, current));
                assert forall|e: Entry| #[trigger] open.entries().contains(e) implies e.idx
                    < nodes@.len() by {
                    assert(s.open.remove(current).count(e) > 0);
                    assert(s.open.contains(e));
                }
            }
            let ghost before = s;
            stats.iterations = stats.iterations + 1;
            let node = nodes[current.idx];
            if stats.iterations > self.config.max_iterations {
                proof {
                    let found: Found = (None, stats);
                    assert(self.progress(t, task, s, current) == Progress::Done(found));
                    assert(self.leads_to(t, task, s, found));
                }
                return (None, stats);
            }
            let dist = distance(goal.x, goal.y, node.x, node.y);
            if dist.lt(goal_radius) {
                let path = self.reconstruct_path(&nodes, current.idx);
                proof {
                    let found: Found = (Some(path@), stats);
                    assert(self.progress(t, task, s, current) == Progress::Done(found));
                    assert(self.leads_to(t, task, s, found));
                }
                return (Some(path), stats);
            }
            if self.close(&mut closed, &node) {
                proof {
                    assert(closed@ =~= before.closed);
                    s = HybridAStar::counted(before, current);
                    self.lemma_on(t, task, before, current, s);
                }
                continue ;
            }
            if rs_active && dist.lt(self.config.rs_expansion_radius) {
                if rs_countdown == 0 {
                    rs_countdown = RS_ATTEMPT_STRIDE - 1;
                    stats.rs_attempts = stats.rs_attempts + 1;
                    let from = Pose { x: node.x, y: node.y, theta: node.theta };
                    if let Some(tail) = connect(
                        m,
                        &from,
                        goal,
                        kappa_max,
                        node.dir,
                        &self.config,
                        grid,
                        clearance,
                        escape,
                    ) {
                        stats.rs_connected = true;
                        proof {
                            law_connection_ends(
                                t,
                                &from,
                                goal,
                                kappa_max,
                                node.dir,
                                &self.config,
                                grid,
                                clearance,
                                escape,
                            );
                        }
                        let path = self.join(&nodes, current.idx, &tail);
                        proof {
                            let found: Found = (Some(path@), stats);
                            assert(self.progress(t, task, before, current) == Progress::Done(found));
                            assert(self.leads_to(t, task, before, found));
                        }
                        return (Some(path), stats);
                    }
                } else {
                    rs_countdown = rs_countdown - 1;
                }
            }
            let ghost opened = Search {
                nodes: nodes@,
                open: open.entries(),
                closed: closed@,
                countdown: rs_countdown,
                stats,
            };
            self.expand(
                m,
                &task,
                &forward,
                &reverse,
                &closed,
                current.idx,
                &mut nodes,
                &mut open,
                Ghost(opened),
            );
            proof {
                s = self.expanded(t, task, opened, current.idx, self.fan());
                self.lemma_expanded(t, task, opened, current.idx, self.fan());
                self.lemma_on(t, task, before, current, s);
            }
        }
    }

    /// Expansion adds nodes and entries and changes nothing else.
    pub proof fn lemma_expanded(self, t: Trig, task: Task, s: Search, idx: usize, q: int)
        ensures
            ({
                let e = self.expanded(t, task, s, idx, q);
                e.closed == s.closed && e.countdown == s.countdown && e.stats == s.stats
            }),
        decreases q,
    {
        if q > 0 {
            self.lemma_expanded(t, task, s, idx, q - 1);
        }
    }

    /// What the next state may lead to, the state before may lead to.
    proof fn lemma_on(self, t: Trig, task: Task, s: Search, e: Entry, next: Search)
        requires
            may_take(s.open, e),
            s.open.len() > 0,
            self.progress(t, task, s, e) == Progress::On(next),
            s.stats.iterations < next.stats.iterations <= self.config.max_iterations,
        ensures
            forall|found: Found| #[trigger]
                self.leads_to(t, task, next, found) ==> self.leads_to(t, task, s, found),
    {
        assert(s.open.contains(e));
    }

    /// Searches a path on a grid with the given clearance field.
    pub fn plan_with_stats<M: Fn(Circular, Double, Double) -> Double>(
        &self,
        m: &M,
        start: &Pose,
        goal: &Pose,
        grid: &OccupancyGrid,
        clearance: Option<&ClearanceField>,
    ) -> (r: (Option<Vec<PathWaypoint>>, PlanStats))
        requires
            functional(m),
            grid.wf(),
            clearance matches Some(f) ==> f.wf(),
            self.config.max_iterations < usize::MAX,
        ensures
            self.finds(
                trig_of(m),
                (Task { start, goal, grid, clearance, escape: None }),
                (
                    contents(r.0),
                    r.1,
                ),
            ),
    {
        self.plan_with_escape(m, start, goal, grid, clearance, None)
    }

    /// Searches a path on a grid with the given clearance field.
    pub fn plan_with_clearance<M: Fn(Circular, Double, Double) -> Double>(
        &self,
        m: &M,
        start: &Pose,
        goal: &Pose,
        grid: &OccupancyGrid,
        clearance: Option<&ClearanceField>,
    ) -> (r: Option<Vec<PathWaypoint>>)
        requires
            functional(m),
            grid.wf(),
            clearance matches Some(f) ==> f.wf(),
            self.config.max_iterations < usize::MAX,
        ensures
            exists|stats: PlanStats| #[trigger]
                self.finds(
                    trig_of(m),
                    (Task { start, goal, grid, clearance, escape: None }),
                    (
                        contents(r),
                        stats,
                    ),
                ),
    {
        let (path, stats) = self.plan_with_stats(m, start, goal, grid, clearance);
        path
    }

    /// Searches a path on a grid.
    pub fn plan<M: Fn(Circular, Double, Double) -> Double>(
        &self,
        m: &M,
        start: &Pose,
        goal: &Pose,
        grid: &OccupancyGrid,
    ) -> (r: Option<Vec<PathWaypoint>>)
        requires
            functional(m),
            grid.wf(),
            self.config.max_iterations < usize::MAX,
        ensures
            exists|stats: PlanStats, clearance: Option<&ClearanceField>|
                {
                    &&& clearance is Some <==> self.uses_clearance()
                    &&& clearance matches Some(f) ==> f.of_grid(grid, self.config.clearance_decay_m)
                    &&& #[trigger] self.finds(
                        trig_of(m),
                        (Task { start, goal, grid, clearance, escape: None }),
                        (
                            contents(r),
                            stats,
                        ),
                    )
                },
    {
        let clearance = self.build_clearance(grid);
        let field = clearance.as_ref();
        let (path, stats) = self.plan_with_stats(m, start, goal, grid, field);
        path
    }

    /// Searches a path out of whatever pocket the start is in: the escape zone
    /// is found from the obstacles as they are.
    pub fn plan_with_obstacles<M: Fn(Circular, Double, Double) -> Double>(
        &self,
        m: &M,
        start: &Pose,
        goal: &Pose,
        grid: &OccupancyGrid,
        physical: &[PhysicalObstacle],
    ) -> (r: Option<Vec<PathWaypoint>>)
        requires
            functional(m),
            grid.wf(),
            self.config.max_iterations < usize::MAX,
        ensures
            exists|
                stats: PlanStats,
                clearance: Option<&ClearanceField>,
                escape: Option<&EscapeZone>,
            |
                {
                    let radius = self.config.start_escape_radius;
                    &&& clearance is Some <==> self.uses_clearance()
                    &&& clearance matches Some(f) ==> f.of_grid(grid, self.config.clearance_decay_m)
                    &&& escape is Some <==> wedged(grid, physical, start.x, start.y, radius)
                    &&& escape matches Some(z) ==> *z == (EscapeZone {
                        cx: start.x,
                        cy: start.y,
                        radius,
                        obstacles: physical,
                    })
                    &&& #[trigger] self.finds(
                        trig_of(m),
                        (Task { start, goal, grid, clearance, escape }),
                        (
                            contents(r),
                            stats,
                        ),
                    )
                },
    {
        let clearance = self.build_clearance(grid);
        let zone = start_escape_zone(
            grid,
            physical,
            start.x,
            start.y,
            self.config.start_escape_radius,
        );
        let field = clearance.as_ref();
        let escape = zone.as_ref();
        let (path, stats) = self.plan_with_escape(m, start, goal, grid, field, escape);
        path
    }
}

} // verus!
