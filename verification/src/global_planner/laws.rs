//! Laws of the search: what a path that it finds consists of.
use crate::geometry::distance;
use crate::global_planner::escape::pose_blocked;
use crate::global_planner::open_list::Entry;
use crate::global_planner::reeds_shepp::{law_connection_ends, law_connection_is_admitted};
use crate::global_planner::reeds_shepp_laws::law_forward_connection;
use crate::global_planner::search::{
    branch, headed, may_take, path_to, waypoint, Found, HybridAStar, Node, PlanStats, Progress,
    Search, Task, RS_ATTEMPT_STRIDE,
};
use crate::global_planner::{PathWaypoint, Pose, SegmentDir};
use crate::ieee::double::Double;
use crate::trig::{normalize_angle, tangent, Trig};
use vstd::prelude::*;

verus! {

/// The `q`-th primitive leads from one waypoint to the other, and not into an
/// obstacle.
pub open spec fn leads(
    h: HybridAStar,
    t: Trig,
    task: Task,
    a: PathWaypoint,
    b: PathWaypoint,
    q: int,
) -> bool {
    let n = h.steer_angles@.len() as int;
    let (steer, dir) = (h.steer_angles@[q % n], h.directions()[q / n]);
    let (x, y, theta) = h.stepped(t, a.x, a.y, a.theta, steer, dir);
    &&& 0 <= q < h.fan()
    &&& b == (PathWaypoint { x, y, theta: normalize_angle(theta), steering: steer, dir })
    &&& !pose_blocked(task.grid, task.escape, x, y)
}

/// Some primitive leads from one waypoint to the other.
pub open spec fn drives(
    h: HybridAStar,
    t: Trig,
    task: Task,
    a: PathWaypoint,
    b: PathWaypoint,
) -> bool {
    exists|q: int| #[trigger] leads(h, t, task, a, b, q)
}

/// A chain of primitives from the start.
pub open spec fn chain(h: HybridAStar, t: Trig, task: Task, path: Seq<PathWaypoint>) -> bool {
    &&& path.len() >= 1
    &&& path[0].x == task.start.x
    &&& path[0].y == task.start.y
    &&& path[0].theta == normalize_angle(task.start.theta)
    &&& forall|i: int|
        #![trigger path[i]]
        0 < i < path.len() ==> drives(h, t, task, path[i - 1], path[i])
}

/// Which primitives can be driven from a waypoint depends on its pose alone.
proof fn lemma_drives_from_pose(
    h: HybridAStar,
    t: Trig,
    task: Task,
    a: PathWaypoint,
    a2: PathWaypoint,
    b: PathWaypoint,
)
    requires
        drives(h, t, task, a, b),
        (a.x, a.y, a.theta) == (a2.x, a2.y, a2.theta),
    ensures
        drives(h, t, task, a2, b),
{
    let q = choose|q: int| #[trigger] leads(h, t, task, a, b, q);
    assert(leads(h, t, task, a2, b, q));
}

/// The node has a parent from which a primitive leads to it.
pub open spec fn grown(h: HybridAStar, t: Trig, task: Task, nodes: Seq<Node>, i: int) -> bool {
    nodes[i].parent_idx matches Some(p) && p < i && drives(
        h,
        t,
        task,
        waypoint(nodes[p as int]),
        waypoint(nodes[i]),
    )
}

/// The nodes of a search grow from the start, and the open list points to them.
pub open spec fn rooted(h: HybridAStar, t: Trig, task: Task, s: Search) -> bool {
    &&& s.nodes.len() >= 1
    &&& s.nodes[0].parent_idx is None
    &&& s.nodes[0].x == task.start.x
    &&& s.nodes[0].y == task.start.y
    &&& s.nodes[0].theta == normalize_angle(task.start.theta)
    &&& s.nodes[0].dir == SegmentDir::Forward
    &&& forall|i: int|
        #![trigger s.nodes[i]]
        0 < i < s.nodes.len() ==> grown(h, t, task, s.nodes, i)
    &&& forall|e: Entry| #[trigger] s.open.contains(e) ==> e.idx < s.nodes.len()
}

proof fn lemma_branch(h: HybridAStar, t: Trig, task: Task, s: Search, i: int)
    requires
        rooted(h, t, task, s),
        0 <= i < s.nodes.len(),
    ensures
        chain(h, t, task, branch(s.nodes, i)),
        branch(s.nodes, i).last() == waypoint(s.nodes[i]),
        branch(s.nodes, i).len() == 1 ==> branch(s.nodes, i)[0].dir == SegmentDir::Forward,
    decreases i,
{
    if i > 0 {
        assert(grown(h, t, task, s.nodes, i));
        let p = s.nodes[i].parent_idx->0 as int;
        lemma_branch(h, t, task, s, p);
        let up = branch(s.nodes, p);
        let b = branch(s.nodes, i);
        assert(b == up.push(waypoint(s.nodes[i])));
        assert forall|k: int| #![trigger b[k]] 0 < k < b.len() implies drives(
            h,
            t,
            task,
            b[k - 1],
            b[k],
        ) by {
            if k < up.len() {
                assert(b[k] == up[k] && b[k - 1] == up[k - 1]);
            }
        }
    }
}

/// The path to a node is a chain of primitives that ends there.
proof fn lemma_path_to(h: HybridAStar, t: Trig, task: Task, s: Search, i: int)
    requires
        rooted(h, t, task, s),
        0 <= i < s.nodes.len(),
    ensures
        chain(h, t, task, path_to(s.nodes, i)),
        path_to(s.nodes, i).last().x == s.nodes[i].x,
        path_to(s.nodes, i).last().y == s.nodes[i].y,
        path_to(s.nodes, i).last().theta == s.nodes[i].theta,
        path_to(s.nodes, i).len() == 1 ==> path_to(s.nodes, i)[0].dir == SegmentDir::Forward,
{
    lemma_branch(h, t, task, s, i);
    let b = branch(s.nodes, i);
    let p = path_to(s.nodes, i);
    assert forall|k: int| #![trigger p[k]] 0 < k < p.len() implies drives(
        h,
        t,
        task,
        p[k - 1],
        p[k],
    ) by {
        assert(b[k] == p[k]);
        lemma_drives_from_pose(h, t, task, b[k - 1], p[k - 1], b[k]);
    }
}

proof fn lemma_expanded_rooted(
    h: HybridAStar,
    t: Trig,
    task: Task,
    s: Search,
    idx: usize,
    q: int,
)
    requires
        rooted(h, t, task, s),
        idx < s.nodes.len(),
        q <= h.fan(),
    ensures
        rooted(h, t, task, h.expanded(t, task, s, idx, q)),
        h.expanded(t, task, s, idx, q).nodes.len() >= s.nodes.len(),
        forall|i: int|
            0 <= i < s.nodes.len() ==> #[trigger] h.expanded(t, task, s, idx, q).nodes[i]
                == s.nodes[i],
        h.expanded(t, task, s, idx, q).stats == s.stats,
    decreases q,
{
    if q > 0 {
        lemma_expanded_rooted(h, t, task, s, idx, q - 1);
        let b = h.expanded(t, task, s, idx, q - 1);
        let e = h.expanded(t, task, s, idx, q);
        let n = h.steer_angles@.len() as int;
        let steer = h.steer_angles@[(q - 1) % n];
        let dir = h.directions()[(q - 1) / n];
        let node = s.nodes[idx as int];
        if !h.dropped(t, task, s.closed, node, steer, dir) {
            let c = h.child(t, task, node, idx, steer, dir);
            assert(e.nodes == b.nodes.push(c));
            assert(leads(h, t, task, waypoint(node), waypoint(c), q - 1));
            assert forall|i: int| #![trigger e.nodes[i]] 0 < i < e.nodes.len() implies grown(
                h,
                t,
                task,
                e.nodes,
                i,
            ) by {
                if i < b.nodes.len() {
                    assert(e.nodes[i] == b.nodes[i]);
                    assert(grown(h, t, task, b.nodes, i));
                    assert(e.nodes[b.nodes[i].parent_idx->0 as int]
                        == b.nodes[b.nodes[i].parent_idx->0 as int]);
                } else {
                    assert(e.nodes[idx as int] == node);
                }
            }
            let added = Entry { f_cost: c.f_cost, idx: b.nodes.len() as usize };
            assert(e.open == b.open.insert(added));
            assert forall|x: Entry| #[trigger] e.open.contains(x) implies x.idx
                < e.nodes.len() by {
                if x != added {
                    assert(b.open.count(x) > 0);
                    assert(b.open.contains(x));
                }
            }
        }
    }
}

/// A path that a search may return: a chain of primitives up to near the goal,
/// or one that goes over into an analytic connection to the very goal.
pub open spec fn arrives(h: HybridAStar, t: Trig, task: Task, path: Seq<PathWaypoint>) -> bool {
    ||| chain(h, t, task, path) && distance(
        task.goal.x,
        task.goal.y,
        path.last().x,
        path.last().y,
    ).lt(h.config.xy_resolution.times(Double::of(2)))
    ||| exists|k: int| #[trigger] connects(h, t, task, path, k)
}

/// The first `k` waypoints are a chain of primitives, and from the last of them
/// an analytic connection leads to the goal.
pub open spec fn connects(
    h: HybridAStar,
    t: Trig,
    task: Task,
    path: Seq<PathWaypoint>,
    k: int,
) -> bool {
    &&& 1 <= k < path.len()
    &&& chain(h, t, task, path.subrange(0, k))
    &&& path.last().x == task.goal.x
    &&& path.last().y == task.goal.y
    &&& path.last().theta == task.goal.theta
    &&& exists|node: Node|
        #![trigger h.tail(t, task, node)]
        (node.x, node.y, node.theta) == (path[k - 1].x, path[k - 1].y, path[k - 1].theta)
            && h.tail(t, task, node) is Some && path.subrange(k, path.len() as int) == h.tail(
            t,
            task,
            node,
        )->0.drop_first()
}

proof fn lemma_headed(path: Seq<PathWaypoint>)
    ensures
        headed(headed(path)) == headed(path),
{
    assert(headed(headed(path)) =~= headed(path));
}

proof fn lemma_tail(h: HybridAStar, t: Trig, task: Task, s: Search, i: int)
    requires
        rooted(h, t, task, s),
        0 <= i < s.nodes.len(),
        h.tail(t, task, s.nodes[i]) is Some,
    ensures
        ({
            let p = path_to(s.nodes, i);
            connects(
                h,
                t,
                task,
                headed(p + h.tail(t, task, s.nodes[i])->0.drop_first()),
                p.len() as int,
            )
        }),
{
    let node = s.nodes[i];
    let p = path_to(s.nodes, i);
    let tail = h.tail(t, task, node)->0;
    let all = headed(p + tail.drop_first());
    lemma_path_to(h, t, task, s, i);
    law_connection_ends(
        t,
        &(Pose { x: node.x, y: node.y, theta: node.theta }),
        task.goal,
        tangent(t, h.config.max_steering_angle).over(h.config.wheelbase),
        node.dir,
        &h.config,
        task.grid,
        task.clearance,
        task.escape,
    );
    let k = p.len() as int;
    let head = all.subrange(0, k);
    assert forall|j: int| #![trigger head[j]] 0 < j < head.len() implies drives(
        h,
        t,
        task,
        head[j - 1],
        head[j],
    ) by {
        assert(head[j] == p[j]);
        lemma_drives_from_pose(h, t, task, p[j - 1], head[j - 1], p[j]);
    }
    assert(all.subrange(k, all.len() as int) == tail.drop_first());
    assert(all.last() == tail.last());
}

proof fn lemma_leads_to(h: HybridAStar, t: Trig, task: Task, s: Search, found: Found)
    requires
        rooted(h, t, task, s),
        h.leads_to(t, task, s, found),
        s.stats.iterations <= h.config.max_iterations,
        h.config.max_iterations < usize::MAX,
    ensures
        found.0 is Some ==> arrives(h, t, task, found.0->0) && headed(found.0->0) == found.0->0,
        found.0 matches Some(p) ==> (p.len() == 1 ==> p[0].dir == SegmentDir::Forward),
        found.1.iterations <= h.config.max_iterations + 1,
        found.0 is Some ==> found.1.iterations <= h.config.max_iterations,
    decreases h.config.max_iterations + 1 - s.stats.iterations,
{
    if s.open.len() > 0 {
        let e = choose|e: Entry|
            #![trigger s.open.contains(e)]
            may_take(s.open, e) && match h.progress(t, task, s, e) {
                Progress::Done(f) => found == f,
                Progress::On(next) => s.stats.iterations < next.stats.iterations
                    <= h.config.max_iterations && h.leads_to(t, task, next, found),
            };
        assert(s.open.contains(e));
        let node = s.nodes[e.idx as int];
        let c = HybridAStar::counted(s, e);
        assert forall|x: Entry| #[trigger] c.open.contains(x) implies x.idx < c.nodes.len() by {
            assert(s.open.count(x) > 0);
            assert(s.open.contains(x));
        }
        assert(rooted(h, t, task, c));
        let d = Search { closed: s.closed.insert(h.cell(node)), ..c };
        assert(rooted(h, t, task, d));
        match h.progress(t, task, s, e) {
            Progress::Done(f) => {
                if f.0 is Some {
                    lemma_headed(branch(s.nodes, e.idx as int));
                    lemma_path_to(h, t, task, s, e.idx as int);
                    if !h.at_goal(task, node) {
                        lemma_tail(h, t, task, s, e.idx as int);
                        lemma_headed(
                            path_to(s.nodes, e.idx as int) + h.tail(
                                t,
                                task,
                                node,
                            )->0.drop_first(),
                        );
                    }
                }
            },
            Progress::On(next) => {
                let stats = PlanStats {
                    rs_attempts: (c.stats.rs_attempts + 1) as usize,
                    ..c.stats
                };
                let again = Search { countdown: (s.countdown - 1) as usize, ..d };
                let failed = Search { countdown: (RS_ATTEMPT_STRIDE - 1) as usize, stats, ..d };
                assert(rooted(h, t, task, again));
                assert(rooted(h, t, task, failed));
                lemma_expanded_rooted(h, t, task, d, e.idx, h.fan());
                lemma_expanded_rooted(h, t, task, again, e.idx, h.fan());
                lemma_expanded_rooted(h, t, task, failed, e.idx, h.fan());
                lemma_leads_to(h, t, task, next, found);
            },
        }
    }
}

/// A path that is found begins at the start. Each waypoint is reached from the
/// one before by a motion primitive that the vehicle can drive and that does
/// not end in an obstacle. It ends near the goal, or goes over into an analytic
/// connection that ends exactly in it. Its first waypoint has the direction of
/// its first segment, or forward where there is none. It is found within the given number of iterations.
pub proof fn law_found_path_arrives(h: HybridAStar, t: Trig, task: Task, found: Found)
    requires
        h.finds(t, task, found),
        h.config.max_iterations < usize::MAX,
    ensures
        found.0 is Some ==> arrives(h, t, task, found.0->0),
        found.0 matches Some(path) ==> path[0].dir == (if path.len() > 1 {
            path[1].dir
        } else {
            SegmentDir::Forward
        }),
        found.0 is Some ==> found.1.iterations <= h.config.max_iterations,
        found.1.iterations <= h.config.max_iterations + 1,
{
    let s = HybridAStar::beginning(task);
    assert forall|e: Entry| #[trigger] s.open.contains(e) implies e.idx < s.nodes.len() by {
        assert(s.open.count(e) > 0);
    }
    lemma_leads_to(h, t, task, s, found);
}

proof fn lemma_chain_is_free(h: HybridAStar, t: Trig, task: Task, path: Seq<PathWaypoint>, i: int)
    requires
        chain(h, t, task, path),
        0 < i < path.len(),
    ensures
        !pose_blocked(task.grid, task.escape, path[i].x, path[i].y),
{
    assert(drives(h, t, task, path[i - 1], path[i]));
    let q = choose|q: int| #[trigger] leads(h, t, task, path[i - 1], path[i], q);
    assert(leads(h, t, task, path[i - 1], path[i], q));
}

proof fn lemma_tail_is_free(h: HybridAStar, t: Trig, task: Task, node: Node)
    requires
        h.tail(t, task, node) is Some,
    ensures
        ({
            let tail = h.tail(t, task, node)->0;
            &&& tail.len() >= 2
            &&& forall|j: int|
                0 < j < tail.len() - 1 ==> !pose_blocked(
                    task.grid,
                    task.escape,
                    (#[trigger] tail[j]).x,
                    tail[j].y,
                )
        }),
{
    let from = Pose { x: node.x, y: node.y, theta: node.theta };
    let kappa = tangent(t, h.config.max_steering_angle).over(h.config.wheelbase);
    let (grid, clearance, escape) = (task.grid, task.clearance, task.escape);
    law_connection_ends(
        t,
        &from,
        task.goal,
        kappa,
        node.dir,
        &h.config,
        grid,
        clearance,
        escape,
    );
    law_connection_is_admitted(
        t,
        &from,
        task.goal,
        kappa,
        node.dir,
        &h.config,
        grid,
        clearance,
        escape,
    );
}

/// The waypoint after the first `k` is the one after the first of the tail.
proof fn lemma_joint(path: Seq<PathWaypoint>, tail: Seq<PathWaypoint>, k: int, i: int)
    requires
        0 <= k <= i < path.len(),
        tail.len() > 0,
        path.subrange(k, path.len() as int) == tail.drop_first(),
    ensures
        tail.len() == path.len() - k + 1,
        path[i] == tail[i - k + 1],
{
    let rest = path.subrange(k, path.len() as int);
    let more = tail.drop_first();
    assert(rest.len() == path.len() - k);
    assert(more.len() == tail.len() - 1);
    assert(rest[i - k] == path[i]);
    assert(more[i - k] == tail[i - k + 1]);
}

proof fn lemma_connection_is_free(
    h: HybridAStar,
    t: Trig,
    task: Task,
    path: Seq<PathWaypoint>,
    k: int,
    i: int,
)
    requires
        connects(h, t, task, path, k),
        0 < i < path.len() - 1,
    ensures
        !pose_blocked(task.grid, task.escape, path[i].x, path[i].y),
{
    if i < k {
        let head = path.subrange(0, k);
        assert(head[i] == path[i]);
        lemma_chain_is_free(h, t, task, head, i);
    } else {
        let node = choose|node: Node|
            #![trigger h.tail(t, task, node)]
            (node.x, node.y, node.theta) == (path[k - 1].x, path[k - 1].y, path[k - 1].theta)
                && h.tail(t, task, node) is Some && path.subrange(k, path.len() as int)
                == h.tail(t, task, node)->0.drop_first();
        lemma_tail_is_free(h, t, task, node);
        lemma_joint(path, h.tail(t, task, node)->0, k, i);
    }
}

/// No waypoint of a path that is found lies on a blocked place. Only the start
/// itself, and a goal that a connection ends in, are taken as they are given.
pub proof fn law_found_path_is_free(h: HybridAStar, t: Trig, task: Task, found: Found)
    requires
        h.finds(t, task, found),
        h.config.max_iterations < usize::MAX,
    ensures
        found.0 matches Some(path) ==> forall|i: int|
            0 < i < path.len() ==> !pose_blocked(
                task.grid,
                task.escape,
                (#[trigger] path[i]).x,
                path[i].y,
            ) || (i == path.len() - 1 && path[i].x == task.goal.x && path[i].y == task.goal.y),
{
    law_found_path_arrives(h, t, task, found);
    if found.0 is Some {
        let path = found.0->0;
        assert forall|i: int| 0 < i < path.len() implies !pose_blocked(
            task.grid,
            task.escape,
            (#[trigger] path[i]).x,
            path[i].y,
        ) || (i == path.len() - 1 && path[i].x == task.goal.x && path[i].y == task.goal.y) by {
            if chain(h, t, task, path) {
                lemma_chain_is_free(h, t, task, path, i);
            } else {
                let k = choose|k: int| #[trigger] connects(h, t, task, path, k);
                if i < path.len() - 1 {
                    lemma_connection_is_free(h, t, task, path, k, i);
                }
            }
        }
    }
}

proof fn lemma_chain_is_forward(
    h: HybridAStar,
    t: Trig,
    task: Task,
    path: Seq<PathWaypoint>,
    i: int,
)
    requires
        chain(h, t, task, path),
        !h.config.reverse_enabled,
        0 < i < path.len(),
    ensures
        path[i].dir == SegmentDir::Forward,
{
    assert(drives(h, t, task, path[i - 1], path[i]));
    let q = choose|q: int| #[trigger] leads(h, t, task, path[i - 1], path[i], q);
    let n = h.steer_angles@.len() as int;
    assert(q / n == 0) by (nonlinear_arith)
        requires
            0 <= q < 1 * n,
    ;
}

proof fn lemma_connection_is_forward(
    h: HybridAStar,
    t: Trig,
    task: Task,
    path: Seq<PathWaypoint>,
    k: int,
    i: int,
)
    requires
        connects(h, t, task, path, k),
        !h.config.reverse_enabled,
        0 < i < path.len(),
    ensures
        path[i].dir == SegmentDir::Forward,
{
    if i < k {
        let head = path.subrange(0, k);
        assert(head[i] == path[i]);
        lemma_chain_is_forward(h, t, task, head, i);
    } else {
        let node = choose|node: Node|
            #![trigger h.tail(t, task, node)]
            (node.x, node.y, node.theta) == (path[k - 1].x, path[k - 1].y, path[k - 1].theta)
                && h.tail(t, task, node) is Some && path.subrange(k, path.len() as int)
                == h.tail(t, task, node)->0.drop_first();
        lemma_tail_is_free(h, t, task, node);
        lemma_joint(path, h.tail(t, task, node)->0, k, i);
        law_forward_connection(
            t,
            &(Pose { x: node.x, y: node.y, theta: node.theta }),
            task.goal,
            tangent(t, h.config.max_steering_angle).over(h.config.wheelbase),
            node.dir,
            &h.config,
            task.grid,
            task.clearance,
            task.escape,
        );
    }
}

/// With reverse switched off a path that is found goes forward all the way.
pub proof fn law_forward_only_search(h: HybridAStar, t: Trig, task: Task, found: Found)
    requires
        h.finds(t, task, found),
        h.config.max_iterations < usize::MAX,
        !h.config.reverse_enabled,
    ensures
        found.0 matches Some(path) ==> forall|i: int|
            0 <= i < path.len() ==> (#[trigger] path[i]).dir == SegmentDir::Forward,
{
    law_found_path_arrives(h, t, task, found);
    if found.0 is Some {
        let path = found.0->0;
        assert forall|i: int| 0 < i < path.len() implies (#[trigger] path[i]).dir
            == SegmentDir::Forward by {
            if chain(h, t, task, path) {
                lemma_chain_is_forward(h, t, task, path, i);
            } else {
                let k = choose|k: int| #[trigger] connects(h, t, task, path, k);
                lemma_connection_is_forward(h, t, task, path, k, i);
            }
        }
    }
}

/// Analytic connections are tried at all.
pub open spec fn tries_connections(h: HybridAStar) -> bool {
    h.config.rs_expansion_enabled && Double::zero().lt(h.config.rs_expansion_radius)
}

/// The statistics while a search goes on.
spec fn counts_up(h: HybridAStar, stats: PlanStats) -> bool {
    &&& !stats.rs_connected
    &&& stats.rs_attempts <= stats.iterations
    &&& !tries_connections(h) ==> stats.rs_attempts == 0
}

/// What the statistics say of what was found.
pub open spec fn accounts_for(h: HybridAStar, task: Task, found: Found) -> bool {
    &&& found.1.rs_attempts <= found.1.iterations
    &&& !tries_connections(h) ==> found.1.rs_attempts == 0 && !found.1.rs_connected
    &&& found.1.rs_connected ==> {
        &&& found.0 is Some
        &&& found.1.rs_attempts > 0
        &&& found.0->0.last().x == task.goal.x
        &&& found.0->0.last().y == task.goal.y
        &&& found.0->0.last().theta == task.goal.theta
    }
}

proof fn lemma_join_ends(h: HybridAStar, t: Trig, task: Task, nodes: Seq<Node>, i: int)
    requires
        h.tail(t, task, nodes[i]) is Some,
    ensures
        ({
            let last = headed(
                path_to(nodes, i) + h.tail(t, task, nodes[i])->0.drop_first(),
            ).last();
            last.x == task.goal.x && last.y == task.goal.y && last.theta == task.goal.theta
        }),
{
    let node = nodes[i];
    law_connection_ends(
        t,
        &(Pose { x: node.x, y: node.y, theta: node.theta }),
        task.goal,
        tangent(t, h.config.max_steering_angle).over(h.config.wheelbase),
        node.dir,
        &h.config,
        task.grid,
        task.clearance,
        task.escape,
    );
    let tail = h.tail(t, task, node)->0;
    let all = path_to(nodes, i) + tail.drop_first();
    assert(path_to(nodes, i).len() >= 1);
    assert(all.last() == tail.last());
    assert(headed(all).last() == all.last());
}

proof fn lemma_accounts(h: HybridAStar, t: Trig, task: Task, s: Search, found: Found)
    requires
        counts_up(h, s.stats),
        h.leads_to(t, task, s, found),
        s.stats.iterations <= h.config.max_iterations,
        h.config.max_iterations < usize::MAX,
    ensures
        accounts_for(h, task, found),
    decreases h.config.max_iterations + 1 - s.stats.iterations,
{
    if s.open.len() > 0 {
        let e = choose|e: Entry|
            #![trigger s.open.contains(e)]
            may_take(s.open, e) && match h.progress(t, task, s, e) {
                Progress::Done(f) => found == f,
                Progress::On(next) => s.stats.iterations < next.stats.iterations
                    <= h.config.max_iterations && h.leads_to(t, task, next, found),
            };
        let node = s.nodes[e.idx as int];
        let c = HybridAStar::counted(s, e);
        match h.progress(t, task, s, e) {
            Progress::Done(f) => {
                if f.1.rs_connected {
                    lemma_join_ends(h, t, task, s.nodes, e.idx as int);
                }
            },
            Progress::On(next) => {
                let d = Search { closed: s.closed.insert(h.cell(node)), ..c };
                let stats = PlanStats {
                    rs_attempts: (c.stats.rs_attempts + 1) as usize,
                    ..c.stats
                };
                let again = Search { countdown: (s.countdown - 1) as usize, ..d };
                let failed = Search { countdown: (RS_ATTEMPT_STRIDE - 1) as usize, stats, ..d };
                h.lemma_expanded(t, task, d, e.idx, h.fan());
                h.lemma_expanded(t, task, again, e.idx, h.fan());
                h.lemma_expanded(t, task, failed, e.idx, h.fan());
                lemma_accounts(h, t, task, next, found);
            },
        }
    }
}

/// The statistics account for what was found: an analytic connection was made
/// only where there is a path, which then ends in the goal pose exactly. No more
/// connections were tried than nodes taken, and none where they are switched off.
pub proof fn law_statistics(h: HybridAStar, t: Trig, task: Task, found: Found)
    requires
        h.finds(t, task, found),
        h.config.max_iterations < usize::MAX,
    ensures
        accounts_for(h, task, found),
{
    lemma_accounts(h, t, task, HybridAStar::beginning(task), found);
}

} // verus!
