//! What holds of every analytic connection.
use crate::global_planner::clearance::ClearanceField;
use crate::global_planner::config::HybridAStarConfig;
use crate::global_planner::escape::EscapeZone;
use crate::global_planner::grid::OccupancyGrid;
use crate::global_planner::reeds_shepp::{
    candidates, connection, connection_by, first_connection, frame_of, inserted,
    lemma_first_connection, mod2pi_pos, ranked, spec_surroundings, word_cost, words_between,
    words_for, Candidate, Frame, LocalPose, Seg, Surroundings, Word,
};
use crate::global_planner::{PathWaypoint, Pose, SegmentDir};
use crate::ieee::double::{
    decode, exponent, lemma_decode_monotone, lemma_encode_decode, significand, Double,
};
use crate::ieee::laws::{
    lemma_encode_monotone, lemma_gap, lemma_rounded_monotone, lemma_rounded_zero, rounded,
};
use crate::trig::{lemma_turn, turn, Trig};
use vstd::arithmetic::div_mod::lemma_fundamental_div_mod;
use vstd::arithmetic::power2::{lemma_pow2_adds, lemma_pow2_pos, pow2};
use vstd::prelude::*;

verus! {

/// The remainder of a magnitude by a full turn is itself a magnitude.
proof fn lemma_rem_turn(a: Double)
    requires
        a.finite(),
    ensures
        a.rem(turn()).mag() < turn().mag(),
        a.rem(turn()).negative() == a.negative(),
{
    reveal(Double::spec_rem);
    lemma_turn();
    let (u, t) = (a.units(), turn().units());
    let x = u % t;
    assert(exponent(turn().mag()) == 1024);
    if a.mag() < turn().mag() {
        lemma_decode_monotone(a.mag(), turn().mag());
        assert(x == u) by (nonlinear_arith)
            requires
                x == u % t,
                u < t,
        ;
        lemma_encode_decode(a.mag());
    } else {
        let below = (turn().mag() - 1) as nat;
        let p = pow2(1024);
        lemma_pow2_pos(1024);
        lemma_decode_monotone(turn().mag(), a.mag());
        lemma_gap(below);
        assert(exponent(below) == 1024);
        let k = (exponent(a.mag()) - 1024) as nat;
        lemma_pow2_adds(1024, k);
        let (m, y) = (significand(a.mag()), pow2(k));
        assert(u == (m * y) * p) by (nonlinear_arith)
            requires
                u == m * (p * y),
        ;
        let n = significand(turn().mag());
        assert(t == n * p);
        let q = u / t;
        lemma_fundamental_div_mod(u as int, t as int);
        let c = m * y - n * q;
        assert(x == c * p) by (nonlinear_arith)
            requires
                u == (m * y) * p,
                t == n * p,
                u == t * q + x,
                c == m * y - n * q,
        ;
        assert(x < t);
        assert(c < n) by (nonlinear_arith)
            requires
                c * p < n * p,
                p > 0,
        ;
        assert(c * p + p <= n * p) by (nonlinear_arith)
            requires
                c < n,
                p > 0,
        ;
        lemma_encode_decode(below);
        lemma_encode_monotone(x, decode(below), 1);
    }
}

/// An angle below a full turn is its own remainder.
pub proof fn lemma_small_rem(a: Double)
    requires
        a.mag() < turn().mag(),
    ensures
        a.rem(turn()) == a,
{
    reveal(Double::spec_rem);
    lemma_turn();
    let (u, t) = (a.units(), turn().units());
    let x = u % t;
    lemma_decode_monotone(a.mag(), turn().mag());
    lemma_encode_decode(a.mag());
    lemma_encode_decode(turn().mag());
    assert(u != t);
    assert(x == u) by (nonlinear_arith)
        requires
            x == u % t,
            u < t,
    ;
}

/// An angle from zero up to a full turn is left as it is, and a full turn is added to
/// one that is less than a turn below zero.
pub proof fn law_mod2pi_adds_a_turn(a: Double)
    requires
        a.mag() < turn().mag(),
    ensures
        a.key() >= 0 ==> mod2pi_pos(a) == a,
        a.key() < 0 && rounded(a.value() + turn().value()) < turn().key() ==> mod2pi_pos(a).key()
            == rounded(a.value() + turn().value()),
{
    lemma_small_rem(a);
    lemma_turn();
    a.lemma_plus(turn());
}

/// The angle is brought to the interval from zero up to, but not reaching, a
/// full turn.
pub proof fn law_mod2pi_pos(a: Double)
    requires
        a.finite(),
    ensures
        Double::zero().le(mod2pi_pos(a)),
        mod2pi_pos(a).lt(turn()),
{
    lemma_rem_turn(a);
    let v = a.rem(turn());
    lemma_turn();
    if v.lt(Double::zero()) {
        v.negate().lemma_order(turn());
        v.lemma_plus(turn());
        v.lemma_rounded_value();
        lemma_rounded_zero();
        lemma_rounded_monotone(0, v.value() + turn().value());
    }
}

/// The candidates are in order of cost.
pub open spec fn in_order(cs: Seq<Candidate>) -> bool {
    forall|i: int, j: int|
        0 <= i < j < cs.len() ==> (#[trigger] cs[i]).cost.rank() <= (#[trigger] cs[j]).cost.rank()
}

proof fn lemma_inserted_contains(s: Seq<Candidate>, c: Candidate)
    requires
        in_order(s),
    ensures
        in_order(inserted(s, c)),
        inserted(s, c).len() == s.len() + 1,
        forall|d: Candidate| #[trigger] inserted(s, c).contains(d) <==> s.contains(d) || d == c,
    decreases s.len(),
{
    let out = inserted(s, c);
    if s.len() == 0 || s.last().cost.rank() <= c.cost.rank() {
        assert(out == s.push(c));
        assert forall|d: Candidate| #[trigger] out.contains(d) <==> s.contains(d) || d == c by {
            if s.contains(d) {
                let i = choose|i: int| 0 <= i < s.len() && s[i] == d;
                assert(out[i] == d);
            }
            if d == c {
                assert(out[s.len() as int] == d);
            }
        }
    } else {
        let before = s.drop_last();
        lemma_inserted_contains(before, c);
        let part = inserted(before, c);
        assert(out == part.push(s.last()));
        assert forall|d: Candidate| #[trigger] out.contains(d) <==> s.contains(d) || d == c by {
            if s.contains(d) {
                let i = choose|i: int| 0 <= i < s.len() && s[i] == d;
                if i < before.len() {
                    assert(before[i] == d);
                    assert(before.contains(d));
                    assert(part.contains(d));
                    let j = choose|j: int| 0 <= j < part.len() && part[j] == d;
                    assert(out[j] == d);
                } else {
                    assert(out[part.len() as int] == d);
                }
            }
            if d == c {
                assert(part.contains(d));
                let j = choose|j: int| 0 <= j < part.len() && part[j] == d;
                assert(out[j] == d);
            }
            if out.contains(d) {
                let i = choose|i: int| 0 <= i < out.len() && out[i] == d;
                if i < part.len() {
                    assert(part[i] == d);
                    assert(part.contains(d));
                    if before.contains(d) {
                        let j = choose|j: int| 0 <= j < before.len() && before[j] == d;
                        assert(s[j] == d);
                    }
                } else {
                    assert(s[s.len() - 1] == d);
                }
            }
        }
        assert forall|i: int, j: int| 0 <= i < j < out.len() implies (
        #[trigger] out[i]).cost.rank() <= (#[trigger] out[j]).cost.rank() by {
            if j == part.len() {
                assert(part.contains(part[i]));
                if before.contains(part[i]) {
                    let k = choose|k: int| 0 <= k < before.len() && before[k] == part[i];
                    assert(s[k].cost.rank() <= s[s.len() - 1].cost.rank());
                }
            }
        }
    }
}

/// Every word becomes one candidate with its own cost, and the candidates are in
/// order of cost.
pub proof fn law_ranked(ws: Seq<Word>, r: Double, arrival_dir: SegmentDir, cfg: &HybridAStarConfig)
    ensures
        ({
            let cs = ranked(ws, r, arrival_dir, cfg);
            &&& cs.len() == ws.len()
            &&& in_order(cs)
            &&& forall|c: Candidate| #[trigger]
                cs.contains(c) <==> ws.contains(c.word) && c.cost == word_cost(
                    c.word,
                    r,
                    arrival_dir,
                    cfg,
                )
        }),
    decreases ws.len(),
{
    if ws.len() > 0 {
        let before = ws.drop_last();
        law_ranked(before, r, arrival_dir, cfg);
        let w = ws.last();
        let s = ranked(before, r, arrival_dir, cfg);
        let c = Candidate { word: w, cost: word_cost(w, r, arrival_dir, cfg) };
        lemma_inserted_contains(s, c);
        let cs = ranked(ws, r, arrival_dir, cfg);
        assert forall|d: Candidate| #[trigger] cs.contains(d) <==> ws.contains(d.word) && d.cost
            == word_cost(d.word, r, arrival_dir, cfg) by {
            assert(ws =~= before.push(w));
            if ws.contains(d.word) {
                let i = choose|i: int| 0 <= i < ws.len() && ws[i] == d.word;
                if i < before.len() {
                    assert(before[i] == d.word);
                }
            }
            if before.contains(d.word) {
                let i = choose|i: int| 0 <= i < before.len() && before[i] == d.word;
                assert(ws[i] == d.word);
            }
            assert(ws[ws.len() - 1] == w);
            assert(s.contains(d) <==> before.contains(d.word) && d.cost == word_cost(
                d.word,
                r,
                arrival_dir,
                cfg,
            ));
        }
    }
}

/// The place of the first candidate from the `i`-th on that gives a connection;
/// the number of candidates where none does.
proof fn lemma_first(
    t: Trig,
    cs: Seq<Candidate>,
    frame: Frame,
    goal: Pose,
    around: Surroundings,
    i: int,
) -> (j: int)
    requires
        0 <= i <= cs.len(),
    ensures
        i <= j <= cs.len(),
        forall|k: int| i <= k < j ==> !links(t, #[trigger] cs[k], frame, goal, around),
        j < cs.len() ==> links(t, cs[j], frame, goal, around) && first_connection(
            t,
            cs,
            frame,
            goal,
            around,
            i,
        ) == connection_by(t, cs[j].word, frame, goal, around),
        j == cs.len() ==> first_connection(t, cs, frame, goal, around, i) is None,
    decreases cs.len() - i,
{
    reveal(links);
    if i < cs.len() && connection_by(t, cs[i].word, frame, goal, around) is None {
        lemma_first(t, cs, frame, goal, around, i + 1)
    } else {
        i
    }
}

/// The candidate gives a connection.
#[verifier::opaque]
spec fn links(t: Trig, c: Candidate, frame: Frame, goal: Pose, around: Surroundings) -> bool {
    connection_by(t, c.word, frame, goal, around) is Some
}

/// The word connects the poses along `path`, and no word that costs less
/// connects them at all.
pub open spec fn cheapest(
    t: Trig,
    from: Pose,
    goal: Pose,
    kappa_max: Double,
    arrival_dir: SegmentDir,
    cfg: &HybridAStarConfig,
    around: Surroundings,
    w: Word,
    path: Seq<PathWaypoint>,
) -> bool {
    let frame = frame_of(t, from, kappa_max, cfg);
    let ws = words_for(t, from, goal, kappa_max, cfg);
    &&& ws.contains(w)
    &&& connection_by(t, w, frame, goal, around) == Some(path)
    &&& forall|v: Word| #[trigger]
        ws.contains(v) && word_cost(v, frame.r, arrival_dir, cfg).rank() < word_cost(
            w,
            frame.r,
            arrival_dir,
            cfg,
        ).rank() ==> connection_by(t, v, frame, goal, around) is None
}

/// A connection follows the cheapest word that may and can be driven. There is none
/// only where no word can be driven.
pub proof fn law_cheapest_connection(
    t: Trig,
    from: &Pose,
    goal: &Pose,
    kappa_max: Double,
    arrival_dir: SegmentDir,
    cfg: &HybridAStarConfig,
    grid: &OccupancyGrid,
    clearance: Option<&ClearanceField>,
    escape: Option<&EscapeZone>,
)
    requires
        !kappa_max.le(Double::zero()),
    ensures
        ({
            let around = spec_surroundings(from, goal, grid, clearance, escape);
            match connection(
                t,
                from,
                goal,
                kappa_max,
                arrival_dir,
                cfg,
                grid,
                clearance,
                escape,
            ) {
                Some(path) => exists|w: Word| #[trigger]
                    cheapest(t, *from, *goal, kappa_max, arrival_dir, cfg, around, w, path),
                None => forall|w: Word| #[trigger]
                    words_for(t, *from, *goal, kappa_max, cfg).contains(w) ==> connection_by(
                        t,
                        w,
                        frame_of(t, *from, kappa_max, cfg),
                        *goal,
                        around,
                    ) is None,
            }
        }),
{
    let around = spec_surroundings(from, goal, grid, clearance, escape);
    let frame = frame_of(t, *from, kappa_max, cfg);
    let cs = candidates(t, *from, *goal, kappa_max, arrival_dir, cfg);
    let ws = words_for(t, *from, *goal, kappa_max, cfg);
    law_ranked(ws, frame.r, arrival_dir, cfg);
    let j = lemma_first(t, cs, frame, *goal, around, 0);
    assert forall|v: Word| #[trigger]
        ws.contains(v) && (j == cs.len() || word_cost(v, frame.r, arrival_dir, cfg).rank()
            < cs[j].cost.rank()) implies connection_by(t, v, frame, *goal, around) is None by {
        let c = Candidate { word: v, cost: word_cost(v, frame.r, arrival_dir, cfg) };
        assert(cs.contains(c));
        let k = choose|k: int| 0 <= k < cs.len() && cs[k] == c;
        if k >= j {
            assert(cs[j].cost.rank() <= cs[k].cost.rank());
        }
        assert(!links(t, cs[k], frame, *goal, around));
        reveal(links);
    }
    if j < cs.len() {
        reveal(links);
        assert(cs.contains(cs[j]));
        let path = connection_by(t, cs[j].word, frame, *goal, around)->0;
        assert(cheapest(
            t,
            *from,
            *goal,
            kappa_max,
            arrival_dir,
            cfg,
            around,
            cs[j].word,
            path,
        ));
    }
}

proof fn lemma_leg_is_forward(frame: Frame, t: Trig, p: LocalPose, s: Seg, i: int)
    requires
        !s.reverses(),
        0 <= i < frame.leg(t, p, s).len(),
    ensures
        frame.leg(t, p, s)[i].dir == SegmentDir::Forward,
{
}

proof fn lemma_track_is_forward(frame: Frame, t: Trig, w: Word, i: int)
    requires
        w.is_forward(),
        0 <= i < frame.track(t, w).len(),
    ensures
        frame.track(t, w)[i].dir == SegmentDir::Forward,
{
    let p1 = frame.leg_end(t, Frame::origin(), w.first);
    let p2 = frame.leg_end(t, p1, w.middle);
    let (l1, l2, l3) = (
        frame.leg(t, Frame::origin(), w.first),
        frame.leg(t, p1, w.middle),
        frame.leg(t, p2, w.last),
    );
    let track = frame.track(t, w);
    if i > 0 {
        if i < 1 + l1.len() {
            assert(track[i] == l1[i - 1]);
            lemma_leg_is_forward(frame, t, Frame::origin(), w.first, i - 1);
        } else if i < 1 + l1.len() + l2.len() {
            let j = i - 1 - l1.len();
            assert(track[i] == l2[j]);
            lemma_leg_is_forward(frame, t, p1, w.middle, j);
        } else {
            let j = i - 1 - l1.len() - l2.len();
            assert(track[i] == l3[j]);
            lemma_leg_is_forward(frame, t, p2, w.last, j);
        }
    }
}

/// With reverse switched off a connection goes forward all the way.
pub proof fn law_forward_connection(
    t: Trig,
    from: &Pose,
    goal: &Pose,
    kappa_max: Double,
    arrival_dir: SegmentDir,
    cfg: &HybridAStarConfig,
    grid: &OccupancyGrid,
    clearance: Option<&ClearanceField>,
    escape: Option<&EscapeZone>,
)
    requires
        !cfg.reverse_enabled,
    ensures
        connection(t, from, goal, kappa_max, arrival_dir, cfg, grid, clearance, escape) matches Some(
            path,
        ) ==> forall|i: int|
            0 <= i < path.len() ==> (#[trigger] path[i]).dir == SegmentDir::Forward,
{
    if !kappa_max.le(Double::zero()) {
        let around = spec_surroundings(from, goal, grid, clearance, escape);
        let frame = frame_of(t, *from, kappa_max, cfg);
        let cs = candidates(t, *from, *goal, kappa_max, arrival_dir, cfg);
        let all = words_between(t, *from, *goal, kappa_max);
        let ws = words_for(t, *from, *goal, kappa_max, cfg);
        law_ranked(ws, frame.r, arrival_dir, cfg);
        lemma_first_connection(t, cs, frame, *goal, around, 0);
        if let Some(path) = first_connection(t, cs, frame, *goal, around, 0) {
            let j = choose|j: int|
                0 <= j < cs.len() && connection_by(
                    t,
                    (#[trigger] cs[j]).word,
                    frame,
                    *goal,
                    around,
                ) == Some(path);
            let w = cs[j].word;
            assert(cs.contains(cs[j]));
            assert(w.is_forward()) by {
                broadcast use vstd::seq_lib::group_filter_ensures;

                let forward = |v: Word| v.is_forward();
                assert(ws == all.filter(forward));
                assert(ws.contains(w));
                assert(forward(w));
            }
            let track = frame.track(t, w);
            assert forall|i: int| 0 <= i < path.len() implies (#[trigger] path[i]).dir
                == SegmentDir::Forward by {
                lemma_track_is_forward(frame, t, w, i);
                lemma_track_is_forward(frame, t, w, 1);
            }
        }
    }
}

} // verus!
