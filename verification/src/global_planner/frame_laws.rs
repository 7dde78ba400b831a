//! How analytic connections move with the plane: what is seen from a start, and how
//! words are laid out from it, for every heading.
use crate::global_planner::reeds_shepp::{
    changed, left_right_left, left_straight_left, left_straight_right, stepped,
    words, words_between, Frame, LocalPose, Seg, Steer, Word,
};
use crate::global_planner::{Pose, SegmentDir};
use crate::ieee::algebra::{alike, opposite};
use crate::ieee::double::Double;
use crate::ieee::laws::{
    lemma_rounded_monotone, lemma_rounded_negate, lemma_rounded_zero, rounded,
};
use crate::trig::{cosine, normalize_angle, quarter, sine, Trig};
use vstd::prelude::*;

verus! {

/// Where the goal lies as seen from the start, ahead and to the left, in turning radii.
pub open spec fn seen_from(t: Trig, from: Pose, goal: Pose, r: Double) -> (Double, Double) {
    let (dx, dy) = (goal.x.minus(from.x), goal.y.minus(from.y));
    let (c, s) = (cosine(t, from.theta), sine(t, from.theta));
    (
        dx.times(c).plus(dy.times(s)).over(r),
        dx.negate().times(s).plus(dy.times(c)).over(r),
    )
}

/// The second pose and its goal are the first ones after a quarter turn of the plane.
pub open spec fn turned(t: Trig, from: Pose, goal: Pose, from2: Pose, goal2: Pose) -> bool {
    &&& quarter(t, from.theta, from2.theta)
    &&& goal2.x.minus(from2.x) == goal.y.minus(from.y).negate()
    &&& goal2.y.minus(from2.y) == goal.x.minus(from.x)
    &&& normalize_angle(goal2.theta.minus(from2.theta)) == normalize_angle(
        goal.theta.minus(from.theta),
    )
}

/// A quarter turn of the plane changes nothing about how the goal is seen.
pub proof fn law_sight_turns_with_the_plane(
    t: Trig,
    from: Pose,
    goal: Pose,
    from2: Pose,
    goal2: Pose,
    r: Double,
)
    requires
        turned(t, from, goal, from2, goal2),
    ensures
        seen_from(t, from2, goal2, r) == seen_from(t, from, goal, r),
{
    let (dx, dy) = (goal.x.minus(from.x), goal.y.minus(from.y));
    let (c, s) = (cosine(t, from.theta), sine(t, from.theta));
    dy.lemma_negate();
    dy.lemma_times_negate(s);
    dx.lemma_times_negate(s);
    dx.times(c).lemma_plus_commutes(dy.times(s));
    dx.negate().times(s).lemma_plus_commutes(dy.times(c));
}

/// The words to a goal are the same after a quarter turn of the plane.
pub proof fn law_words_turn_with_the_plane(
    t: Trig,
    from: Pose,
    goal: Pose,
    from2: Pose,
    goal2: Pose,
    kappa_max: Double,
)
    requires
        turned(t, from, goal, from2, goal2),
    ensures
        words_between(t, from2, goal2, kappa_max) == words_between(t, from, goal, kappa_max),
{
    law_sight_turns_with_the_plane(t, from, goal, from2, goal2, Double::one().over(kappa_max));
}

/// A start that looks along the x axis sees the goal by its offset: ahead by the
/// difference in x, to the left by the difference in y.
pub proof fn law_words_along_the_axis(t: Trig, from: Pose, goal: Pose, kappa_max: Double)
    requires
        cosine(t, from.theta) == Double::one(),
        sine(t, from.theta) == Double::zero(),
        goal.x.minus(from.x).finite() && goal.x.minus(from.x).mag() > 0,
        goal.y.minus(from.y).finite() && goal.y.minus(from.y).mag() > 0,
    ensures
        ({
            let r = Double::one().over(kappa_max);
            words_between(t, from, goal, kappa_max) == words(
                t,
                goal.x.minus(from.x).over(r),
                goal.y.minus(from.y).over(r),
                normalize_angle(goal.theta.minus(from.theta)),
            )
        }),
{
    let (dx, dy) = (goal.x.minus(from.x), goal.y.minus(from.y));
    let z = Double::zero();
    dx.lemma_negate();
    dx.lemma_times_one();
    dy.lemma_times_one();
    dy.lemma_times_zero(z);
    dx.negate().lemma_times_zero(z);
    dx.lemma_plus_nothing(dy.times(z));
    dy.lemma_plus_nothing(dx.negate().times(z));
}

/// The number is not negative where the exact one is not, and not positive where that
/// is not.
pub open spec fn sides_with(a: Double, exact: int) -> bool {
    &&& !a.nan()
    &&& exact >= 0 ==> a.key() >= 0
    &&& exact <= 0 ==> a.key() <= 0
}

/// A sum of two products has the sign of the exact sum.
pub proof fn lemma_sum_of_products(a: Double, b: Double, c: Double, d: Double)
    requires
        a.finite() && b.finite() && c.finite() && d.finite(),
        a.times(b).finite() && c.times(d).finite(),
    ensures
        sides_with(a.times(b).plus(c.times(d)), a.value() * b.value() + c.value() * d.value()),
{
    let (p, q) = (a.times(b), c.times(d));
    a.lemma_product_order(b, c, d.negate());
    a.lemma_product_order(b, c.negate(), d);
    d.lemma_negate();
    c.lemma_negate();
    c.lemma_times_negate(d);
    q.lemma_negate();
    p.lemma_plus(q);
    p.lemma_order(q.negate());
    lemma_rounded_zero();
    let (x, y) = (a.value() * b.value(), c.value() * d.value());
    assert(c.value() * (-d.value()) == -y && (-c.value()) * d.value() == -y) by (nonlinear_arith)
        requires
            y == c.value() * d.value(),
    ;
    if x + y >= 0 {
        lemma_rounded_monotone(0, p.value() + q.value());
    }
    if x + y <= 0 {
        lemma_rounded_monotone(p.value() + q.value(), 0);
    }
}

/// For every heading, the words to a goal are those to the place where it is seen: ahead
/// where it lies in front of the start and behind where it lies behind, to the left where
/// it lies on the left and to the right where it lies on the right. Front and left are
/// told by the exact products of the offset with the direction that the start looks in.
pub proof fn law_sight_has_its_sides(t: Trig, from: Pose, goal: Pose, kappa_max: Double)
    requires
        Double::one().over(kappa_max).positive(),
        ({
            let (dx, dy) = (goal.x.minus(from.x), goal.y.minus(from.y));
            let (c, s) = (cosine(t, from.theta), sine(t, from.theta));
            &&& dx.finite() && dy.finite() && c.finite() && s.finite()
            &&& dx.times(c).finite() && dy.times(s).finite()
            &&& dx.times(s).finite() && dy.times(c).finite()
        }),
    ensures
        ({
            let (dx, dy) = (goal.x.minus(from.x).value(), goal.y.minus(from.y).value());
            let (c, s) = (cosine(t, from.theta).value(), sine(t, from.theta).value());
            let phi = normalize_angle(goal.theta.minus(from.theta));
            exists|x: Double, y: Double|
                words_between(t, from, goal, kappa_max) == #[trigger] words(t, x, y, phi)
                    && sides_with(x, c * dx + s * dy) && sides_with(y, c * dy - s * dx)
        }),
{
    let r = Double::one().over(kappa_max);
    let (dx, dy) = (goal.x.minus(from.x), goal.y.minus(from.y));
    let (c, s) = (cosine(t, from.theta), sine(t, from.theta));
    dx.lemma_negate();
    dx.lemma_times_negate(s);
    dx.times(s).lemma_negate();
    lemma_sum_of_products(dx, c, dy, s);
    lemma_sum_of_products(dx.negate(), s, dy, c);
    let (p, q) = (dx.value(), dy.value());
    let (u, v) = (c.value(), s.value());
    assert(p * u + q * v == u * p + v * q && (-p) * v + q * u == u * q - v * p)
        by (nonlinear_arith);
    dx.times(c).plus(dy.times(s)).lemma_over_side(r);
    dx.negate().times(s).plus(dy.times(c)).lemma_over_side(r);
    let (x, y) = seen_from(t, from, goal, r);
    let phi = normalize_angle(goal.theta.minus(from.theta));
    assert(words_between(t, from, goal, kappa_max) == words(t, x, y, phi));
}

/// The mirror image of a word: left for right.
pub open spec fn mirrored(w: Word) -> Word {
    Word {
        first: w.first.changed(false, true),
        middle: w.middle.changed(false, true),
        last: w.last.changed(false, true),
    }
}

/// The word driven the other way.
pub open spec fn driven_back(w: Word) -> Word {
    Word {
        first: w.first.changed(true, false),
        middle: w.middle.changed(true, false),
        last: w.last.changed(true, false),
    }
}

/// One of the words that a solver's word becomes.
pub open spec fn becomes(w: Option<Word>, backward: bool, mirror: bool, v: Word) -> bool {
    w matches Some(w) && v == (Word {
        first: w.first.changed(backward, mirror),
        middle: w.middle.changed(backward, mirror),
        last: w.last.changed(backward, mirror),
    })
}

/// A word of one of the three kinds to the goal.
spec fn one_of(t: Trig, x: Double, y: Double, phi: Double, b: bool, m: bool, v: Word) -> bool {
    ||| becomes(left_straight_left(t, x, y, phi), b, m, v)
    ||| becomes(left_straight_right(t, x, y, phi), b, m, v)
    ||| becomes(left_right_left(t, x, y, phi), b, m, v)
}

proof fn lemma_with(a: Seq<Word>, w: Option<Word>, b: bool, m: bool, v: Word)
    ensures
        (a + changed(w, b, m)).contains(v) <==> a.contains(v) || becomes(w, b, m, v),
{
    let c = changed(w, b, m);
    let s = a + c;
    if a.contains(v) {
        let i = choose|i: int| 0 <= i < a.len() && a[i] == v;
        assert(s[i] == v);
    }
    if becomes(w, b, m, v) {
        assert(s[a.len() as int] == v);
    }
    if s.contains(v) {
        let i = choose|i: int| 0 <= i < s.len() && s[i] == v;
        if i < a.len() {
            assert(a[i] == v);
        }
    }
}

proof fn lemma_words(t: Trig, x: Double, y: Double, phi: Double, v: Word)
    ensures
        ({
            let (nx, ny, nphi) = (x.negate(), y.negate(), phi.negate());
            words(t, x, y, phi).contains(v) <==> one_of(t, x, y, phi, false, false, v) || one_of(
                t,
                nx,
                y,
                nphi,
                true,
                false,
                v,
            ) || one_of(t, x, ny, nphi, false, true, v) || one_of(t, nx, ny, phi, true, true, v)
        }),
{
    let (nx, ny, nphi) = (x.negate(), y.negate(), phi.negate());
    let s0 = Seq::<Word>::empty();
    let w1 = left_straight_left(t, x, y, phi);
    let w2 = left_straight_left(t, nx, y, nphi);
    let w3 = left_straight_left(t, x, ny, nphi);
    let w4 = left_straight_left(t, nx, ny, phi);
    let w5 = left_straight_right(t, x, y, phi);
    let w6 = left_straight_right(t, nx, y, nphi);
    let w7 = left_straight_right(t, x, ny, nphi);
    let w8 = left_straight_right(t, nx, ny, phi);
    let w9 = left_right_left(t, x, y, phi);
    let w10 = left_right_left(t, nx, y, nphi);
    let w11 = left_right_left(t, x, ny, nphi);
    let w12 = left_right_left(t, nx, ny, phi);
    let s1 = changed(w1, false, false);
    assert(s0 + s1 =~= s1);
    let s2 = s1 + changed(w2, true, false);
    let s3 = s2 + changed(w3, false, true);
    let s4 = s3 + changed(w4, true, true);
    let s5 = s4 + changed(w5, false, false);
    let s6 = s5 + changed(w6, true, false);
    let s7 = s6 + changed(w7, false, true);
    let s8 = s7 + changed(w8, true, true);
    let s9 = s8 + changed(w9, false, false);
    let s10 = s9 + changed(w10, true, false);
    let s11 = s10 + changed(w11, false, true);
    lemma_with(s0, w1, false, false, v);
    lemma_with(s1, w2, true, false, v);
    lemma_with(s2, w3, false, true, v);
    lemma_with(s3, w4, true, true, v);
    lemma_with(s4, w5, false, false, v);
    lemma_with(s5, w6, true, false, v);
    lemma_with(s6, w7, false, true, v);
    lemma_with(s7, w8, true, true, v);
    lemma_with(s8, w9, false, false, v);
    lemma_with(s9, w10, true, false, v);
    lemma_with(s10, w11, false, true, v);
    lemma_with(s11, w12, true, true, v);
}

proof fn lemma_changes(t: Trig, x: Double, y: Double, phi: Double, b: bool, m: bool, v: Word)
    ensures
        one_of(t, x, y, phi, b, m, v) ==> one_of(t, x, y, phi, b, !m, mirrored(v)) && one_of(
            t,
            x,
            y,
            phi,
            !b,
            m,
            driven_back(v),
        ),
{
    if one_of(t, x, y, phi, b, m, v) {
        lemma_seg_changes(v.first, b, m);
        let w = if becomes(left_straight_left(t, x, y, phi), b, m, v) {
            left_straight_left(t, x, y, phi)
        } else if becomes(left_straight_right(t, x, y, phi), b, m, v) {
            left_straight_right(t, x, y, phi)
        } else {
            left_right_left(t, x, y, phi)
        };
        let u = w->0;
        u.first.len.lemma_negate();
        u.middle.len.lemma_negate();
        u.last.len.lemma_negate();
        assert(becomes(w, b, !m, mirrored(v)));
        assert(becomes(w, !b, m, driven_back(v)));
    }
}

proof fn lemma_seg_changes(s: Seg, b: bool, m: bool)
    ensures
        s.changed(b, m).changed(b, m) == s,
{
    s.len.lemma_negate();
}

/// The goal in a mirror is reached by the words in a mirror: with left and right
/// exchanged, and as long as before.
pub proof fn law_words_in_a_mirror(t: Trig, x: Double, y: Double, phi: Double, w: Word)
    requires
        words(t, x, y, phi).contains(w),
    ensures
        words(t, x, y.negate(), phi.negate()).contains(mirrored(w)),
{
    x.lemma_negate();
    y.lemma_negate();
    phi.lemma_negate();
    lemma_words(t, x, y, phi, w);
    lemma_words(t, x, y.negate(), phi.negate(), mirrored(w));
    lemma_changes(t, x, y, phi, false, false, w);
    lemma_changes(t, x.negate(), y, phi.negate(), true, false, w);
    lemma_changes(t, x, y.negate(), phi.negate(), false, true, w);
    lemma_changes(t, x.negate(), y.negate(), phi, true, true, w);
}

/// A goal as far behind as another one is ahead is reached by the same words driven
/// the other way.
pub proof fn law_words_driven_back(t: Trig, x: Double, y: Double, phi: Double, w: Word)
    requires
        words(t, x, y, phi).contains(w),
    ensures
        words(t, x.negate(), y, phi.negate()).contains(driven_back(w)),
{
    x.lemma_negate();
    y.lemma_negate();
    phi.lemma_negate();
    lemma_words(t, x, y, phi, w);
    lemma_words(t, x.negate(), y, phi.negate(), driven_back(w));
    lemma_changes(t, x, y, phi, false, false, w);
    lemma_changes(t, x.negate(), y, phi.negate(), true, false, w);
    lemma_changes(t, x, y.negate(), phi.negate(), false, true, w);
    lemma_changes(t, x.negate(), y.negate(), phi, true, true, w);
}

/// A word is laid out by its start: after a quarter turn of the plane, every point of
/// it is turned with the start, and the direction and steering are the same.
pub proof fn law_placing_turns_with_the_plane(
    t: Trig,
    f: Frame,
    g: Frame,
    p: LocalPose,
    steering: Double,
    dir: SegmentDir,
)
    requires
        quarter(t, f.from.theta, g.from.theta),
        g.from.x == f.from.y.negate(),
        g.from.y == f.from.x,
        g.r == f.r,
        ({
            let (c, s) = (cosine(t, f.from.theta), sine(t, f.from.theta));
            &&& !p.x.times(s).nan() && !p.y.times(s).nan()
            &&& !p.x.times(c).nan() && !p.y.times(c).nan()
        }),
    ensures
        ({
            let (a, b) = (f.placed(t, p, steering, dir), g.placed(t, p, steering, dir));
            &&& b.y == a.x
            &&& opposite(b.x, a.y)
            &&& b.dir == a.dir && b.steering == a.steering && a.dir == dir && a.steering
                == steering
        }),
{
    let (c, s) = (cosine(t, f.from.theta), sine(t, f.from.theta));
    p.y.lemma_times_commutes(s);
    s.lemma_times_negate(p.y);
    s.negate().lemma_times_commutes(p.y);
    p.x.lemma_times_commutes(s);
    s.lemma_times_negate(p.x);
    s.negate().lemma_times_commutes(p.x);
    let (a, b) = (p.x.times(s), p.y.times(c));
    a.lemma_negate();
    b.lemma_negate();
    let (up, back) = (a.plus(b), a.negate().plus(b.negate()));
    a.lemma_plus_negate(b);
    back.lemma_times_opposite(f.r, up, f.r);
    f.from.y.lemma_negate();
    f.from.y.negate().lemma_plus_opposite(f.r.times(back), f.from.y, f.r.times(up));
}

/// From a start that looks along the x axis, what is ahead lies further along that
/// axis, and what is to the left further along the other, by the turning radius for
/// each unit.
pub proof fn law_placing_along_the_axis(
    t: Trig,
    f: Frame,
    p: LocalPose,
    steering: Double,
    dir: SegmentDir,
)
    requires
        cosine(t, f.from.theta) == Double::one(),
        sine(t, f.from.theta) == Double::zero(),
        p.x.finite() && p.y.finite(),
    ensures
        ({
            let a = f.placed(t, p, steering, dir);
            &&& alike(a.x, f.from.x.plus(f.r.times(p.x)))
            &&& alike(a.y, f.from.y.plus(f.r.times(p.y)))
        }),
{
    let z = Double::zero();
    p.x.lemma_times_one();
    p.y.lemma_times_one();
    p.x.lemma_times_zero(z);
    p.y.lemma_times_zero(z);
    let (u, v) = (p.x.minus(p.y.times(z)), p.x.times(z).plus(p.y));
    p.y.times(z).lemma_negate();
    p.x.lemma_plus_nothing(p.y.times(z).negate());
    p.y.lemma_plus_nothing(p.x.times(z));
    f.r.lemma_times_alike(u, f.r, p.x);
    f.r.lemma_times_alike(v, f.r, p.y);
    f.from.x.lemma_plus_alike(f.r.times(u), f.from.x, f.r.times(p.x));
    f.from.y.lemma_plus_alike(f.r.times(v), f.from.y, f.r.times(p.y));
}

/// A step to the left turns the heading by its length to the left, one to the right
/// to the right, and a straight one not at all; in reverse the other way.
pub proof fn law_step_turns(t: Trig, p: LocalPose, ds: Double)
    requires
        p.th.finite() && ds.finite(),
    ensures
        stepped(t, p, Steer::Left, ds).th.key() == rounded(p.th.value() + ds.value()),
        stepped(t, p, Steer::Right, ds).th.key() == rounded(p.th.value() - ds.value()),
        stepped(t, p, Steer::Straight, ds).th == p.th,
{
    p.th.lemma_plus(ds);
    p.th.lemma_minus(ds);
}

/// A step turns with the heading that it starts from: by a quarter turn, sideways
/// becomes backward and forward becomes sideways.
pub proof fn law_step_turns_with_the_heading(
    t: Trig,
    p: LocalPose,
    q: LocalPose,
    steer: Steer,
    ds: Double,
)
    requires
        quarter(t, p.th, q.th),
        quarter(t, stepped(t, p, steer, ds).th, stepped(t, q, steer, ds).th),
        q.x == p.y.negate(),
        q.y == p.x,
        !ds.times(sine(t, p.th)).nan(),
    ensures
        ({
            let (a, b) = (stepped(t, p, steer, ds), stepped(t, q, steer, ds));
            opposite(b.x, a.y) && alike(b.y, a.x)
        }),
{
    let (a, b) = (stepped(t, p, steer, ds), stepped(t, q, steer, ds));
    let (c0, s0) = (cosine(t, p.th), sine(t, p.th));
    let (c1, s1) = (cosine(t, a.th), sine(t, a.th));
    p.y.lemma_negate();
    s0.lemma_negate();
    c0.lemma_negate();
    match steer {
        Steer::Straight => {
            ds.lemma_times_opposite(s0.negate(), ds.negate(), s0.negate());
            ds.lemma_times_commutes(s0);
            s0.lemma_times_negate(ds);
            s0.negate().lemma_times_commutes(ds);
            ds.times(s0).lemma_negate();
            q.x.lemma_plus_opposite(ds.times(s0.negate()), p.y, ds.times(s0));
        },
        _ => {
            let (ds_, dc) = (s1.minus(s0), c1.minus(c0));
            s1.lemma_negate();
            s0.negate().lemma_negate();
            s1.negate().lemma_plus_opposite(s0.negate().negate(), s1, s0.negate());
            let back = s1.negate().minus(s0.negate());
            dc.lemma_negate();
            ds_.lemma_negate();
            back.lemma_negate();
            q.x.lemma_plus_opposite(dc, p.y, dc.negate());
            q.x.lemma_plus_opposite(dc.negate(), p.y, dc);
            q.y.lemma_plus_alike(back.negate(), p.x, ds_);
            q.y.lemma_plus_alike(back, p.x, ds_.negate());
        },
    }
}

/// From the start, a straight step goes ahead, and an arc is the one of the unit circle
/// whose centre lies to the side that is steered to.
pub proof fn law_first_step(t: Trig, ds: Double)
    requires
        cosine(t, Double::zero()) == Double::one(),
        sine(t, Double::zero()) == Double::zero(),
        ds.finite() && ds.mag() > 0,
        cosine(t, ds).finite() && sine(t, ds).finite(),
        cosine(t, ds.negate()).finite() && sine(t, ds.negate()).finite(),
    ensures
        ({
            let o = Frame::origin();
            let ahead = stepped(t, o, Steer::Straight, ds);
            let left = stepped(t, o, Steer::Left, ds);
            let right = stepped(t, o, Steer::Right, ds);
            let one = Double::one().value();
            &&& ahead.x.key() == ds.key() && ahead.y.key() == 0
            &&& left.x.key() == sine(t, ds).key()
            &&& left.y.key() == rounded(one - cosine(t, ds).value())
            &&& right.x.key() == -sine(t, ds.negate()).key()
            &&& right.y.key() == rounded(cosine(t, ds.negate()).value() - one)
        }),
{
    let z = Double::zero();
    let one = Double::one();
    ds.lemma_negate();
    ds.lemma_times_one();
    ds.lemma_times_zero(z);
    ds.lemma_plus_nothing(z);
    z.lemma_plus_nothing(ds.times(z));
    ds.negate().lemma_plus_nothing(z);
    let (c, s) = (cosine(t, ds), sine(t, ds));
    let (d, u) = (cosine(t, ds.negate()), sine(t, ds.negate()));
    z.lemma_negate();
    s.lemma_plus_nothing(z.negate());
    u.lemma_plus_nothing(z.negate());
    lemma_no_more(s.minus(z), z);
    lemma_no_more(u.minus(z), z);
    c.lemma_minus(one);
    d.lemma_minus(one);
    lemma_no_more(c.minus(one), z);
    lemma_no_more(d.minus(one), z);
    lemma_rounded_negate(c.value() - one.value());
}

proof fn lemma_no_more(a: Double, z: Double)
    requires
        !a.nan(),
        z == Double::zero(),
    ensures
        z.plus(a).key() == a.key() && !z.plus(a).nan(),
        z.minus(a).key() == -a.key() && !z.minus(a).nan(),
{
    a.lemma_negate();
    a.lemma_zero_plus();
    a.negate().lemma_zero_plus();
}

} // verus!
