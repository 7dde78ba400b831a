//! Setting off from a standstill: profiles of constant curvature that
//! accelerate over the whole horizon. They outrun an obstacle in whose way the
//! slow samples of a one-cycle window would linger.
use crate::ieee::double::Double;
use crate::local_planner::arc::{
    cycle, gap, infinity, least_gap, lower, substeps_for, Spot,
};
use crate::local_planner::dwa::{facing, heading_cost, Query};
use crate::local_planner::motion::{step, stepped};
use crate::local_planner::obstacle::Obstacle;
use crate::local_planner::VelocityCommand;
use crate::trig::{functional, trig_of, Circular, Trig};
use vstd::prelude::*;

verus! {

/// How far a profile has come.
#[derive(Clone, Copy, Debug)]
pub struct Profile {
    pub spot: Spot,
    pub v: Double,
    /// Least net distance so far.
    pub clear: Double,
    /// The least that the net distance exceeded what is required.
    pub spare: Double,
}

/// The least by which the net distances of the first `n` obstacles at a spot
/// exceed what is required, and `from`.
pub open spec fn least_spare(
    tr: Trig,
    obstacles: Seq<Obstacle>,
    gain: Double,
    s: Spot,
    required: Double,
    from: Double,
    n: int,
) -> Double
    decreases n,
{
    if n <= 0 {
        from
    } else {
        lower(
            least_spare(tr, obstacles, gain, s, required, from, n - 1),
            gap(tr, obstacles[n - 1], gain, s).minus(required),
        )
    }
}

/// The profile chosen so far: its score, curvature and spare distance.
#[derive(Clone, Copy, Debug)]
pub struct SetOff {
    pub score: Double,
    pub kappa: Double,
    pub spare: Double,
}

impl<'a> Query<'a> {
    /// The profile after `k` steps of `dt` seconds at its speed and `w`.
    pub open spec fn rolled(
        self,
        tr: Trig,
        p: Profile,
        w: Double,
        required: Double,
        dt: Double,
        k: nat,
    ) -> Profile
        decreases k,
    {
        if k == 0 {
            p
        } else {
            let b = self.rolled(tr, p, w, required, dt, (k - 1) as nat);
            let spot = Spot {
                pose: stepped(tr, b.spot.pose, p.v, w, dt),
                t: b.spot.t.plus(dt),
            };
            let gain = self.config.moving_obstacle_margin_gain;
            let n = self.obstacles@.len() as int;
            Profile {
                spot,
                v: p.v,
                clear: least_gap(tr, self.obstacles@, gain, spot, b.clear, n),
                spare: least_spare(tr, self.obstacles@, gain, spot, required, b.spare, n),
            }
        }
    }

    pub open spec fn spec_yaw(self, kappa: Double, v: Double) -> Double {
        kappa.times(v).clamp(
            self.config.max_angular_speed.negate(),
            self.config.max_angular_speed,
        )
    }

    /// Yaw rate of a curvature at a speed, within the limit.
    #[verifier::when_used_as_spec(spec_yaw)]
    pub fn yaw(self, kappa: Double, v: Double) -> (r: Double)
        requires
            self.config.limits(),
        ensures
            r == self.spec_yaw(kappa, v),
    {
        kappa.times(v).clamp(
            self.config.max_angular_speed.negate(),
            self.config.max_angular_speed,
        )
    }

    /// The profile of a curvature after `k` steps of the simulation: each adds
    /// speed up to the target.
    pub open spec fn profile(self, tr: Trig, kappa: Double, k: nat) -> Profile
        decreases k,
    {
        if k == 0 {
            Profile {
                spot: self.state.spot(),
                v: self.state.linear_vel.max(Double::zero()),
                clear: infinity(),
                spare: infinity(),
            }
        } else {
            let b = self.profile(tr, kappa, (k - 1) as nat);
            let dt = self.config.sim_dt;
            let v = b.v.plus(self.config.max_acceleration.times(dt)).min(self.target);
            let n = substeps_for(v, dt);
            self.rolled(
                tr,
                Profile { v, ..b },
                self.yaw(kappa, v),
                self.required(v),
                dt.over(Double::of(n)),
                n as nat,
            )
        }
    }

    /// The number of simulation steps.
    pub open spec fn spec_sim_steps(self) -> u64 {
        self.config.sim_time.over(self.config.sim_dt).floor_count()
    }

    #[verifier::when_used_as_spec(spec_sim_steps)]
    pub fn sim_steps(self) -> (r: u64)
        ensures
            r == self.spec_sim_steps(),
    {
        self.config.sim_time.over(self.config.sim_dt).floor_count()
    }

    /// The number of curvatures that are tried.
    pub open spec fn spec_curvatures(self) -> usize {
        if self.config.w_samples < 3 {
            3
        } else {
            self.config.w_samples
        }
    }

    #[verifier::when_used_as_spec(spec_curvatures)]
    pub fn curvatures(self) -> (r: usize)
        ensures
            r == self.spec_curvatures(),
    {
        if self.config.w_samples < 3 {
            3
        } else {
            self.config.w_samples
        }
    }

    pub open spec fn spec_curvature(self, i: u64) -> Double {
        let n = self.curvatures();
        self.config.max_curvature.negate().plus(
            Double::of(2).times(self.config.max_curvature).times(Double::of(i)).over(
                Double::of((n - 1) as u64),
            ),
        )
    }

    /// The `i`-th of them.
    #[verifier::when_used_as_spec(spec_curvature)]
    pub fn curvature(self, i: u64) -> (r: Double)
        ensures
            r == self.spec_curvature(i),
    {
        let n = self.curvatures();
        self.config.max_curvature.negate().plus(
            Double::of(2).times(self.config.max_curvature).times(Double::of(i)).over(
                Double::of((n - 1) as u64),
            ),
        )
    }

    /// The profile of the `i`-th curvature, scored by its distance from
    /// obstacles and how it faces the goal in the end.
    pub open spec fn set_off(self, tr: Trig, i: int) -> SetOff {
        let kappa = self.curvature(i as u64);
        let p = self.profile(tr, kappa, self.sim_steps() as nat);
        SetOff {
            score: p.clear.min(Double::one()).plus(
                Double::ratio(2, 10).times(facing(tr, p.spot.pose, self.goal)),
            ),
            kappa,
            spare: p.spare,
        }
    }

    /// Of the first `n` profiles, the first with the highest score among those
    /// that keep the required distance.
    pub open spec fn best_set_off(self, tr: Trig, n: int) -> Option<SetOff>
        decreases n,
    {
        if n <= 0 {
            None
        } else {
            let before = self.best_set_off(tr, n - 1);
            let s = self.set_off(tr, n - 1);
            if !s.spare.lt(Double::zero()) && (before is None || before->0.score.lt(s.score)) {
                Some(s)
            } else {
                before
            }
        }
    }

    /// The first cycle of a profile. The confidence goes by its spare distance:
    /// from 0.3 at none to 0.9 at 0.3 m.
    pub open spec fn spec_first_cycle(self, s: SetOff) -> VelocityCommand {
        let v = self.state.linear_vel.max(Double::zero()).plus(
            self.config.max_acceleration.times(cycle()),
        ).min(self.target);
        let share = s.spare.over(Double::ratio(3, 10)).clamp(Double::zero(), Double::one());
        VelocityCommand {
            linear_x: v,
            angular_z: self.yaw(s.kappa, v),
            confidence: Double::ratio(3, 10).plus(Double::ratio(6, 10).times(share)).narrow(),
        }
    }

    #[verifier::when_used_as_spec(spec_first_cycle)]
    pub fn first_cycle(self, s: SetOff) -> (r: VelocityCommand)
        requires
            self.config.limits(),
        ensures
            r == self.spec_first_cycle(s),
    {
        let v = self.state.linear_vel.max(Double::zero()).plus(
            self.config.max_acceleration.times(cycle()),
        ).min(self.target);
        let share = s.spare.over(Double::ratio(3, 10)).clamp(Double::zero(), Double::one());
        VelocityCommand {
            linear_x: v,
            angular_z: self.yaw(s.kappa, v),
            confidence: Double::ratio(3, 10).plus(Double::ratio(6, 10).times(share)).narrow(),
        }
    }

    /// The command that sets off; none where the simulation has no step or
    /// every profile comes too close to something.
    pub open spec fn setting_off(self, tr: Trig) -> Option<VelocityCommand> {
        let best = self.best_set_off(tr, self.curvatures() as int);
        if self.sim_steps() == 0 || best is None {
            None
        } else {
            Some(self.first_cycle(best->0))
        }
    }

    /// One step of a profile.
    fn roll<M: Fn(Circular, Double, Double) -> Double>(
        self,
        m: &M,
        from: Profile,
        w: Double,
        required: Double,
        dt: Double,
        n: u64,
    ) -> (r: Profile)
        requires
            functional(m),
        ensures
            r == self.rolled(trig_of(m), from, w, required, dt, n as nat),
    {
        let ghost tr = trig_of(m);
        let gain = self.config.moving_obstacle_margin_gain;
        let mut p = from;
        let mut k: u64 = 0;
        while k < n
            invariant
                functional(m),
                tr == trig_of(m),
                k <= n,
                gain == self.config.moving_obstacle_margin_gain,
                p.v == from.v,
                p == self.rolled(tr, from, w, required, dt, k as nat),
            decreases n - k,
        {
            let ghost b = p;
            let spot = Spot {
                pose: step(m, p.spot.pose, p.v, w, dt),
                t: p.spot.t.plus(dt),
            };
            let mut clear = p.clear;
            let mut spare = p.spare;
            let mut i: usize = 0;
            while i < self.obstacles.len()
                invariant
                    functional(m),
                    tr == trig_of(m),
                    gain == self.config.moving_obstacle_margin_gain,
                    i <= self.obstacles@.len(),
                    clear == least_gap(tr, self.obstacles@, gain, spot, b.clear, i as int),
                    spare == least_spare(
                        tr,
                        self.obstacles@,
                        gain,
                        spot,
                        required,
                        b.spare,
                        i as int,
                    ),
                decreases self.obstacles@.len() - i,
            {
                let d = self.obstacles[i].net_clearance(
                    m,
                    gain,
                    spot.pose.x,
                    spot.pose.y,
                    spot.t,
                );
                clear = lower(clear, d);
                spare = lower(spare, d.minus(required));
                i = i + 1;
            }
            p = Profile { spot, v: from.v, clear, spare };
            k = k + 1;
        }
        p
    }

    /// Seeks a profile by which the robot can set off.
    pub fn standstill_escape<M: Fn(Circular, Double, Double) -> Double>(self, m: &M) -> (r: Option<
        VelocityCommand,
    >)
        requires
            functional(m),
            self.config.limits(),
        ensures
            r == self.setting_off(trig_of(m)),
    {
        let ghost tr = trig_of(m);
        let steps = self.sim_steps();
        if steps == 0 {
            return None;
        }
        let dt = self.config.sim_dt;
        let n = self.curvatures();
        let mut best: Option<SetOff> = None;
        let mut i: usize = 0;
        while i < n
            invariant
                functional(m),
                self.config.limits(),
                tr == trig_of(m),
                steps == self.sim_steps(),
                dt == self.config.sim_dt,
                n == self.curvatures(),
                i <= n,
                best == self.best_set_off(tr, i as int),
            decreases n - i,
        {
            let kappa = self.curvature(i as u64);
            let mut p = Profile {
                spot: self.state.spot(),
                v: self.state.linear_vel.max(Double::zero()),
                clear: infinity(),
                spare: infinity(),
            };
            let mut k: u64 = 0;
            while k < steps
                invariant
                    functional(m),
                    self.config.limits(),
                    tr == trig_of(m),
                    dt == self.config.sim_dt,
                    k <= steps,
                    p == self.profile(tr, kappa, k as nat),
                decreases steps - k,
            {
                let v = p.v.plus(self.config.max_acceleration.times(dt)).min(self.target);
                let n_sub = substeps_for(v, dt);
                p = self.roll(
                    m,
                    Profile { spot: p.spot, v, clear: p.clear, spare: p.spare },
                    self.yaw(kappa, v),
                    self.required(v),
                    dt.over(Double::of(n_sub)),
                    n_sub,
                );
                k = k + 1;
            }
            let s = SetOff {
                score: p.clear.min(Double::one()).plus(
                    Double::ratio(2, 10).times(heading_cost(m, p.spot.pose, &self.goal)),
                ),
                kappa,
                spare: p.spare,
            };
            assert(s == self.set_off(tr, i as int));
            if !s.spare.lt(Double::zero()) {
                let better = match best {
                    None => true,
                    Some(b) => b.score.lt(s.score),
                };
                if better {
                    best = Some(s);
                }
            }
            i = i + 1;
        }
        match best {
            None => None,
            Some(s) => Some(self.first_cycle(s)),
        }
    }
}

} // verus!
