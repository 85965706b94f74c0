//! The acceleration-apply stage: integrates each agent's acceleration into
//! its velocity and clamps the speed to the configured limit — rescaling
//! the whole vector (never component-wise), so direction is preserved.

use vstd::prelude::*;
use vstd::arithmetic::div_mod::lemma_fundamental_div_mod;
use crate::arith::tdiv;
use crate::components::{Vel, Acc, Vec2};
use crate::config::{Config, MAX_WORLD, MAX_DT};
use crate::flocking::ACC_LIMIT;
use crate::state::velocities_bounded;

verus! {

/// Bound on a velocity component entering the clamp: speed limit plus the
/// largest acceleration times the largest frame time.
pub const VEL_COMP_LIMIT: i64 = 0x200_0000_0000_0000;

/// The least `r` with `r * r >= m`.
pub open spec fn sqrt_ceil(m: nat) -> nat
    decreases m,
{
    if m == 0 {
        0
    } else {
        let r = sqrt_ceil((m - 1) as nat);
        if r * r >= m {
            r
        } else {
            r + 1
        }
    }
}

/// `sqrt_ceil(m)` squares to at least `m`, and is the least such value.
pub proof fn lemma_sqrt_ceil_bracket(m: nat)
    ensures
        sqrt_ceil(m) * sqrt_ceil(m) >= m,
        sqrt_ceil(m) >= 1 ==> (sqrt_ceil(m) - 1) * (sqrt_ceil(m) - 1) < m,
        sqrt_ceil(m) <= m,
    decreases m,
{
    if m > 0 {
        lemma_sqrt_ceil_bracket((m - 1) as nat);
        let r0 = sqrt_ceil((m - 1) as nat);
        if !(r0 * r0 >= m) {
            assert((r0 + 1) * (r0 + 1) >= m) by (nonlinear_arith)
                requires
                    r0 * r0 >= m - 1,
                    r0 * r0 < m,
            ;
        }
    }
}

/// Any value bracketing `m` the same way equals `sqrt_ceil(m)`.
pub proof fn lemma_sqrt_ceil_unique(m: nat, r: nat)
    requires
        r * r >= m,
        r >= 1 ==> (r - 1) * (r - 1) < m,
    ensures
        r == sqrt_ceil(m),
{
    let s = sqrt_ceil(m);
    lemma_sqrt_ceil_bracket(m);
    if r < s {
        assert(r * r <= (s - 1) * (s - 1)) by (nonlinear_arith)
            requires
                0 <= r,
                r <= s - 1,
        ;
    }
    if s < r {
        assert(s * s <= (r - 1) * (r - 1)) by (nonlinear_arith)
            requires
                0 <= s,
                s <= r - 1,
        ;
    }
}

/// Binary search for the least `r` with `r * r >= m`.
fn isqrt_ceil(m: u128) -> (r: u128)
    requires
        m <= 0x4000_0000_0000_0000_0000_0000_0000_0000,
    ensures
        r as nat == sqrt_ceil(m as nat),
        r <= 0x8000_0000_0000_0000,
{
    let mut lo: u128 = 0;
    let mut hi: u128 = 0x8000_0000_0000_0000;
    proof {
        assert(hi * hi >= m) by (nonlinear_arith)
            requires
                hi == 0x8000_0000_0000_0000,
                m <= 0x4000_0000_0000_0000_0000_0000_0000_0000,
        ;
    }
    while lo < hi
        invariant
            lo <= hi,
            hi <= 0x8000_0000_0000_0000,
            hi * hi >= m,
            lo == 0 || (lo - 1) * (lo - 1) < m,
        decreases hi - lo,
    {
        let mid = lo + (hi - lo) / 2;
        proof {
            assert(mid * mid <= 0x4000_0000_0000_0000_0000_0000_0000_0000) by (nonlinear_arith)
                requires
                    0 <= mid <= 0x8000_0000_0000_0000,
            ;
        }
        if mid * mid >= m {
            hi = mid;
        } else {
            lo = mid + 1;
        }
    }
    proof {
        lemma_sqrt_ceil_unique(m as nat, lo as nat);
    }
    lo
}

/// Where the clamp sends a velocity: unchanged while its squared length is
/// within the squared limit, else each component scaled by
/// `limit / sqrt_ceil(|v|^2)` with truncating division.
pub open spec fn clamp_vel(v: Vec2, limit: int) -> Vec2 {
    let m = v.norm2();
    if m <= limit * limit {
        v
    } else {
        let s = sqrt_ceil(m as nat) as int;
        Vec2 { x: tdiv(v.x * limit, s) as i64, y: tdiv(v.y * limit, s) as i64 }
    }
}

/// The truncating quotient squared times the divisor squared never exceeds
/// the dividend squared.
proof fn lemma_tdiv_square_bound(a: int, b: int)
    requires
        1 <= b,
    ensures
        tdiv(a, b) * tdiv(a, b) * (b * b) <= a * a,
{
    if a >= 0 {
        let q = a / b;
        lemma_fundamental_div_mod(a, b);
        vstd::arithmetic::div_mod::lemma_mod_division_less_than_divisor(a, b);
        vstd::arithmetic::div_mod::lemma_div_pos_is_pos(a, b);
        assert(q * q * (b * b) <= a * a) by (nonlinear_arith)
            requires
                0 <= q,
                a == b * q + a % b,
                0 <= a % b,
                1 <= b,
        ;
    } else {
        let q = (-a) / b;
        lemma_fundamental_div_mod(-a, b);
        vstd::arithmetic::div_mod::lemma_mod_division_less_than_divisor(-a, b);
        vstd::arithmetic::div_mod::lemma_div_pos_is_pos(-a, b);
        assert(q * q * (b * b) <= (-a) * (-a)) by (nonlinear_arith)
            requires
                0 <= q,
                -a == b * q + (-a) % b,
                0 <= (-a) % b,
                1 <= b,
        ;
        assert((-q) * (-q) * (b * b) == q * q * (b * b) && (-a) * (-a) == a * a) by (nonlinear_arith)
        ;
    }
}

/// Speed-clamp law: the clamp never leaves a squared speed above the
/// squared limit, and a velocity already within the limit — in particular
/// one at the limit with nothing added — passes through unchanged, keeping
/// its direction exactly.
pub proof fn lemma_speed_clamp(v: Vec2, limit: int)
    requires
        0 <= limit <= MAX_WORLD,
    ensures
        clamp_vel(v, limit).norm2() <= limit * limit,
        v.norm2() <= limit * limit ==> clamp_vel(v, limit) == v,
        v.norm2() > limit * limit ==> {
            let s = sqrt_ceil(v.norm2() as nat) as int;
            &&& -limit <= tdiv(v.x * limit, s) <= limit
            &&& -limit <= tdiv(v.y * limit, s) <= limit
        },
{
    let m = v.norm2();
    assert(0 <= m) by (nonlinear_arith)
        requires
            m == v.x * v.x + v.y * v.y,
    ;
    if m > limit * limit {
        let s = sqrt_ceil(m as nat) as int;
        lemma_sqrt_ceil_bracket(m as nat);
        assert(s >= 1) by (nonlinear_arith)
            requires
                s * s >= m,
                m >= 1,
                s >= 0,
        ;
        let tx = tdiv(v.x * limit, s);
        let ty = tdiv(v.y * limit, s);
        lemma_tdiv_square_bound(v.x * limit, s);
        lemma_tdiv_square_bound(v.y * limit, s);
        assert((v.x * limit) * (v.x * limit) + (v.y * limit) * (v.y * limit) == (limit * limit)
            * m) by (nonlinear_arith)
            requires
                m == v.x * v.x + v.y * v.y,
        ;
        assert((limit * limit) * m <= (limit * limit) * (s * s)) by (nonlinear_arith)
            requires
                m <= s * s,
                0 <= limit,
        ;
        assert(tx * tx + ty * ty <= limit * limit) by (nonlinear_arith)
            requires
                tx * tx * (s * s) + ty * ty * (s * s) <= (limit * limit) * (s * s),
                1 <= s,
        ;
        // the components of the scaled vector stay within `limit`, so the
        // casts in the spec are identities
        assert(0 <= tx * tx && 0 <= ty * ty) by (nonlinear_arith);
        assert(tx * tx <= limit * limit && ty * ty <= limit * limit) by (nonlinear_arith)
            requires
                tx * tx + ty * ty <= limit * limit,
                0 <= tx * tx,
                0 <= ty * ty,
        ;
        assert(-limit <= tx <= limit && -limit <= ty <= limit) by (nonlinear_arith)
            requires
                tx * tx <= limit * limit,
                ty * ty <= limit * limit,
                0 <= limit,
        ;
        assert((tx as i64) == tx && (ty as i64) == ty);
        assert(clamp_vel(v, limit).norm2() == tx * tx + ty * ty);
    }
}

/// Clamps a velocity to the speed limit, preserving direction.
pub fn clamp_velocity(v: Vec2, limit: i64) -> (r: Vec2)
    requires
        0 <= limit <= MAX_WORLD,
        -VEL_COMP_LIMIT <= v.x <= VEL_COMP_LIMIT,
        -VEL_COMP_LIMIT <= v.y <= VEL_COMP_LIMIT,
    ensures
        r == clamp_vel(v, limit as int),
        r.norm2() <= limit * limit,
{
    proof {
        lemma_speed_clamp(v, limit as int);
    }
    let x = v.x as i128;
    let y = v.y as i128;
    proof {
        assert(0 <= x * x <= 0x4_0000_0000_0000_0000_0000_0000_0000 && 0 <= y * y
            <= 0x4_0000_0000_0000_0000_0000_0000_0000) by (nonlinear_arith)
            requires
                -0x200_0000_0000_0000 <= x <= 0x200_0000_0000_0000,
                -0x200_0000_0000_0000 <= y <= 0x200_0000_0000_0000,
        ;
    }
    let m = x * x + y * y;
    proof {
        assert(0 <= (limit as i128) * (limit as i128) <= 0x4000_0000) by (nonlinear_arith)
            requires
                0 <= limit <= 0x8000,
        ;
    }
    let lim2 = (limit as i128) * (limit as i128);
    if m <= lim2 {
        v
    } else {
        let s = isqrt_ceil(m as u128);
        proof {
            lemma_sqrt_ceil_bracket(m as nat);
            assert(1 <= s);
            assert(-0x2000_0000_0000_0000_0000 <= x * (limit as i128)
                <= 0x2000_0000_0000_0000_0000 && -0x2000_0000_0000_0000_0000 <= y * (
            limit as i128) <= 0x2000_0000_0000_0000_0000) by (nonlinear_arith)
                requires
                    -0x200_0000_0000_0000 <= x <= 0x200_0000_0000_0000,
                    -0x200_0000_0000_0000 <= y <= 0x200_0000_0000_0000,
                    0 <= limit <= 0x8000,
            ;
        }
        let tx = (x * (limit as i128)) / (s as i128);
        let ty = (y * (limit as i128)) / (s as i128);
        proof {
            assert(tx == tdiv(x * (limit as i128), s as int));
            assert(ty == tdiv(y * (limit as i128), s as int));
        }
        Vec2 { x: tx as i64, y: ty as i64 }
    }
}

/// Where the acceleration-apply stage sends a velocity: advance by
/// `acceleration * dt`, then clamp to the speed limit.
pub open spec fn apply_accel(cfg: Config, v: Vec2, a: Vec2, dt: int) -> Vec2 {
    clamp_vel(
        Vec2 { x: (v.x + a.x * dt) as i64, y: (v.y + a.y * dt) as i64 },
        cfg.speed_limit as int,
    )
}

pub struct AccelSystem;

impl AccelSystem {
    /// Integrates acceleration into velocity for every agent and clamps
    /// each speed to the limit.
    pub fn run(dt: i64, velocities: &mut Vec<Vel>, accelerations: &Vec<Acc>, cfg: &Config)
        requires
            cfg.wf(),
            0 <= dt <= MAX_DT,
            old(velocities)@.len() == accelerations@.len(),
            forall|j: int|
                0 <= j < accelerations@.len() ==> {
                    let a = (#[trigger] accelerations@[j]).0;
                    &&& -ACC_LIMIT <= a.x <= ACC_LIMIT
                    &&& -ACC_LIMIT <= a.y <= ACC_LIMIT
                },
            velocities_bounded(*cfg, old(velocities)@),
        ensures
            final(velocities)@.len() == old(velocities)@.len(),
            forall|j: int|
                0 <= j < old(velocities)@.len() ==> (#[trigger] final(velocities)@[j]).0
                    == apply_accel(*cfg, old(velocities)@[j].0, accelerations@[j].0, dt as int),
            velocities_bounded(*cfg, final(velocities)@),
    {
        let n = velocities.len();
        let mut i: usize = 0;
        while i < n
            invariant
                cfg.wf(),
                0 <= dt <= MAX_DT,
                i <= n,
                n == velocities@.len(),
                n == accelerations@.len(),
                n == old(velocities)@.len(),
                forall|j: int|
                    0 <= j < n ==> {
                        let a = (#[trigger] accelerations@[j]).0;
                        &&& -ACC_LIMIT <= a.x <= ACC_LIMIT
                        &&& -ACC_LIMIT <= a.y <= ACC_LIMIT
                    },
                velocities_bounded(*cfg, old(velocities)@),
                forall|j: int| i <= j < n ==> velocities@[j] == old(velocities)@[j],
                forall|j: int|
                    0 <= j < i ==> {
                        let v = (#[trigger] velocities@[j]).0;
                        &&& v == apply_accel(*cfg, old(velocities)@[j].0, accelerations@[j].0,
                            dt as int)
                        &&& v.norm2() <= cfg.speed_limit * cfg.speed_limit
                    },
            decreases n - i,
        {
            let v = velocities[i].0;
            let a = accelerations[i].0;
            proof {
                assert((old(velocities)@[i as int]).0.norm2() <= cfg.speed_limit
                    * cfg.speed_limit);
                crate::state::lemma_component_bound(v, cfg.speed_limit as int);
                assert(-0x100_0000_0000_0000 <= a.x * dt <= 0x100_0000_0000_0000
                    && -0x100_0000_0000_0000 <= a.y * dt
                    <= 0x100_0000_0000_0000) by (nonlinear_arith)
                    requires
                        -0x4000_0000_0000 <= a.x <= 0x4000_0000_0000,
                        -0x4000_0000_0000 <= a.y <= 0x4000_0000_0000,
                        0 <= dt <= 0x400,
                ;
            }
            let nv = Vec2 { x: v.x + a.x * dt, y: v.y + a.y * dt };
            let cv = clamp_velocity(nv, cfg.speed_limit);
            velocities[i] = Vel(cv);
            i = i + 1;
        }
    }
}

} // verus!
