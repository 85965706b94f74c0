//! The integration stage: advances every position by `velocity * dt`,
//! wraps it into the world rectangle (toroidal topology), and keeps the
//! spatial grid's membership in step when an agent changes cell.

use vstd::prelude::*;
use crate::arith::wrap_i64;
use crate::components::{Pos, Vel, Vec2};
use crate::config::{Config, MAX_DT, MAX_AGENTS};
use crate::neighborhood::{Neighborhood, get_area, lemma_remove_value_facts};
use crate::state::{
    cell_x, cell_y, positions_in_world, velocities_bounded, grid_matches, lemma_component_bound,
    lemma_push_contains, lemma_home_cell_in_grid, lemma_lin_injective_in_grid,
};

verus! {

/// Where one integration step puts a position: each coordinate advances by
/// `velocity * dt` and wraps into `[0, world dimension)` with a true
/// (always non-negative) modulo.
pub open spec fn integrate_pos(cfg: Config, p: Vec2, v: Vec2, dt: int) -> Vec2 {
    Vec2 {
        x: ((p.x + v.x * dt) % cfg.world_width as int) as i64,
        y: ((p.y + v.y * dt) % cfg.world_height as int) as i64,
    }
}

pub struct VelocitySystem;

impl VelocitySystem {
    /// Integrates every agent's position and maintains grid membership.
    pub fn run(
        dt: i64,
        velocities: &Vec<Vel>,
        positions: &mut Vec<Pos>,
        nh: &mut Neighborhood,
        cfg: &Config,
    )
        requires
            cfg.wf(),
            0 <= dt <= MAX_DT,
            old(positions)@.len() == velocities@.len(),
            old(positions)@.len() <= MAX_AGENTS,
            positions_in_world(*cfg, old(positions)@),
            velocities_bounded(*cfg, velocities@),
            grid_matches(*cfg, old(positions)@, *old(nh)),
        ensures
            final(positions)@.len() == old(positions)@.len(),
            forall|i: int|
                0 <= i < old(positions)@.len() ==> (#[trigger] final(positions)@[i]).0
                    == integrate_pos(*cfg, old(positions)@[i].0, velocities@[i].0, dt as int),
            positions_in_world(*cfg, final(positions)@),
            grid_matches(*cfg, final(positions)@, *final(nh)),
    {
        let n = positions.len();
        let mut i: usize = 0;
        while i < n
            invariant
                cfg.wf(),
                0 <= dt <= MAX_DT,
                i <= n,
                n == positions@.len(),
                n == velocities@.len(),
                n == old(positions)@.len(),
                n <= MAX_AGENTS,
                velocities_bounded(*cfg, velocities@),
                forall|j: int|
                    0 <= j < i ==> (#[trigger] positions@[j]).0 == integrate_pos(
                        *cfg,
                        old(positions)@[j].0,
                        velocities@[j].0,
                        dt as int,
                    ),
                forall|j: int| i <= j < n ==> positions@[j] == old(positions)@[j],
                positions_in_world(*cfg, positions@),
                grid_matches(*cfg, positions@, *nh),
            decreases n - i,
        {
            let v = velocities[i].0;
            let p = positions[i].0;
            proof {
                assert((velocities@[i as int]).0.norm2() <= cfg.speed_limit * cfg.speed_limit);
                assert(0 <= (positions@[i as int]).0.x < cfg.world_width);
                lemma_component_bound(v, cfg.speed_limit as int);
                assert(-0x4000_0000 <= v.x * dt <= 0x4000_0000 && -0x4000_0000 <= v.y * dt
                    <= 0x4000_0000) by (nonlinear_arith)
                    requires
                        -0x8000 <= v.x <= 0x8000,
                        -0x8000 <= v.y <= 0x8000,
                        0 <= dt <= 0x400,
                ;
            }
            let (prev_x, prev_y) = get_area(p, cfg.cell_size, cfg.cell_size);
            let nx = wrap_i64(p.x + v.x * dt, cfg.world_width);
            let ny = wrap_i64(p.y + v.y * dt, cfg.world_height);
            let np = Vec2 { x: nx, y: ny };
            let (curr_x, curr_y) = get_area(np, cfg.cell_size, cfg.cell_size);
            let ghost ps0 = positions@;
            let ghost nh0 = *nh;
            positions[i] = Pos(np);
            proof {
                assert(positions@ == ps0.update(i as int, Pos(np)));
                lemma_home_cell_in_grid(*cfg, p);
                lemma_home_cell_in_grid(*cfg, np);
            }
            if prev_x != curr_x || prev_y != curr_y {
                proof {
                    lemma_lin_injective_in_grid(
                        *nh,
                        prev_x as int,
                        prev_y as int,
                        curr_x as int,
                        curr_y as int,
                    );
                }
                let ghost l_prev = nh0.lin(prev_x as int, prev_y as int);
                let ghost l_curr = nh0.lin(curr_x as int, curr_y as int);
                nh.remove(prev_x, prev_y, i);
                let ghost nh1 = *nh;
                proof {
                    nh0.lemma_lin_bounds(prev_x as int, prev_y as int);
                    nh0.lemma_lin_bounds(curr_x as int, curr_y as int);
                    assert(l_prev != l_curr);
                    lemma_remove_value_facts(nh0.cells@[l_prev]@, i);
                    assert(nh1.cells@[l_curr]@ == nh0.cells@[l_curr]@);
                    assert(!nh0.cells@[l_curr]@.contains(i));
                    assert(!nh1.cells@[l_curr]@.contains(i));
                }
                nh.insert(curr_x, curr_y, i);
                proof {
                    assert(nh.cells@[l_curr]@ == nh1.cells@[l_curr]@.push(i));
                    assert forall|l: int, id: usize| 0 <= l < nh.cells@.len() implies ((
                    #[trigger] nh.cells@[l]@.contains(id)) <==> id < positions@.len() && l
                        == nh.lin(
                        cell_x(*cfg, positions@[id as int].0),
                        cell_y(*cfg, positions@[id as int].0),
                    )) by {
                        lemma_push_contains(nh1.cells@[l_curr]@, i, id);
                        if id != i {
                            lemma_remove_value_facts(nh0.cells@[l_prev]@, i);
                            assert(nh1.cells@[l]@.contains(id) == nh0.cells@[l]@.contains(id));
                            assert(nh.cells@[l]@.contains(id) == nh1.cells@[l]@.contains(id));
                            if (id as int) < n {
                                assert(positions@[id as int] == ps0[id as int]);
                            }
                        } else {
                            if l != l_curr {
                                assert(nh.cells@[l]@ == nh1.cells@[l]@);
                                if l != l_prev {
                                    assert(nh1.cells@[l]@ == nh0.cells@[l]@);
                                }
                            }
                        }
                    }
                }
            } else {
                proof {
                    assert forall|l: int, id: usize| 0 <= l < nh.cells@.len() implies ((
                    #[trigger] nh.cells@[l]@.contains(id)) <==> id < positions@.len() && l
                        == nh.lin(
                        cell_x(*cfg, positions@[id as int].0),
                        cell_y(*cfg, positions@[id as int].0),
                    )) by {
                        if id != i {
                            if (id as int) < n {
                                assert(positions@[id as int] == ps0[id as int]);
                            }
                        } else {
                            assert(cell_x(*cfg, np) == cell_x(*cfg, p));
                            assert(cell_y(*cfg, np) == cell_y(*cfg, p));
                        }
                    }
                }
            }
            i = i + 1;
        }
    }
}

} // verus!
