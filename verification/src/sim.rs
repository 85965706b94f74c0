//! The pipeline driver: owns the agent store, the spatial grid and the
//! configuration, seeds the initial population, and runs the three stages
//! in fixed order — Integration, Flocking, Acceleration-Apply — once per
//! frame.

use vstd::prelude::*;
use crate::components::{Pos, Vel, Acc, Vec2};
use crate::config::{Config, MAX_DT, MAX_AGENTS};
use crate::neighborhood::{Neighborhood, get_area};
use crate::state::{
    cell_x, cell_y, positions_in_world, velocities_bounded, grid_matches, lemma_push_contains,
};
use crate::integrate::{VelocitySystem, integrate_pos};
use crate::flocking::{BoidSystem, flock_accel};
use crate::accel::{AccelSystem, apply_accel, clamp_velocity};

verus! {

/// Relies on rand::random: draws a machine-random value; nothing is
/// promised of it, so everything downstream is proved for every outcome.
#[verifier::external_body]
fn random_u64() -> u64 {
    rand::random::<u64>()
}

pub struct Simulation {
    pub config: Config,
    pub positions: Vec<Pos>,
    pub velocities: Vec<Vel>,
    pub accelerations: Vec<Acc>,
    pub grid: Neighborhood,
}

impl Simulation {
    /// The between-frames invariant: a well-formed configuration, equal
    /// store lengths, positions inside the world, speeds within the limit,
    /// and grid membership matching positions.
    pub open spec fn wf(self) -> bool {
        &&& self.config.wf()
        &&& self.positions@.len() == self.velocities@.len()
        &&& self.positions@.len() == self.accelerations@.len()
        &&& self.positions@.len() <= MAX_AGENTS
        &&& positions_in_world(self.config, self.positions@)
        &&& velocities_bounded(self.config, self.velocities@)
        &&& grid_matches(self.config, self.positions@, self.grid)
    }

    /// Seeds `count` agents with randomized positions across the world and
    /// randomized velocities clamped to the speed limit, zero acceleration,
    /// and each agent registered in its initial grid cell.
    pub fn new(config: Config, count: usize) -> (r: Simulation)
        requires
            config.wf(),
            count <= MAX_AGENTS,
        ensures
            r.wf(),
            r.config == config,
            r.positions@.len() == count,
            forall|j: int|
                0 <= j < count ==> (#[trigger] r.accelerations@[j]).0 == (Vec2 {
                    x: 0i64,
                    y: 0i64,
                }),
    {
        let gw = config.grid_width();
        let gh = config.grid_height();
        let mut grid = Neighborhood::new(gw, gh);
        let mut positions: Vec<Pos> = Vec::new();
        let mut velocities: Vec<Vel> = Vec::new();
        let mut accelerations: Vec<Acc> = Vec::new();
        let mut i: usize = 0;
        while i < count
            invariant
                config.wf(),
                i <= count,
                count <= MAX_AGENTS,
                positions@.len() == i,
                velocities@.len() == i,
                accelerations@.len() == i,
                positions_in_world(config, positions@),
                velocities_bounded(config, velocities@),
                grid_matches(config, positions@, grid),
                forall|j: int|
                    0 <= j < i ==> (#[trigger] accelerations@[j]).0 == (Vec2 { x: 0i64, y: 0i64 }),
            decreases count - i,
        {
            let px = (random_u64() % (config.world_width as u64)) as i64;
            let py = (random_u64() % (config.world_height as u64)) as i64;
            let span = (2 * config.cell_size + 1) as u64;
            let vx = (random_u64() % span) as i64 - config.cell_size;
            let vy = (random_u64() % span) as i64 - config.cell_size;
            let vel = clamp_velocity(Vec2 { x: vx, y: vy }, config.speed_limit);
            let p = Vec2 { x: px, y: py };
            let (cx, cy) = get_area(p, config.cell_size, config.cell_size);
            let ghost grid0 = grid;
            let ghost ps0 = positions@;
            grid.insert(cx, cy, i);
            positions.push(Pos(p));
            velocities.push(Vel(vel));
            accelerations.push(Acc(Vec2 { x: 0, y: 0 }));
            proof {
                let l_home = grid0.lin(cx as int, cy as int);
                grid0.lemma_lin_bounds(cx as int, cy as int);
                assert(!grid0.cells@[l_home]@.contains(i));
                assert forall|l: int, id: usize| 0 <= l < grid.cells@.len() implies ((
                #[trigger] grid.cells@[l]@.contains(id)) <==> id < positions@.len() && l
                    == grid.lin(
                    cell_x(config, positions@[id as int].0),
                    cell_y(config, positions@[id as int].0),
                )) by {
                    lemma_push_contains(grid0.cells@[l_home]@, i, id);
                    if id != i {
                        if (id as int) < i {
                            assert(positions@[id as int] == ps0[id as int]);
                        }
                        if l != l_home {
                            assert(grid.cells@[l]@ == grid0.cells@[l]@);
                        }
                    } else {
                        assert(positions@[i as int].0 == p);
                        if l != l_home {
                            assert(grid.cells@[l]@ == grid0.cells@[l]@);
                        }
                    }
                }
            }
            i = i + 1;
        }
        Simulation { config, positions, velocities, accelerations, grid }
    }

    /// Runs one frame: Integration, then Flocking, then Acceleration-Apply,
    /// threading the elapsed time through, with each stage complete before
    /// the next starts.
    pub fn step(&mut self, dt: i64)
        requires
            old(self).wf(),
            0 <= dt <= MAX_DT,
        ensures
            final(self).wf(),
            final(self).config == old(self).config,
            final(self).positions@.len() == old(self).positions@.len(),
            forall|i: int|
                0 <= i < old(self).positions@.len() ==> {
                    &&& (#[trigger] final(self).positions@[i]).0 == integrate_pos(
                        old(self).config,
                        old(self).positions@[i].0,
                        old(self).velocities@[i].0,
                        dt as int,
                    )
                    &&& final(self).accelerations@[i].0 == flock_accel(
                        old(self).config,
                        final(self).positions@,
                        old(self).velocities@,
                        final(self).grid,
                        i,
                    )
                    &&& final(self).velocities@[i].0 == apply_accel(
                        old(self).config,
                        old(self).velocities@[i].0,
                        final(self).accelerations@[i].0,
                        dt as int,
                    )
                },
    {
        let cfg = self.config;
        VelocitySystem::run(dt, &self.velocities, &mut self.positions, &mut self.grid, &cfg);
        BoidSystem::run(&self.grid, &self.positions, &self.velocities, &mut self.accelerations,
            &cfg);
        AccelSystem::run(dt, &mut self.velocities, &self.accelerations, &cfg);
    }

    /// Read-only position snapshot for a renderer; not to be called while
    /// a step is in progress.
    pub fn position_snapshot(&self) -> (r: &Vec<Pos>)
        ensures
            r@ == self.positions@,
    {
        &self.positions
    }

    /// Read-only velocity snapshot for a renderer.
    pub fn velocity_snapshot(&self) -> (r: &Vec<Vel>)
        ensures
            r@ == self.velocities@,
    {
        &self.velocities
    }

    pub fn agent_count(&self) -> (r: usize)
        ensures
            r == self.positions@.len(),
    {
        self.positions.len()
    }
}

} // verus!
