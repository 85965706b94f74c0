//! Scenario tests for the simulation pipeline: wraparound integration,
//! flocking accumulation, and speed clamping on concrete populations.

use boids::accel::{clamp_velocity, AccelSystem};
use boids::components::{Acc, Pos, Vel, Vec2};
use boids::config::Config;
use boids::flocking::BoidSystem;
use boids::integrate::VelocitySystem;
use boids::neighborhood::Neighborhood;

fn test_config() -> Config {
    // world 100x100, cell size 25 (a 4x4 grid), cohesion range 50 /
    // magnitude 3, alignment range 25 / magnitude 2, repulsion range 10 /
    // magnitude 4, speed limit 100
    Config::new(100, 100, 25, 50, 3, 25, 2, 10, 4, 100).unwrap()
}

fn grid_for(cfg: &Config, positions: &Vec<Pos>) -> Neighborhood {
    let mut nh = Neighborhood::new(cfg.grid_width(), cfg.grid_height());
    for (i, p) in positions.iter().enumerate() {
        let (cx, cy) = boids::neighborhood::get_area(p.0, cfg.cell_size, cfg.cell_size);
        nh.insert(cx, cy, i);
    }
    nh
}

#[test]
fn integration_wraps_at_the_world_edge() {
    // agent at (99, 50), velocity (10, 0), dt = 1, world width 100:
    // new x = (99 + 10) mod 100 = 9
    let cfg = test_config();
    let mut positions = vec![Pos(Vec2 { x: 99, y: 50 })];
    let velocities = vec![Vel(Vec2 { x: 10, y: 0 })];
    let mut nh = grid_for(&cfg, &positions);
    VelocitySystem::run(1, &velocities, &mut positions, &mut nh, &cfg);
    assert_eq!(positions[0].0, Vec2 { x: 9, y: 50 });
}

#[test]
fn integration_moves_grid_membership() {
    let cfg = test_config();
    let mut positions = vec![Pos(Vec2 { x: 99, y: 50 })];
    let velocities = vec![Vel(Vec2 { x: 10, y: 0 })];
    let mut nh = grid_for(&cfg, &positions);
    assert!(nh.get(3, 2).contains(&0));
    VelocitySystem::run(1, &velocities, &mut positions, &mut nh, &cfg);
    // the agent moved from cell (3, 2) to cell (0, 2)
    assert!(!nh.get(3, 2).contains(&0));
    assert!(nh.get(0, 2).contains(&0));
}

#[test]
fn integration_keeps_positions_in_world() {
    let cfg = test_config();
    let mut positions = vec![
        Pos(Vec2 { x: 0, y: 0 }),
        Pos(Vec2 { x: 99, y: 99 }),
        Pos(Vec2 { x: 50, y: 50 }),
    ];
    let velocities = vec![
        Vel(Vec2 { x: -70, y: -1 }),
        Vel(Vec2 { x: 70, y: 70 }),
        Vel(Vec2 { x: 0, y: -100 }),
    ];
    let mut nh = grid_for(&cfg, &positions);
    for _ in 0..7 {
        VelocitySystem::run(1, &velocities, &mut positions, &mut nh, &cfg);
        for p in positions.iter() {
            assert!(0 <= p.0.x && p.0.x < 100);
            assert!(0 <= p.0.y && p.0.y < 100);
        }
    }
}

#[test]
fn cohesion_pulls_two_agents_toward_each_other() {
    // 2 agents, world 100x100, cell size 25, positions (10,10) and
    // (12,10), cohesion range 50: each agent's cohesion term points toward
    // the other with magnitude distance_vector * cohesionMagnitude / 1.
    // Alignment and repulsion are silenced by zero magnitudes.
    let cfg = Config::new(100, 100, 25, 50, 3, 25, 0, 10, 0, 100).unwrap();
    let positions = vec![Pos(Vec2 { x: 10, y: 10 }), Pos(Vec2 { x: 12, y: 10 })];
    let velocities = vec![Vel(Vec2 { x: 0, y: 0 }), Vel(Vec2 { x: 0, y: 0 })];
    let mut accelerations = vec![Acc(Vec2 { x: 0, y: 0 }), Acc(Vec2 { x: 0, y: 0 })];
    let nh = grid_for(&cfg, &positions);
    BoidSystem::run(&nh, &positions, &velocities, &mut accelerations, &cfg);
    assert_eq!(accelerations[0].0, Vec2 { x: 2 * 3, y: 0 });
    assert_eq!(accelerations[1].0, Vec2 { x: -2 * 3, y: 0 });
}

#[test]
fn alignment_averages_neighbor_velocities() {
    // cohesion and repulsion silenced; two neighbors within the alignment
    // range with velocities (8, 0) and (0, 6): the center agent gets
    // ((8+0)/2, (0+6)/2) * alignMagnitude
    let cfg = Config::new(100, 100, 25, 50, 0, 25, 2, 10, 0, 100).unwrap();
    let positions = vec![
        Pos(Vec2 { x: 50, y: 50 }),
        Pos(Vec2 { x: 55, y: 50 }),
        Pos(Vec2 { x: 50, y: 55 }),
    ];
    let velocities = vec![
        Vel(Vec2 { x: 0, y: 0 }),
        Vel(Vec2 { x: 8, y: 0 }),
        Vel(Vec2 { x: 0, y: 6 }),
    ];
    let mut accelerations = vec![Acc(Vec2 { x: 0, y: 0 }); 3];
    let nh = grid_for(&cfg, &positions);
    BoidSystem::run(&nh, &positions, &velocities, &mut accelerations, &cfg);
    assert_eq!(accelerations[0].0, Vec2 { x: (8 / 2) * 2, y: (6 / 2) * 2 });
}

#[test]
fn repulsion_pushes_close_agents_apart() {
    let cfg = Config::new(100, 100, 25, 50, 0, 25, 0, 10, 4, 100).unwrap();
    let positions = vec![Pos(Vec2 { x: 50, y: 50 }), Pos(Vec2 { x: 53, y: 50 })];
    let velocities = vec![Vel(Vec2 { x: 0, y: 0 }); 2];
    let mut accelerations = vec![Acc(Vec2 { x: 0, y: 0 }); 2];
    let nh = grid_for(&cfg, &positions);
    BoidSystem::run(&nh, &positions, &velocities, &mut accelerations, &cfg);
    // repulsion subtracts the offset to the neighbor, scaled by 4
    assert_eq!(accelerations[0].0, Vec2 { x: -3 * 4, y: 0 });
    assert_eq!(accelerations[1].0, Vec2 { x: 3 * 4, y: 0 });
}

#[test]
fn isolated_agent_gets_zero_acceleration() {
    let cfg = test_config();
    let positions = vec![Pos(Vec2 { x: 50, y: 50 })];
    let velocities = vec![Vel(Vec2 { x: 7, y: -7 })];
    let mut accelerations = vec![Acc(Vec2 { x: 1, y: 1 })];
    let nh = grid_for(&cfg, &positions);
    BoidSystem::run(&nh, &positions, &velocities, &mut accelerations, &cfg);
    assert_eq!(accelerations[0].0, Vec2 { x: 0, y: 0 });
}

#[test]
fn agents_beyond_every_range_ignore_each_other() {
    let cfg = Config::new(100, 100, 25, 20, 3, 15, 2, 10, 4, 100).unwrap();
    let positions = vec![Pos(Vec2 { x: 10, y: 10 }), Pos(Vec2 { x: 60, y: 60 })];
    let velocities = vec![Vel(Vec2 { x: 5, y: 0 }); 2];
    let mut accelerations = vec![Acc(Vec2 { x: 9, y: 9 }); 2];
    let nh = grid_for(&cfg, &positions);
    BoidSystem::run(&nh, &positions, &velocities, &mut accelerations, &cfg);
    assert_eq!(accelerations[0].0, Vec2 { x: 0, y: 0 });
    assert_eq!(accelerations[1].0, Vec2 { x: 0, y: 0 });
}

#[test]
fn cross_seam_pair_is_found_but_filtered_by_raw_distance() {
    // the query box wraps across the world edge, so the far-side agent is
    // a candidate, but the raw (non-toroidal) distance excludes it
    let cfg = test_config();
    let positions = vec![Pos(Vec2 { x: 1, y: 50 }), Pos(Vec2 { x: 99, y: 50 })];
    let velocities = vec![Vel(Vec2 { x: 0, y: 0 }); 2];
    let mut accelerations = vec![Acc(Vec2 { x: 0, y: 0 }); 2];
    let nh = grid_for(&cfg, &positions);
    BoidSystem::run(&nh, &positions, &velocities, &mut accelerations, &cfg);
    // raw distance 98 > cohesion range 50: no interaction
    assert_eq!(accelerations[0].0, Vec2 { x: 0, y: 0 });
    assert_eq!(accelerations[1].0, Vec2 { x: 0, y: 0 });
}

#[test]
fn neighbor_query_finds_every_agent_within_cohesion_range() {
    // a ring of agents around the center, all within range 50, some in
    // other grid cells: every one contributes to the cohesion count, so
    // the sum of offsets (which cancels pairwise) leaves zero and a
    // one-sided probe shows the pull
    let cfg = Config::new(100, 100, 25, 50, 3, 25, 0, 10, 0, 100).unwrap();
    let positions = vec![
        Pos(Vec2 { x: 50, y: 50 }),
        Pos(Vec2 { x: 20, y: 50 }),
        Pos(Vec2 { x: 80, y: 50 }),
        Pos(Vec2 { x: 50, y: 20 }),
        Pos(Vec2 { x: 50, y: 80 }),
    ];
    let velocities = vec![Vel(Vec2 { x: 0, y: 0 }); 5];
    let mut accelerations = vec![Acc(Vec2 { x: 0, y: 0 }); 5];
    let nh = grid_for(&cfg, &positions);
    BoidSystem::run(&nh, &positions, &velocities, &mut accelerations, &cfg);
    // the four offsets (-30,0), (30,0), (0,-30), (0,30) cancel exactly
    assert_eq!(accelerations[0].0, Vec2 { x: 0, y: 0 });
    // the agent at (20,50) sees (50,50) at +30 and (80,50) at +60 (out of
    // range), (50,20) and (50,80) at distance^2 1800 <= 2500: offsets
    // (30,0) + (30,-30) + (30,30) = (90,0), averaged over 3 then scaled
    assert_eq!(accelerations[1].0, Vec2 { x: (90 / 3) * 3, y: 0 });
}

#[test]
fn speed_clamp_rescales_to_exactly_the_limit() {
    // velocity magnitude 500, speed limit 100: after the clamp the
    // magnitude is exactly 100 and the direction is unchanged
    let c = clamp_velocity(Vec2 { x: 500, y: 0 }, 100);
    assert_eq!(c, Vec2 { x: 100, y: 0 });
    let c = clamp_velocity(Vec2 { x: 300, y: 400 }, 100);
    assert_eq!(c, Vec2 { x: 60, y: 80 });
    assert_eq!(c.x * c.x + c.y * c.y, 100 * 100);
}

#[test]
fn speed_clamp_leaves_slow_velocities_alone() {
    let c = clamp_velocity(Vec2 { x: -30, y: 40 }, 100);
    assert_eq!(c, Vec2 { x: -30, y: 40 });
    // exactly at the limit: untouched, direction preserved
    let c = clamp_velocity(Vec2 { x: 60, y: -80 }, 100);
    assert_eq!(c, Vec2 { x: 60, y: -80 });
}

#[test]
fn acceleration_apply_integrates_then_clamps() {
    let cfg = test_config();
    let mut velocities = vec![Vel(Vec2 { x: 50, y: 0 }), Vel(Vec2 { x: 100, y: 0 })];
    let accelerations = vec![Acc(Vec2 { x: 100, y: 0 }), Acc(Vec2 { x: 0, y: 0 })];
    AccelSystem::run(1, &mut velocities, &accelerations, &cfg);
    // 50 + 100 = 150, clamped to the limit 100
    assert_eq!(velocities[0].0, Vec2 { x: 100, y: 0 });
    // at the limit with zero acceleration: direction unchanged
    assert_eq!(velocities[1].0, Vec2 { x: 100, y: 0 });
}

#[test]
fn acceleration_apply_keeps_every_speed_under_the_limit() {
    let cfg = test_config();
    let mut velocities = vec![
        Vel(Vec2 { x: 0, y: 0 }),
        Vel(Vec2 { x: 70, y: -70 }),
        Vel(Vec2 { x: -100, y: 0 }),
    ];
    let accelerations = vec![
        Acc(Vec2 { x: 33, y: -44 }),
        Acc(Vec2 { x: 70, y: 70 }),
        Acc(Vec2 { x: -1000, y: 999 }),
    ];
    AccelSystem::run(2, &mut velocities, &accelerations, &cfg);
    for v in velocities.iter() {
        assert!(v.0.x * v.0.x + v.0.y * v.0.y <= 100 * 100);
    }
}
