//! Tests for configuration validation, grid primitives, and the driver:
//! seeding, full steps, and the grid-membership invariant over many frames.

use boids::arith::{floor_div_i64, wrap_i64};
use boids::components::{Pos, Vec2, Vel};
use boids::config::{Config, ConfigError};
use boids::neighborhood::{get_area, Neighborhood};
use boids::sim::Simulation;

#[test]
fn config_accepts_the_reference_parameters() {
    let c = Config::new(800, 600, 50, 50, 1, 25, 1, 10, 2, 100).unwrap();
    assert_eq!(c.world_width, 800);
    assert_eq!(c.grid_width(), 16);
    assert_eq!(c.grid_height(), 12);
}

#[test]
fn config_grid_dimensions_round_up() {
    let c = Config::new(90, 110, 25, 50, 1, 25, 1, 10, 2, 100).unwrap();
    assert_eq!(c.grid_width(), 4); // ceil(90 / 25)
    assert_eq!(c.grid_height(), 5); // ceil(110 / 25)
}

#[test]
fn config_rejects_zero_world_dimension() {
    let r = Config::new(0, 600, 50, 50, 1, 25, 1, 10, 2, 100);
    assert_eq!(r.unwrap_err(), ConfigError::NonPositiveWorldDimension);
}

#[test]
fn config_rejects_non_positive_cell_size() {
    let r = Config::new(800, 600, 0, 50, 1, 25, 1, 10, 2, 100);
    assert_eq!(r.unwrap_err(), ConfigError::NonPositiveCellSize);
    let r = Config::new(800, 600, -5, 50, 1, 25, 1, 10, 2, 100);
    assert_eq!(r.unwrap_err(), ConfigError::NonPositiveCellSize);
}

#[test]
fn config_rejects_negative_parameters() {
    let r = Config::new(800, 600, 50, 50, 1, -25, 1, 10, 2, 100);
    assert_eq!(r.unwrap_err(), ConfigError::NegativeParameter);
    let r = Config::new(800, 600, 50, 50, 1, 25, 1, 10, 2, -1);
    assert_eq!(r.unwrap_err(), ConfigError::NegativeParameter);
}

#[test]
fn config_rejects_ranges_above_the_cohesion_range() {
    let r = Config::new(800, 600, 50, 50, 1, 60, 1, 10, 2, 100);
    assert_eq!(r.unwrap_err(), ConfigError::RangeDominanceViolated);
}

#[test]
fn config_rejects_oversized_parameters() {
    let r = Config::new(40000, 600, 50, 50, 1, 25, 1, 10, 2, 100);
    assert_eq!(r.unwrap_err(), ConfigError::ParameterTooLarge);
}

#[test]
fn wrap_is_a_true_modulo() {
    assert_eq!(wrap_i64(109, 100), 9);
    assert_eq!(wrap_i64(0, 100), 0);
    assert_eq!(wrap_i64(99, 100), 99);
    // negative inputs wrap to the high end, never truncate toward zero
    assert_eq!(wrap_i64(-1, 100), 99);
    assert_eq!(wrap_i64(-250, 100), 50);
}

#[test]
fn cell_mapping_floors_toward_negative_infinity() {
    assert_eq!(floor_div_i64(49, 25), 1);
    assert_eq!(floor_div_i64(-1, 25), -1);
    assert_eq!(floor_div_i64(-25, 25), -1);
    assert_eq!(floor_div_i64(-26, 25), -2);
    assert_eq!(get_area(Vec2 { x: 10, y: 60 }, 25, 25), (0, 2));
    assert_eq!(get_area(Vec2 { x: -10, y: 60 }, 25, 25), (-1, 2));
}

#[test]
fn grid_insert_is_idempotent_and_reports_presence() {
    let mut nh = Neighborhood::new(4, 4);
    assert!(!nh.insert(1, 2, 7)); // not there before
    assert!(nh.insert(1, 2, 7)); // already there
    assert_eq!(nh.get(1, 2).len(), 1);
    assert!(nh.get(1, 2).contains(&7));
}

#[test]
fn grid_remove_reports_presence_and_is_a_noop_otherwise() {
    let mut nh = Neighborhood::new(4, 4);
    nh.insert(1, 2, 7);
    assert!(nh.remove(1, 2, 7));
    assert!(!nh.remove(1, 2, 7));
    assert!(nh.get(1, 2).is_empty());
}

#[test]
fn grid_lookup_wraps_negative_coordinates_to_the_high_end() {
    let mut nh = Neighborhood::new(4, 3);
    nh.insert(3, 2, 5);
    assert!(nh.get(-1, -1).contains(&5));
    assert!(nh.get(7, 5).contains(&5));
    // insert through wrapped coordinates lands in the same cell
    assert!(nh.insert(-1, -1, 5));
}

#[test]
fn seeding_registers_every_agent_consistently() {
    let cfg = Config::new(800, 600, 50, 50, 1, 25, 1, 10, 2, 100).unwrap();
    let sim = Simulation::new(cfg, 200);
    assert_eq!(sim.agent_count(), 200);
    for p in sim.position_snapshot().iter() {
        assert!(0 <= p.0.x && p.0.x < 800);
        assert!(0 <= p.0.y && p.0.y < 600);
    }
    for v in sim.velocity_snapshot().iter() {
        assert!(v.0.x * v.0.x + v.0.y * v.0.y <= 100 * 100);
    }
    for a in sim.accelerations.iter() {
        assert_eq!(a.0, Vec2 { x: 0, y: 0 });
    }
    assert_membership_consistent(&sim);
}

/// Checks that every agent id appears in exactly one grid cell, the one
/// its position maps to.
fn assert_membership_consistent(sim: &Simulation) {
    let cfg = &sim.config;
    let gw = cfg.grid_width();
    let gh = cfg.grid_height();
    let n = sim.agent_count();
    let mut seen = vec![0usize; n];
    for cy in 0..gh {
        for cx in 0..gw {
            for &id in sim.grid.get(cx, cy).iter() {
                assert!(id < n);
                seen[id] += 1;
                let (hx, hy) = get_area(sim.positions[id].0, cfg.cell_size, cfg.cell_size);
                assert_eq!((hx, hy), (cx, cy));
            }
        }
    }
    for count in seen {
        assert_eq!(count, 1);
    }
}

#[test]
fn steps_keep_the_grid_membership_invariant() {
    let cfg = Config::new(100, 100, 25, 50, 3, 25, 2, 10, 4, 100).unwrap();
    let mut sim = Simulation::new(cfg, 64);
    for _ in 0..25 {
        sim.step(1);
        for p in sim.position_snapshot().iter() {
            assert!(0 <= p.0.x && p.0.x < 100);
            assert!(0 <= p.0.y && p.0.y < 100);
        }
        for v in sim.velocity_snapshot().iter() {
            assert!(v.0.x * v.0.x + v.0.y * v.0.y <= 100 * 100);
        }
        assert_membership_consistent(&sim);
    }
}

#[test]
fn single_agent_step_is_pure_integration() {
    let cfg = Config::new(100, 100, 25, 50, 3, 25, 2, 10, 4, 100).unwrap();
    let mut grid = Neighborhood::new(cfg.grid_width(), cfg.grid_height());
    grid.insert(3, 2, 0);
    let mut sim = Simulation {
        config: cfg,
        positions: vec![Pos(Vec2 { x: 99, y: 50 })],
        velocities: vec![Vel(Vec2 { x: 10, y: 0 })],
        accelerations: vec![boids::components::Acc(Vec2 { x: 0, y: 0 })],
        grid,
    };
    sim.step(1);
    assert_eq!(sim.positions[0].0, Vec2 { x: 9, y: 50 });
    // no neighbors: zero acceleration, velocity unchanged
    assert_eq!(sim.accelerations[0].0, Vec2 { x: 0, y: 0 });
    assert_eq!(sim.velocities[0].0, Vec2 { x: 10, y: 0 });
}

#[test]
fn empty_population_steps_without_effect() {
    let cfg = Config::new(100, 100, 25, 50, 3, 25, 2, 10, 4, 100).unwrap();
    let mut sim = Simulation::new(cfg, 0);
    sim.step(1);
    assert_eq!(sim.agent_count(), 0);
}
