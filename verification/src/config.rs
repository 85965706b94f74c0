//! The immutable per-run configuration: world dimensions, grid cell size,
//! behavior ranges and magnitudes, and the speed limit. Invalid parameters
//! are rejected at construction, before any simulation step runs.

use vstd::prelude::*;
use vstd::arithmetic::div_mod::{
    lemma_div_is_ordered, lemma_div_pos_is_pos, lemma_div_plus_one, lemma_div_by_self,
};

verus! {

/// Cap on world dimensions, cell size, ranges and the speed limit, chosen so
/// that every intermediate product of the pipeline fits the fixed-point
/// arithmetic.
pub const MAX_WORLD: i64 = 0x8000;

/// Cap on the behavior magnitudes.
pub const MAX_MAGNITUDE: i64 = 0x400;

/// Cap on the per-frame elapsed time.
pub const MAX_DT: i64 = 0x400;

/// Cap on the population size.
pub const MAX_AGENTS: usize = 0x10_0000;

#[derive(Clone, Copy, PartialEq, Eq, Structural, Debug)]
pub struct Config {
    pub world_width: i64,
    pub world_height: i64,
    pub cell_size: i64,
    pub cohesion_range: i64,
    pub cohesion_magnitude: i64,
    pub align_range: i64,
    pub align_magnitude: i64,
    pub repulsion_range: i64,
    pub repulsion_magnitude: i64,
    pub speed_limit: i64,
}

/// Why a configuration was rejected at construction.
#[derive(Clone, Copy, PartialEq, Eq, Structural, Debug)]
pub enum ConfigError {
    /// A world dimension is zero or negative.
    NonPositiveWorldDimension,
    /// The grid cell size is zero or negative.
    NonPositiveCellSize,
    /// A range, magnitude or the speed limit is negative.
    NegativeParameter,
    /// The alignment or repulsion range exceeds the cohesion range, which
    /// must dominate because it alone sizes the neighbor query box.
    RangeDominanceViolated,
    /// A parameter exceeds the fixed-point caps.
    ParameterTooLarge,
}

impl Config {
    /// A configuration the pipeline's arithmetic is proved exact for.
    pub open spec fn wf(self) -> bool {
        &&& 1 <= self.world_width <= MAX_WORLD
        &&& 1 <= self.world_height <= MAX_WORLD
        &&& 1 <= self.cell_size <= MAX_WORLD
        &&& 0 <= self.cohesion_range <= MAX_WORLD
        &&& 0 <= self.align_range <= self.cohesion_range
        &&& 0 <= self.repulsion_range <= self.cohesion_range
        &&& 0 <= self.cohesion_magnitude <= MAX_MAGNITUDE
        &&& 0 <= self.align_magnitude <= MAX_MAGNITUDE
        &&& 0 <= self.repulsion_magnitude <= MAX_MAGNITUDE
        &&& 0 <= self.speed_limit <= MAX_WORLD
    }

    /// Which error `Config::new` reports for an ill-formed candidate.
    pub open spec fn rejection(self) -> ConfigError {
        if self.world_width < 1 || self.world_height < 1 {
            ConfigError::NonPositiveWorldDimension
        } else if self.cell_size < 1 {
            ConfigError::NonPositiveCellSize
        } else if self.cohesion_range < 0 || self.align_range < 0 || self.repulsion_range < 0
            || self.cohesion_magnitude < 0 || self.align_magnitude < 0
            || self.repulsion_magnitude < 0 || self.speed_limit < 0 {
            ConfigError::NegativeParameter
        } else if self.align_range > self.cohesion_range
            || self.repulsion_range > self.cohesion_range {
            ConfigError::RangeDominanceViolated
        } else {
            ConfigError::ParameterTooLarge
        }
    }

    /// Validates a configuration; a well-formed one is returned unchanged,
    /// anything else is rejected with the reason.
    pub fn new(
        world_width: i64,
        world_height: i64,
        cell_size: i64,
        cohesion_range: i64,
        cohesion_magnitude: i64,
        align_range: i64,
        align_magnitude: i64,
        repulsion_range: i64,
        repulsion_magnitude: i64,
        speed_limit: i64,
    ) -> (r: Result<Config, ConfigError>)
        ensures
            ({
                let c = Config {
                    world_width,
                    world_height,
                    cell_size,
                    cohesion_range,
                    cohesion_magnitude,
                    align_range,
                    align_magnitude,
                    repulsion_range,
                    repulsion_magnitude,
                    speed_limit,
                };
                match r {
                    Ok(ok) => ok == c && c.wf(),
                    Err(e) => !c.wf() && e == c.rejection(),
                }
            }),
    {
        let c = Config {
            world_width,
            world_height,
            cell_size,
            cohesion_range,
            cohesion_magnitude,
            align_range,
            align_magnitude,
            repulsion_range,
            repulsion_magnitude,
            speed_limit,
        };
        if world_width < 1 || world_height < 1 {
            Err(ConfigError::NonPositiveWorldDimension)
        } else if cell_size < 1 {
            Err(ConfigError::NonPositiveCellSize)
        } else if cohesion_range < 0 || align_range < 0 || repulsion_range < 0
            || cohesion_magnitude < 0 || align_magnitude < 0 || repulsion_magnitude < 0
            || speed_limit < 0 {
            Err(ConfigError::NegativeParameter)
        } else if align_range > cohesion_range || repulsion_range > cohesion_range {
            Err(ConfigError::RangeDominanceViolated)
        } else if world_width > MAX_WORLD || world_height > MAX_WORLD || cell_size > MAX_WORLD
            || cohesion_range > MAX_WORLD || cohesion_magnitude > MAX_MAGNITUDE
            || align_magnitude > MAX_MAGNITUDE || repulsion_magnitude > MAX_MAGNITUDE
            || speed_limit > MAX_WORLD {
            Err(ConfigError::ParameterTooLarge)
        } else {
            Ok(c)
        }
    }

    /// Number of grid cells across: `ceil(world_width / cell_size)`.
    pub open spec fn grid_w(self) -> int {
        (self.world_width + self.cell_size - 1) as int / self.cell_size as int
    }

    /// Number of grid cells down: `ceil(world_height / cell_size)`.
    pub open spec fn grid_h(self) -> int {
        (self.world_height + self.cell_size - 1) as int / self.cell_size as int
    }

    pub fn grid_width(&self) -> (r: i64)
        requires
            self.wf(),
        ensures
            r == self.grid_w(),
            1 <= r <= MAX_WORLD,
    {
        proof {
            lemma_ceil_div_bounds(self.world_width as int, self.cell_size as int);
        }
        (self.world_width + self.cell_size - 1) / self.cell_size
    }

    pub fn grid_height(&self) -> (r: i64)
        requires
            self.wf(),
        ensures
            r == self.grid_h(),
            1 <= r <= MAX_WORLD,
    {
        proof {
            lemma_ceil_div_bounds(self.world_height as int, self.cell_size as int);
        }
        (self.world_height + self.cell_size - 1) / self.cell_size
    }

    /// The grid dimensions of a well-formed configuration are themselves in
    /// range.
    pub proof fn lemma_grid_dims(self)
        requires
            self.wf(),
        ensures
            1 <= self.grid_w() <= MAX_WORLD,
            1 <= self.grid_h() <= MAX_WORLD,
    {
        lemma_ceil_div_bounds(self.world_width as int, self.cell_size as int);
        lemma_ceil_div_bounds(self.world_height as int, self.cell_size as int);
    }
}

/// `ceil(w / c)` lies in `[1, w]` for positive `w` and `c`.
proof fn lemma_ceil_div_bounds(w: int, c: int)
    requires
        1 <= w,
        1 <= c,
    ensures
        1 <= (w + c - 1) / c <= w,
{
    lemma_div_by_self(c);
    lemma_div_is_ordered(c, w + c - 1, c);
    assert((w + c - 1) / c <= w) by {
        assert(w + c - 1 <= w * c) by (nonlinear_arith)
            requires
                1 <= w,
                1 <= c,
        ;
        lemma_div_is_ordered(w + c - 1, w * c, c);
        lemma_div_multiple(w, c);
    }
}

/// `(w * c) / c == w` for positive `c`.
proof fn lemma_div_multiple(w: int, c: int)
    requires
        1 <= c,
    ensures
        (w * c) / c == w,
{
    vstd::arithmetic::div_mod::lemma_fundamental_div_mod_converse_div(w * c, c, w, 0);
}

/// A coordinate inside the world maps to a cell index inside the grid:
/// `0 <= p / c < ceil(w / c)` whenever `0 <= p < w`.
pub proof fn lemma_cell_in_grid(p: int, w: int, c: int)
    requires
        1 <= c,
        1 <= w,
        0 <= p < w,
    ensures
        0 <= p / c < (w + c - 1) / c,
{
    lemma_div_pos_is_pos(p, c);
    lemma_div_is_ordered(p, w - 1, c);
    lemma_div_plus_one(w - 1, c);
}

} // verus!
