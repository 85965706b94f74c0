//! The simulation-state model shared by the pipeline stages: which grid
//! cell a position belongs to, the between-frames invariants (positions in
//! world bounds, velocities under the speed limit, grid membership matching
//! positions), and small facts about them.

use vstd::prelude::*;
use vstd::arithmetic::div_mod::{lemma_small_mod, lemma_fundamental_div_mod_converse_div};
use crate::components::{Pos, Vel, Vec2};
use crate::config::{Config, lemma_cell_in_grid};
use crate::neighborhood::Neighborhood;

verus! {

/// Column of the (unwrapped) grid cell holding `p`.
pub open spec fn cell_x(cfg: Config, p: Vec2) -> int {
    p.x as int / cfg.cell_size as int
}

/// Row of the (unwrapped) grid cell holding `p`.
pub open spec fn cell_y(cfg: Config, p: Vec2) -> int {
    p.y as int / cfg.cell_size as int
}

/// Every position has both coordinates inside the world rectangle.
pub open spec fn positions_in_world(cfg: Config, ps: Seq<Pos>) -> bool {
    forall|i: int|
        0 <= i < ps.len() ==> {
            let p = (#[trigger] ps[i]).0;
            0 <= p.x < cfg.world_width && 0 <= p.y < cfg.world_height
        }
}

/// Every velocity's magnitude is at most the speed limit.
pub open spec fn velocities_bounded(cfg: Config, vs: Seq<Vel>) -> bool {
    forall|i: int|
        0 <= i < vs.len() ==> (#[trigger] vs[i]).0.norm2() <= cfg.speed_limit
            * cfg.speed_limit
}

/// The grid's membership invariant: it has the dimensions the configuration
/// prescribes, and an id is in a cell exactly when it is an agent and the
/// cell is the one its position maps to (wrapped).
pub open spec fn grid_matches(cfg: Config, ps: Seq<Pos>, nh: Neighborhood) -> bool {
    &&& nh.wf()
    &&& nh.width == cfg.grid_w()
    &&& nh.height == cfg.grid_h()
    &&& forall|l: int, id: usize|
        0 <= l < nh.cells@.len() ==> ((#[trigger] nh.cells@[l]@.contains(id)) <==> id < ps.len()
            && l == nh.lin(cell_x(cfg, ps[id as int].0), cell_y(cfg, ps[id as int].0)))
}

/// Grid membership consistency: under the grid invariant, an agent's id is
/// in the cell its position maps to, and in no other cell.
pub proof fn lemma_grid_membership_exact(cfg: Config, ps: Seq<Pos>, nh: Neighborhood, id: usize)
    requires
        grid_matches(cfg, ps, nh),
        (id as int) < ps.len(),
    ensures
        nh.contains(cell_x(cfg, ps[id as int].0), cell_y(cfg, ps[id as int].0), id),
        forall|l: int|
            0 <= l < nh.cells@.len() && #[trigger] nh.cells@[l]@.contains(id) ==> l == nh.lin(
                cell_x(cfg, ps[id as int].0),
                cell_y(cfg, ps[id as int].0),
            ),
{
    let home = nh.lin(cell_x(cfg, ps[id as int].0), cell_y(cfg, ps[id as int].0));
    nh.lemma_lin_bounds(cell_x(cfg, ps[id as int].0), cell_y(cfg, ps[id as int].0));
    assert(nh.cells@[home]@.contains(id));
}

/// A vector whose squared length is under `l*l` has both components in
/// `[-l, l]`.
pub proof fn lemma_component_bound(v: Vec2, l: int)
    requires
        0 <= l,
        v.norm2() <= l * l,
    ensures
        -l <= v.x <= l,
        -l <= v.y <= l,
{
    assert(-l <= v.x <= l && -l <= v.y <= l) by (nonlinear_arith)
        requires
            0 <= l,
            v.x * v.x + v.y * v.y <= l * l,
    ;
}

/// Membership in a pushed sequence.
pub proof fn lemma_push_contains(s: Seq<usize>, a: usize, b: usize)
    ensures
        s.push(a).contains(b) <==> (s.contains(b) || a == b),
{
    if s.contains(b) {
        let j = choose|j: int| 0 <= j < s.len() && s[j] == b;
        assert(s.push(a)[j] == b);
    }
    if a == b {
        assert(s.push(a)[s.len() as int] == b);
    }
    if s.push(a).contains(b) {
        let j = choose|j: int| 0 <= j < s.push(a).len() && s.push(a)[j] == b;
        if j < s.len() {
            assert(s[j] == b);
        }
    }
}

/// For a position inside the world, the wrapped cell coordinates are the
/// unwrapped ones: its cell pair already lies inside the grid.
pub proof fn lemma_home_cell_in_grid(cfg: Config, p: Vec2)
    requires
        cfg.wf(),
        0 <= p.x < cfg.world_width,
        0 <= p.y < cfg.world_height,
    ensures
        0 <= cell_x(cfg, p) < cfg.grid_w(),
        0 <= cell_y(cfg, p) < cfg.grid_h(),
        cell_x(cfg, p) % cfg.grid_w() == cell_x(cfg, p),
        cell_y(cfg, p) % cfg.grid_h() == cell_y(cfg, p),
{
    lemma_cell_in_grid(p.x as int, cfg.world_width as int, cfg.cell_size as int);
    lemma_cell_in_grid(p.y as int, cfg.world_height as int, cfg.cell_size as int);
    lemma_small_mod(cell_x(cfg, p) as nat, cfg.grid_w() as nat);
    lemma_small_mod(cell_y(cfg, p) as nat, cfg.grid_h() as nat);
}

/// On in-grid cell pairs the linear index is injective: equal indices can
/// only come from the same pair.
pub proof fn lemma_lin_injective_in_grid(nh: Neighborhood, cx1: int, cy1: int, cx2: int, cy2: int)
    requires
        nh.wf(),
        0 <= cx1 < nh.width,
        0 <= cy1 < nh.height,
        0 <= cx2 < nh.width,
        0 <= cy2 < nh.height,
    ensures
        nh.lin(cx1, cy1) == nh.lin(cx2, cy2) ==> cx1 == cx2 && cy1 == cy2,
{
    let w = nh.width as int;
    let h = nh.height as int;
    lemma_small_mod(cx1 as nat, w as nat);
    lemma_small_mod(cy1 as nat, h as nat);
    lemma_small_mod(cx2 as nat, w as nat);
    lemma_small_mod(cy2 as nat, h as nat);
    if nh.lin(cx1, cy1) == nh.lin(cx2, cy2) {
        let l = cy1 * w + cx1;
        lemma_fundamental_div_mod_converse_div(l, w, cy1, cx1);
        lemma_fundamental_div_mod_converse_div(l, w, cy2, cx2);
    }
}

} // verus!
