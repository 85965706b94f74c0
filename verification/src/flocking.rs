//! The flocking stage: for each agent, query the grid for the cells
//! covering a square of half-width equal to the cohesion range (which
//! dominates the other ranges), gather the candidate neighbors, classify
//! them by squared distance into cohesion / alignment / repulsion
//! accumulators, and overwrite the agent's acceleration with the combined
//! steering force.

use vstd::prelude::*;
use vstd::arithmetic::div_mod::{
    lemma_fundamental_div_mod, lemma_fundamental_div_mod_converse_div, lemma_div_is_ordered,
    lemma_mod_division_less_than_divisor, lemma_mod_multiples_vanish,
};
use vstd::set_lib::{lemma_len_subset, lemma_int_range, set_int_range};
use crate::arith::{tdiv, tdiv_i64, lemma_div_range, lemma_tdiv_bound};
use crate::components::{Pos, Vel, Acc, Vec2, dist2};
use crate::config::{Config, MAX_AGENTS};
use crate::neighborhood::{Neighborhood, get_area};
use crate::state::{cell_x, cell_y, positions_in_world, velocities_bounded, grid_matches,
    lemma_component_bound, lemma_home_cell_in_grid};

verus! {

/// Bound on the magnitude of each acceleration component a flocking pass
/// can produce under a well-formed configuration.
pub const ACC_LIMIT: i64 = 0x4000_0000_0000;

/// Leftmost (unwrapped) grid column of the query box around `p`.
pub open spec fn box_lo_x(cfg: Config, p: Vec2) -> int {
    (p.x - cfg.cohesion_range) / cfg.cell_size as int
}

/// Rightmost (unwrapped) grid column of the query box around `p`.
pub open spec fn box_hi_x(cfg: Config, p: Vec2) -> int {
    (p.x + cfg.cohesion_range) / cfg.cell_size as int
}

/// Topmost (unwrapped) grid row of the query box around `p`.
pub open spec fn box_lo_y(cfg: Config, p: Vec2) -> int {
    (p.y - cfg.cohesion_range) / cfg.cell_size as int
}

/// Bottommost (unwrapped) grid row of the query box around `p`.
pub open spec fn box_hi_y(cfg: Config, p: Vec2) -> int {
    (p.y + cfg.cohesion_range) / cfg.cell_size as int
}

/// Number of box columns actually visited: the full span, clamped to the
/// grid width so that no wrapped cell is unioned twice.
pub open spec fn box_cols(cfg: Config, p: Vec2) -> int {
    if box_hi_x(cfg, p) - box_lo_x(cfg, p) + 1 <= cfg.grid_w() {
        box_hi_x(cfg, p) - box_lo_x(cfg, p) + 1
    } else {
        cfg.grid_w()
    }
}

/// Number of box rows actually visited, clamped to the grid height.
pub open spec fn box_rows(cfg: Config, p: Vec2) -> int {
    if box_hi_y(cfg, p) - box_lo_y(cfg, p) + 1 <= cfg.grid_h() {
        box_hi_y(cfg, p) - box_lo_y(cfg, p) + 1
    } else {
        cfg.grid_h()
    }
}

/// Ids of the first `k` cells of the box row `cy`, concatenated in visit
/// order.
pub open spec fn row_ids(nh: Neighborhood, cx0: int, cy: int, k: nat) -> Seq<usize>
    decreases k,
{
    if k == 0 {
        Seq::empty()
    } else {
        row_ids(nh, cx0, cy, (k - 1) as nat) + nh.cell(cx0 + k - 1, cy)
    }
}

/// Ids of the first `k` rows of the query box, concatenated in visit order.
pub open spec fn box_ids(nh: Neighborhood, cx0: int, cols: nat, cy0: int, k: nat) -> Seq<usize>
    decreases k,
{
    if k == 0 {
        Seq::empty()
    } else {
        box_ids(nh, cx0, cols, cy0, (k - 1) as nat) + row_ids(nh, cx0, cy0 + k - 1, cols)
    }
}

/// The candidate neighbor ids agent `i`'s query box yields, in visit order.
pub open spec fn flock_box_ids(cfg: Config, ps: Seq<Pos>, nh: Neighborhood, i: int) -> Seq<usize> {
    let p = ps[i].0;
    box_ids(nh, box_lo_x(cfg, p), box_cols(cfg, p) as nat, box_lo_y(cfg, p), box_rows(
        cfg,
        p,
    ) as nat)
}

/// The three accumulators of a flocking pass: position sum and count
/// (cohesion), velocity sum and count (alignment), and repulsion sum.
pub ghost struct FlockSums {
    pub px: int,
    pub py: int,
    pub pc: int,
    pub vx: int,
    pub vy: int,
    pub vc: int,
    pub rx: int,
    pub ry: int,
}

pub open spec fn sums_zero() -> FlockSums {
    FlockSums { px: 0, py: 0, pc: 0, vx: 0, vy: 0, vc: 0, rx: 0, ry: 0 }
}

/// How one neighbor at `q` with velocity `w` updates the accumulators of
/// the agent at `p`: each range it falls inside contributes independently.
pub open spec fn sums_step(cfg: Config, p: Vec2, q: Vec2, w: Vec2, s: FlockSums) -> FlockSums {
    let d2 = dist2(p, q);
    let s1 = if d2 <= cfg.cohesion_range * cfg.cohesion_range {
        FlockSums {
            px: s.px + q.x - p.x,
            py: s.py + q.y - p.y,
            pc: s.pc + 1,
            vx: s.vx,
            vy: s.vy,
            vc: s.vc,
            rx: s.rx,
            ry: s.ry,
        }
    } else {
        s
    };
    let s2 = if d2 <= cfg.align_range * cfg.align_range {
        FlockSums {
            px: s1.px,
            py: s1.py,
            pc: s1.pc,
            vx: s1.vx + w.x,
            vy: s1.vy + w.y,
            vc: s1.vc + 1,
            rx: s1.rx,
            ry: s1.ry,
        }
    } else {
        s1
    };
    if d2 <= cfg.repulsion_range * cfg.repulsion_range {
        FlockSums {
            px: s2.px,
            py: s2.py,
            pc: s2.pc,
            vx: s2.vx,
            vy: s2.vy,
            vc: s2.vc,
            rx: s2.rx - (q.x - p.x),
            ry: s2.ry - (q.y - p.y),
        }
    } else {
        s2
    }
}

/// Folds the candidate ids of agent `me` left to right; the agent's own id
/// and out-of-range ids contribute nothing.
pub open spec fn sums_of_ids(
    cfg: Config,
    ps: Seq<Pos>,
    vs: Seq<Vel>,
    me: int,
    ids: Seq<usize>,
) -> FlockSums
    decreases ids.len(),
{
    if ids.len() == 0 {
        sums_zero()
    } else {
        let s = sums_of_ids(cfg, ps, vs, me, ids.drop_last());
        let j = ids.last();
        if j as int == me || j as int >= ps.len() {
            s
        } else {
            sums_step(cfg, ps[me].0, ps[j as int].0, vs[j as int].0, s)
        }
    }
}

/// One steering term: the average of `sum` over `cnt` contributors (zero
/// contributors contribute nothing), scaled by `mag`.
pub open spec fn accel_term(sum: int, cnt: int, mag: int) -> int {
    if cnt > 0 {
        tdiv(sum, cnt) * mag
    } else {
        0
    }
}

/// The acceleration the accumulators yield: cohesion and alignment averages
/// scaled by their magnitudes, plus the repulsion sum scaled by its.
pub open spec fn accel_from_sums(cfg: Config, s: FlockSums) -> Vec2 {
    Vec2 {
        x: (accel_term(s.px, s.pc, cfg.cohesion_magnitude as int) + accel_term(
            s.vx,
            s.vc,
            cfg.align_magnitude as int,
        ) + s.rx * cfg.repulsion_magnitude as int) as i64,
        y: (accel_term(s.py, s.pc, cfg.cohesion_magnitude as int) + accel_term(
            s.vy,
            s.vc,
            cfg.align_magnitude as int,
        ) + s.ry * cfg.repulsion_magnitude as int) as i64,
    }
}

/// What one flocking pass writes as agent `i`'s acceleration.
pub open spec fn flock_accel(
    cfg: Config,
    ps: Seq<Pos>,
    vs: Seq<Vel>,
    nh: Neighborhood,
    i: int,
) -> Vec2 {
    accel_from_sums(cfg, sums_of_ids(cfg, ps, vs, i, flock_box_ids(cfg, ps, nh, i)))
}

/// Membership in a concatenation.
proof fn lemma_concat_contains(a: Seq<usize>, b: Seq<usize>, x: usize)
    ensures
        (a + b).contains(x) <==> (a.contains(x) || b.contains(x)),
{
    if a.contains(x) {
        let j = choose|j: int| 0 <= j < a.len() && a[j] == x;
        assert((a + b)[j] == x);
    }
    if b.contains(x) {
        let j = choose|j: int| 0 <= j < b.len() && b[j] == x;
        assert((a + b)[a.len() + j] == x);
    }
    if (a + b).contains(x) {
        let j = choose|j: int| 0 <= j < (a + b).len() && (a + b)[j] == x;
        if j < a.len() {
            assert(a[j] == x);
        } else {
            assert(b[j - a.len()] == x);
        }
    }
}

/// Concatenating duplicate-free sequences with no common element stays
/// duplicate-free.
proof fn lemma_concat_no_duplicates(a: Seq<usize>, b: Seq<usize>)
    requires
        a.no_duplicates(),
        b.no_duplicates(),
        forall|x: usize| !(a.contains(x) && b.contains(x)),
    ensures
        (a + b).no_duplicates(),
{
    assert forall|i: int, j: int|
        0 <= i < (a + b).len() && 0 <= j < (a + b).len() && i != j implies (a + b)[i] != (a
        + b)[j] by {
        if i < a.len() && j < a.len() {
        } else if i >= a.len() && j >= a.len() {
        } else if i < a.len() {
            assert(a.contains((a + b)[i]));
            assert(b.contains((a + b)[j]));
        } else {
            assert(b.contains((a + b)[i]));
            assert(a.contains((a + b)[j]));
        }
    }
}

/// Two integers no further than `m` apart with the same residue are equal.
proof fn lemma_mod_injective_on_span(a: int, b: int, m: int)
    requires
        1 <= m,
        a <= b < a + m,
        a % m == b % m,
    ensures
        a == b,
{
    lemma_fundamental_div_mod(a, m);
    lemma_fundamental_div_mod(b, m);
    assert(b - a == m * (b / m - a / m)) by (nonlinear_arith)
        requires
            a == m * (a / m) + a % m,
            b == m * (b / m) + b % m,
            a % m == b % m,
    ;
    assert(b - a == 0) by (nonlinear_arith)
        requires
            b - a == m * (b / m - a / m),
            0 <= b - a < m,
            1 <= m,
    ;
}

/// Within a box no wider than the grid, distinct cell offsets land on
/// distinct linear indices.
proof fn lemma_box_lin_injective(
    nh: Neighborhood,
    cx0: int,
    cy0: int,
    t1: int,
    u1: int,
    t2: int,
    u2: int,
)
    requires
        nh.wf(),
        0 <= t1 < nh.width,
        0 <= t2 < nh.width,
        0 <= u1 < nh.height,
        0 <= u2 < nh.height,
        nh.lin(cx0 + t1, cy0 + u1) == nh.lin(cx0 + t2, cy0 + u2),
    ensures
        t1 == t2,
        u1 == u2,
{
    let w = nh.width as int;
    let h = nh.height as int;
    let mx1 = (cx0 + t1) % w;
    let my1 = (cy0 + u1) % h;
    let mx2 = (cx0 + t2) % w;
    let my2 = (cy0 + u2) % h;
    lemma_mod_division_less_than_divisor(cx0 + t1, w);
    lemma_mod_division_less_than_divisor(cx0 + t2, w);
    lemma_mod_division_less_than_divisor(cy0 + u1, h);
    lemma_mod_division_less_than_divisor(cy0 + u2, h);
    let l = my1 * w + mx1;
    lemma_fundamental_div_mod_converse_div(l, w, my1, mx1);
    lemma_fundamental_div_mod_converse_div(l, w, my2, mx2);
    assert(mx1 == mx2 && my1 == my2);
    if t1 <= t2 {
        lemma_mod_injective_on_span(cx0 + t1, cx0 + t2, w);
    } else {
        lemma_mod_injective_on_span(cx0 + t2, cx0 + t1, w);
    }
    if u1 <= u2 {
        lemma_mod_injective_on_span(cy0 + u1, cy0 + u2, h);
    } else {
        lemma_mod_injective_on_span(cy0 + u2, cy0 + u1, h);
    }
}

/// An id is in a box row's gathered ids exactly when some visited cell of
/// that row holds it.
proof fn lemma_row_ids_membership(nh: Neighborhood, cx0: int, cy: int, k: nat, id: usize)
    ensures
        row_ids(nh, cx0, cy, k).contains(id) <==> exists|t: int|
            0 <= t < k && #[trigger] nh.cell(cx0 + t, cy).contains(id),
    decreases k,
{
    if k > 0 {
        lemma_row_ids_membership(nh, cx0, cy, (k - 1) as nat, id);
        lemma_concat_contains(row_ids(nh, cx0, cy, (k - 1) as nat), nh.cell(cx0 + k - 1, cy), id);
        if nh.cell(cx0 + k - 1, cy).contains(id) {
            assert(0 <= k - 1 < k && nh.cell(cx0 + (k - 1), cy).contains(id));
        }
    }
}

/// An id is in the box's gathered ids exactly when some visited cell of the
/// box holds it.
proof fn lemma_box_ids_membership(
    nh: Neighborhood,
    cx0: int,
    cols: nat,
    cy0: int,
    k: nat,
    id: usize,
)
    ensures
        box_ids(nh, cx0, cols, cy0, k).contains(id) <==> exists|t: int, u: int|
            0 <= t < cols && 0 <= u < k && #[trigger] nh.cell(cx0 + t, cy0 + u).contains(id),
    decreases k,
{
    if k > 0 {
        lemma_box_ids_membership(nh, cx0, cols, cy0, (k - 1) as nat, id);
        lemma_row_ids_membership(nh, cx0, cy0 + k - 1, cols, id);
        lemma_concat_contains(
            box_ids(nh, cx0, cols, cy0, (k - 1) as nat),
            row_ids(nh, cx0, cy0 + k - 1, cols),
            id,
        );
        if row_ids(nh, cx0, cy0 + k - 1, cols).contains(id) {
            let t = choose|t: int| 0 <= t < cols && #[trigger] nh.cell(cx0 + t, cy0 + k
                - 1).contains(id);
            assert(0 <= t < cols && 0 <= k - 1 < k && nh.cell(cx0 + t, cy0 + (k - 1)).contains(
                id,
            ));
        }
    }
}

/// Under the grid invariant, the ids a box row gathers are agents whose
/// home cell is one of the row's visited cells, and no id repeats.
proof fn lemma_row_ids_wf(
    cfg: Config,
    ps: Seq<Pos>,
    nh: Neighborhood,
    cx0: int,
    cy: int,
    k: nat,
)
    requires
        grid_matches(cfg, ps, nh),
        k <= nh.width,
    ensures
        row_ids(nh, cx0, cy, k).no_duplicates(),
        forall|id: usize|
            #[trigger] row_ids(nh, cx0, cy, k).contains(id) ==> id < ps.len() && exists|t: int|
                0 <= t < k && nh.lin(cell_x(cfg, ps[id as int].0), cell_y(cfg, ps[id as int].0))
                    == #[trigger] nh.lin(cx0 + t, cy),
    decreases k,
{
    if k > 0 {
        lemma_row_ids_wf(cfg, ps, nh, cx0, cy, (k - 1) as nat);
        let prefix = row_ids(nh, cx0, cy, (k - 1) as nat);
        let cell = nh.cell(cx0 + k - 1, cy);
        nh.lemma_lin_bounds(cx0 + k - 1, cy);
        assert forall|id: usize| #[trigger] cell.contains(id) implies id < ps.len() && nh.lin(
            cell_x(cfg, ps[id as int].0),
            cell_y(cfg, ps[id as int].0),
        ) == nh.lin(cx0 + k - 1, cy) by {
            assert(nh.cells@[nh.lin(cx0 + k - 1, cy)]@.contains(id));
        }
        assert forall|x: usize| !(prefix.contains(x) && cell.contains(x)) by {
            if prefix.contains(x) && cell.contains(x) {
                let t = choose|t: int|
                    0 <= t < k - 1 && nh.lin(cell_x(cfg, ps[x as int].0), cell_y(
                        cfg,
                        ps[x as int].0,
                    )) == #[trigger] nh.lin(cx0 + t, cy);
                lemma_box_lin_injective(nh, cx0, cy, t, 0, k - 1, 0);
            }
        }
        lemma_concat_no_duplicates(prefix, cell);
        assert forall|id: usize| #[trigger] row_ids(nh, cx0, cy, k).contains(id) implies id
            < ps.len() && exists|t: int|
            0 <= t < k && nh.lin(cell_x(cfg, ps[id as int].0), cell_y(cfg, ps[id as int].0))
                == #[trigger] nh.lin(cx0 + t, cy) by {
            lemma_concat_contains(prefix, cell, id);
            if prefix.contains(id) {
                let t = choose|t: int|
                    0 <= t < k - 1 && nh.lin(cell_x(cfg, ps[id as int].0), cell_y(
                        cfg,
                        ps[id as int].0,
                    )) == #[trigger] nh.lin(cx0 + t, cy);
                assert(0 <= t < k);
            } else {
                assert(nh.lin(cell_x(cfg, ps[id as int].0), cell_y(cfg, ps[id as int].0))
                    == nh.lin(cx0 + (k - 1), cy));
            }
        }
    }
}

/// Under the grid invariant, the ids a whole box gathers are agents, no id
/// repeats, and there are at most as many as there are agents.
pub proof fn lemma_box_ids_wf(
    cfg: Config,
    ps: Seq<Pos>,
    nh: Neighborhood,
    cx0: int,
    cols: nat,
    cy0: int,
    k: nat,
)
    requires
        grid_matches(cfg, ps, nh),
        cols <= nh.width,
        k <= nh.height,
    ensures
        box_ids(nh, cx0, cols, cy0, k).no_duplicates(),
        forall|j: int|
            0 <= j < box_ids(nh, cx0, cols, cy0, k).len() ==> #[trigger] box_ids(
                nh,
                cx0,
                cols,
                cy0,
                k,
            )[j] < ps.len(),
        box_ids(nh, cx0, cols, cy0, k).len() <= ps.len(),
    decreases k,
{
    let ids = box_ids(nh, cx0, cols, cy0, k);
    if k > 0 {
        lemma_box_ids_wf(cfg, ps, nh, cx0, cols, cy0, (k - 1) as nat);
        let prefix = box_ids(nh, cx0, cols, cy0, (k - 1) as nat);
        let row = row_ids(nh, cx0, cy0 + k - 1, cols);
        lemma_row_ids_wf(cfg, ps, nh, cx0, cy0 + k - 1, cols);
        assert forall|x: usize| !(prefix.contains(x) && row.contains(x)) by {
            if prefix.contains(x) && row.contains(x) {
                lemma_box_ids_membership(nh, cx0, cols, cy0, (k - 1) as nat, x);
                let (t1, u1) = choose|t: int, u: int|
                    0 <= t < cols && 0 <= u < k - 1 && #[trigger] nh.cell(cx0 + t, cy0
                        + u).contains(x);
                nh.lemma_lin_bounds(cx0 + t1, cy0 + u1);
                assert(nh.cells@[nh.lin(cx0 + t1, cy0 + u1)]@.contains(x));
                let t2 = choose|t: int|
                    0 <= t < cols && nh.lin(cell_x(cfg, ps[x as int].0), cell_y(
                        cfg,
                        ps[x as int].0,
                    )) == #[trigger] nh.lin(cx0 + t, cy0 + k - 1);
                lemma_box_lin_injective(nh, cx0, cy0, t1, u1, t2, k - 1);
            }
        }
        lemma_concat_no_duplicates(prefix, row);
        assert forall|j: int| 0 <= j < ids.len() implies #[trigger] ids[j] < ps.len() by {
            if j < prefix.len() {
                assert(ids[j] == prefix[j]);
            } else {
                assert(ids[j] == row[j - prefix.len()]);
                assert(row.contains(ids[j]));
            }
        }
        lemma_unique_bounded_len(ids, ps.len() as int);
    }
}

/// Gathers the ids of every cell in the query box, row by row, with
/// wraparound cell lookup.
fn collect_box(nh: &Neighborhood, cx0: i64, cols: i64, cy0: i64, rows: i64) -> (r: Vec<usize>)
    requires
        nh.wf(),
        0 <= cols <= nh.width,
        0 <= rows <= nh.height,
        -0x20_0000 <= cx0 && cx0 + cols <= 0x20_0000,
        -0x20_0000 <= cy0 && cy0 + rows <= 0x20_0000,
    ensures
        r@ == box_ids(*nh, cx0 as int, cols as nat, cy0 as int, rows as nat),
{
    let mut out: Vec<usize> = Vec::new();
    let mut u: i64 = 0;
    while u < rows
        invariant
            nh.wf(),
            0 <= u <= rows,
            0 <= cols <= nh.width,
            rows <= nh.height,
            -0x20_0000 <= cx0 && cx0 + cols <= 0x20_0000,
            -0x20_0000 <= cy0 && cy0 + rows <= 0x20_0000,
            out@ == box_ids(*nh, cx0 as int, cols as nat, cy0 as int, u as nat),
        decreases rows - u,
    {
        let mut t: i64 = 0;
        proof {
            assert(out@ =~= box_ids(*nh, cx0 as int, cols as nat, cy0 as int, u as nat) + row_ids(
                *nh,
                cx0 as int,
                cy0 as int + u as int,
                0nat,
            ));
        }
        while t < cols
            invariant
                nh.wf(),
                0 <= t <= cols,
                0 <= u < rows,
                cols <= nh.width,
                rows <= nh.height,
                -0x20_0000 <= cx0 && cx0 + cols <= 0x20_0000,
                -0x20_0000 <= cy0 && cy0 + rows <= 0x20_0000,
                out@ == box_ids(*nh, cx0 as int, cols as nat, cy0 as int, u as nat) + row_ids(
                    *nh,
                    cx0 as int,
                    cy0 as int + u as int,
                    t as nat,
                ),
            decreases cols - t,
        {
            let cell = nh.get(cx0 + t, cy0 + u);
            out.extend_from_slice(cell.as_slice());
            proof {
                assert(row_ids(*nh, cx0 as int, cy0 as int + u as int, (t + 1) as nat) == row_ids(
                    *nh,
                    cx0 as int,
                    cy0 as int + u as int,
                    t as nat,
                ) + nh.cell(cx0 as int + t as int, cy0 as int + u as int));
                assert(out@ =~= box_ids(*nh, cx0 as int, cols as nat, cy0 as int, u as nat)
                    + row_ids(*nh, cx0 as int, cy0 as int + u as int, (t + 1) as nat));
            }
            t = t + 1;
        }
        proof {
            assert(box_ids(*nh, cx0 as int, cols as nat, cy0 as int, (u + 1) as nat) == box_ids(
                *nh,
                cx0 as int,
                cols as nat,
                cy0 as int,
                u as nat,
            ) + row_ids(*nh, cx0 as int, cy0 as int + u as int, cols as nat));
        }
        u = u + 1;
    }
    out
}

pub struct BoidSystem;

impl BoidSystem {
    /// One flocking pass: overwrites every agent's acceleration with the
    /// steering force its neighborhood yields.
    pub fn run(
        nh: &Neighborhood,
        positions: &Vec<Pos>,
        velocities: &Vec<Vel>,
        accelerations: &mut Vec<Acc>,
        cfg: &Config,
    )
        requires
            cfg.wf(),
            positions@.len() == velocities@.len(),
            positions@.len() == old(accelerations)@.len(),
            positions@.len() <= MAX_AGENTS,
            positions_in_world(*cfg, positions@),
            velocities_bounded(*cfg, velocities@),
            grid_matches(*cfg, positions@, *nh),
        ensures
            final(accelerations)@.len() == old(accelerations)@.len(),
            forall|i: int|
                0 <= i < positions@.len() ==> {
                    let a = (#[trigger] final(accelerations)@[i]).0;
                    &&& a == flock_accel(*cfg, positions@, velocities@, *nh, i)
                    &&& -ACC_LIMIT <= a.x <= ACC_LIMIT
                    &&& -ACC_LIMIT <= a.y <= ACC_LIMIT
                },
    {
        let n = positions.len();
        let mut i: usize = 0;
        while i < n
            invariant
                cfg.wf(),
                i <= n,
                n == positions@.len(),
                n == velocities@.len(),
                n == accelerations@.len(),
                n <= MAX_AGENTS,
                positions_in_world(*cfg, positions@),
                velocities_bounded(*cfg, velocities@),
                grid_matches(*cfg, positions@, *nh),
                forall|j: int|
                    0 <= j < i ==> {
                        let a = (#[trigger] accelerations@[j]).0;
                        &&& a == flock_accel(*cfg, positions@, velocities@, *nh, j)
                        &&& -ACC_LIMIT <= a.x <= ACC_LIMIT
                        &&& -ACC_LIMIT <= a.y <= ACC_LIMIT
                    },
            decreases n - i,
        {
            let p = positions[i].0;
            proof {
                assert(0 <= (positions@[i as int]).0.x < cfg.world_width);
            }
            let rng = cfg.cohesion_range;
            let (lo_x, lo_y) = get_area(
                Vec2 { x: p.x - rng, y: p.y - rng },
                cfg.cell_size,
                cfg.cell_size,
            );
            let (hi_x, hi_y) = get_area(
                Vec2 { x: p.x + rng, y: p.y + rng },
                cfg.cell_size,
                cfg.cell_size,
            );
            let gw = cfg.grid_width();
            let gh = cfg.grid_height();
            proof {
                lemma_div_is_ordered(p.x - rng, p.x + rng, cfg.cell_size as int);
                lemma_div_is_ordered(p.y - rng, p.y + rng, cfg.cell_size as int);
                lemma_div_range(p.x - rng, cfg.cell_size as int, 0x1_0000);
                lemma_div_range(p.x + rng, cfg.cell_size as int, 0x1_0000);
                lemma_div_range(p.y - rng, cfg.cell_size as int, 0x1_0000);
                lemma_div_range(p.y + rng, cfg.cell_size as int, 0x1_0000);
            }
            let cols = if hi_x - lo_x + 1 <= gw {
                hi_x - lo_x + 1
            } else {
                gw
            };
            let rows = if hi_y - lo_y + 1 <= gh {
                hi_y - lo_y + 1
            } else {
                gh
            };
            let cands = collect_box(nh, lo_x, cols, lo_y, rows);
            proof {
                assert(cols as int == box_cols(*cfg, p));
                assert(rows as int == box_rows(*cfg, p));
                lemma_box_ids_wf(
                    *cfg,
                    positions@,
                    *nh,
                    lo_x as int,
                    cols as nat,
                    lo_y as int,
                    rows as nat,
                );
                assert(cands@ == flock_box_ids(*cfg, positions@, *nh, i as int));
            }
            let m = cands.len();
            let mut px: i64 = 0;
            let mut py: i64 = 0;
            let mut pc: i64 = 0;
            let mut vx: i64 = 0;
            let mut vy: i64 = 0;
            let mut vc: i64 = 0;
            let mut rx: i64 = 0;
            let mut ry: i64 = 0;
            let mut k: usize = 0;
            proof {
                assert(cands@.take(0) =~= Seq::<usize>::empty());
            }
            while k < m
                invariant
                    cfg.wf(),
                    k <= m,
                    m == cands@.len(),
                    m <= n,
                    n == positions@.len(),
                    n == velocities@.len(),
                    n <= MAX_AGENTS,
                    i < n,
                    positions_in_world(*cfg, positions@),
                    velocities_bounded(*cfg, velocities@),
                    p == positions@[i as int].0,
                    forall|j: int| 0 <= j < m ==> #[trigger] cands@[j] < n,
                    ({
                        let s = sums_of_ids(
                            *cfg,
                            positions@,
                            velocities@,
                            i as int,
                            cands@.take(k as int),
                        );
                        &&& px == s.px
                        &&& py == s.py
                        &&& pc == s.pc
                        &&& vx == s.vx
                        &&& vy == s.vy
                        &&& vc == s.vc
                        &&& rx == s.rx
                        &&& ry == s.ry
                    }),
                    0 <= pc <= k,
                    0 <= vc <= k,
                    -pc * 0x8000 <= px <= pc * 0x8000,
                    -pc * 0x8000 <= py <= pc * 0x8000,
                    -vc * 0x8000 <= vx <= vc * 0x8000,
                    -vc * 0x8000 <= vy <= vc * 0x8000,
                    -(k as int) * 0x8000 <= rx <= (k as int) * 0x8000,
                    -(k as int) * 0x8000 <= ry <= (k as int) * 0x8000,
                decreases m - k,
            {
                let j = cands[k];
                proof {
                    assert(cands@[k as int] < n);
                    assert(cands@.take(k as int + 1).drop_last() =~= cands@.take(k as int));
                    assert(cands@.take(k as int + 1).last() == j);
                }
                if j != i {
                    let q = positions[j].0;
                    let w = velocities[j].0;
                    proof {
                        assert(0 <= (positions@[j as int]).0.x < cfg.world_width);
                        assert((velocities@[j as int]).0.norm2() <= cfg.speed_limit
                            * cfg.speed_limit);
                        lemma_component_bound(w, cfg.speed_limit as int);
                    }
                    let dx = q.x - p.x;
                    let dy = q.y - p.y;
                    proof {
                        assert(0 <= dx * dx <= 0x4000_0000 && 0 <= dy * dy
                            <= 0x4000_0000) by (nonlinear_arith)
                            requires
                                -0x8000 <= dx <= 0x8000,
                                -0x8000 <= dy <= 0x8000,
                        ;
                        assert(0 <= cfg.cohesion_range * cfg.cohesion_range <= 0x4000_0000
                            && 0 <= cfg.align_range * cfg.align_range <= 0x4000_0000 && 0
                            <= cfg.repulsion_range * cfg.repulsion_range
                            <= 0x4000_0000) by (nonlinear_arith)
                            requires
                                0 <= cfg.cohesion_range <= 0x8000,
                                0 <= cfg.align_range <= 0x8000,
                                0 <= cfg.repulsion_range <= 0x8000,
                        ;
                    }
                    let d2 = dx * dx + dy * dy;
                    if d2 <= cfg.cohesion_range * cfg.cohesion_range {
                        px = px + dx;
                        py = py + dy;
                        pc = pc + 1;
                    }
                    if d2 <= cfg.align_range * cfg.align_range {
                        vx = vx + w.x;
                        vy = vy + w.y;
                        vc = vc + 1;
                    }
                    if d2 <= cfg.repulsion_range * cfg.repulsion_range {
                        rx = rx - dx;
                        ry = ry - dy;
                    }
                }
                k = k + 1;
            }
            proof {
                assert(cands@.take(m as int) =~= cands@);
            }
            let mut ax: i64 = 0;
            let mut ay: i64 = 0;
            if pc > 0 {
                proof {
                    lemma_tdiv_bound(px as int, pc as int, 0x8000);
                    lemma_tdiv_bound(py as int, pc as int, 0x8000);
                }
                let tx = tdiv_i64(px, pc);
                let ty = tdiv_i64(py, pc);
                proof {
                    assert(-0x200_0000 <= tx * cfg.cohesion_magnitude <= 0x200_0000
                        && -0x200_0000 <= ty * cfg.cohesion_magnitude
                        <= 0x200_0000) by (nonlinear_arith)
                        requires
                            -0x8000 <= tx <= 0x8000,
                            -0x8000 <= ty <= 0x8000,
                            0 <= cfg.cohesion_magnitude <= 0x400,
                    ;
                }
                ax = tx * cfg.cohesion_magnitude;
                ay = ty * cfg.cohesion_magnitude;
            }
            if vc > 0 {
                proof {
                    lemma_tdiv_bound(vx as int, vc as int, 0x8000);
                    lemma_tdiv_bound(vy as int, vc as int, 0x8000);
                }
                let tx = tdiv_i64(vx, vc);
                let ty = tdiv_i64(vy, vc);
                proof {
                    assert(-0x200_0000 <= tx * cfg.align_magnitude <= 0x200_0000 && -0x200_0000
                        <= ty * cfg.align_magnitude <= 0x200_0000) by (nonlinear_arith)
                        requires
                            -0x8000 <= tx <= 0x8000,
                            -0x8000 <= ty <= 0x8000,
                            0 <= cfg.align_magnitude <= 0x400,
                    ;
                }
                ax = ax + tx * cfg.align_magnitude;
                ay = ay + ty * cfg.align_magnitude;
            }
            proof {
                assert(-0x2000_0000_0000 <= rx * cfg.repulsion_magnitude <= 0x2000_0000_0000
                    && -0x2000_0000_0000 <= ry * cfg.repulsion_magnitude
                    <= 0x2000_0000_0000) by (nonlinear_arith)
                    requires
                        -0x8_0000_0000 <= rx <= 0x8_0000_0000,
                        -0x8_0000_0000 <= ry <= 0x8_0000_0000,
                        0 <= cfg.repulsion_magnitude <= 0x400,
                ;
            }
            ax = ax + rx * cfg.repulsion_magnitude;
            ay = ay + ry * cfg.repulsion_magnitude;
            accelerations[i] = Acc(Vec2 { x: ax, y: ay });
            i = i + 1;
        }
    }
}

/// Neighbor completeness: every agent within the cohesion range of agent
/// `i` (by raw squared distance) is among the candidates its query box
/// yields; the distance filter afterwards only discards false positives.
pub proof fn lemma_neighbor_in_query_box(
    cfg: Config,
    ps: Seq<Pos>,
    nh: Neighborhood,
    i: int,
    j: usize,
)
    requires
        cfg.wf(),
        positions_in_world(cfg, ps),
        grid_matches(cfg, ps, nh),
        0 <= i < ps.len(),
        (j as int) < ps.len(),
        j as int != i,
        dist2(ps[i].0, ps[j as int].0) <= cfg.cohesion_range * cfg.cohesion_range,
    ensures
        flock_box_ids(cfg, ps, nh, i).contains(j),
{
    let p = ps[i].0;
    let q = ps[j as int].0;
    let c = cfg.cell_size as int;
    let w = cfg.grid_w();
    let h = cfg.grid_h();
    let rr = cfg.cohesion_range as int;
    assert(0 <= (ps[i]).0.x < cfg.world_width);
    assert(0 <= (ps[j as int]).0.x < cfg.world_width);
    assert(-rr <= q.x - p.x <= rr && -rr <= q.y - p.y <= rr) by (nonlinear_arith)
        requires
            (q.x - p.x) * (q.x - p.x) + (q.y - p.y) * (q.y - p.y) <= rr * rr,
            0 <= rr,
    ;
    lemma_div_is_ordered(p.x - rr, q.x as int, c);
    lemma_div_is_ordered(q.x as int, p.x + rr, c);
    lemma_div_is_ordered(p.y - rr, q.y as int, c);
    lemma_div_is_ordered(q.y as int, p.y + rr, c);
    lemma_home_cell_in_grid(cfg, q);
    cfg.lemma_grid_dims();
    let cjx = cell_x(cfg, q);
    let cjy = cell_y(cfg, q);
    let lox = box_lo_x(cfg, p);
    let loy = box_lo_y(cfg, p);
    let cols = box_cols(cfg, p);
    let rows = box_rows(cfg, p);
    let t = choose_box_offset(cjx, lox, box_hi_x(cfg, p), cols, w);
    let u = choose_box_offset(cjy, loy, box_hi_y(cfg, p), rows, h);
    assert(nh.lin(lox + t, loy + u) == nh.lin(cjx, cjy));
    nh.lemma_lin_bounds(cjx, cjy);
    assert(nh.cells@[nh.lin(cjx, cjy)]@.contains(j));
    assert(nh.cell(lox + t, loy + u).contains(j));
    lemma_box_ids_membership(nh, lox, cols as nat, loy, rows as nat, j);
}

/// Picks the box offset whose cell wraps onto the home column (or row) of
/// a coordinate lying between the box bounds.
proof fn choose_box_offset(cj: int, lo: int, hi: int, span: int, m: int) -> (t: int)
    requires
        1 <= m,
        lo <= cj <= hi,
        0 <= cj < m,
        span == if hi - lo + 1 <= m {
            hi - lo + 1
        } else {
            m
        },
    ensures
        0 <= t < span,
        (lo + t) % m == cj % m,
{
    if hi - lo + 1 <= m {
        cj - lo
    } else {
        let t = (cj - lo) % m;
        lemma_mod_division_less_than_divisor(cj - lo, m);
        lemma_fundamental_div_mod(cj - lo, m);
        let q0 = (cj - lo) / m;
        assert(cj == m * q0 + (lo + t));
        lemma_mod_multiples_vanish(q0, lo + t, m);
        t
    }
}

/// Zero-count safety: an agent with no other agent within the cohesion
/// range (which dominates the alignment and repulsion ranges) comes out of
/// a flocking pass with zero acceleration.
pub proof fn lemma_isolated_zero_accel(
    cfg: Config,
    ps: Seq<Pos>,
    vs: Seq<Vel>,
    nh: Neighborhood,
    i: int,
)
    requires
        cfg.wf(),
        ps.len() == vs.len(),
        positions_in_world(cfg, ps),
        grid_matches(cfg, ps, nh),
        0 <= i < ps.len(),
        forall|j: int|
            0 <= j < ps.len() && j != i ==> dist2(ps[i].0, #[trigger] ps[j].0) > cfg.cohesion_range
                * cfg.cohesion_range,
    ensures
        flock_accel(cfg, ps, vs, nh, i) == (Vec2 { x: 0i64, y: 0i64 }),
{
    let p = ps[i].0;
    assert(0 <= (ps[i]).0.x < cfg.world_width);
    cfg.lemma_grid_dims();
    lemma_div_is_ordered(p.x - cfg.cohesion_range, p.x + cfg.cohesion_range,
        cfg.cell_size as int);
    lemma_div_is_ordered(p.y - cfg.cohesion_range, p.y + cfg.cohesion_range,
        cfg.cell_size as int);
    let ids = flock_box_ids(cfg, ps, nh, i);
    lemma_box_ids_wf(
        cfg,
        ps,
        nh,
        box_lo_x(cfg, p),
        box_cols(cfg, p) as nat,
        box_lo_y(cfg, p),
        box_rows(cfg, p) as nat,
    );
    assert forall|k: int| 0 <= k < ids.len() implies {
        let j = #[trigger] ids[k];
        j as int == i || j as int >= ps.len() || dist2(ps[i].0, ps[j as int].0)
            > cfg.cohesion_range * cfg.cohesion_range
    } by {
        let j = ids[k];
        if j as int != i && (j as int) < ps.len() {
            assert(dist2(ps[i].0, ps[j as int].0) > cfg.cohesion_range * cfg.cohesion_range);
        }
    }
    lemma_sums_isolated(cfg, ps, vs, i, ids);
}

/// Folding ids that are all the agent itself, out of range, or farther
/// than the cohesion range leaves every accumulator at zero.
proof fn lemma_sums_isolated(cfg: Config, ps: Seq<Pos>, vs: Seq<Vel>, me: int, ids: Seq<usize>)
    requires
        cfg.wf(),
        0 <= me < ps.len(),
        forall|k: int|
            0 <= k < ids.len() ==> {
                let j = #[trigger] ids[k];
                j as int == me || j as int >= ps.len() || dist2(ps[me].0, ps[j as int].0)
                    > cfg.cohesion_range * cfg.cohesion_range
            },
    ensures
        sums_of_ids(cfg, ps, vs, me, ids) == sums_zero(),
    decreases ids.len(),
{
    if ids.len() > 0 {
        assert(forall|k: int|
            0 <= k < ids.drop_last().len() ==> #[trigger] ids.drop_last()[k] == ids[k]);
        lemma_sums_isolated(cfg, ps, vs, me, ids.drop_last());
        let j = ids.last();
        assert(j == ids[ids.len() - 1]);
        if j as int != me && (j as int) < ps.len() {
            assert(cfg.align_range * cfg.align_range <= cfg.cohesion_range * cfg.cohesion_range
                && cfg.repulsion_range * cfg.repulsion_range <= cfg.cohesion_range
                * cfg.cohesion_range) by (nonlinear_arith)
                requires
                    0 <= cfg.align_range <= cfg.cohesion_range,
                    0 <= cfg.repulsion_range <= cfg.cohesion_range,
            ;
        }
    }
}

/// A duplicate-free sequence of ids all below `n` has at most `n` entries.
proof fn lemma_unique_bounded_len(s: Seq<usize>, n: int)
    requires
        0 <= n,
        s.no_duplicates(),
        forall|j: int| 0 <= j < s.len() ==> #[trigger] s[j] < n,
    ensures
        s.len() <= n,
{
    let si = s.map_values(|x: usize| x as int);
    assert forall|i: int, j: int|
        0 <= i < si.len() && 0 <= j < si.len() && i != j implies si[i] != si[j] by {
        assert(s[i] != s[j]);
    }
    si.unique_seq_to_set();
    assert(si.to_set().subset_of(set_int_range(0, n))) by {
        assert forall|x: int| si.to_set().contains(x) implies set_int_range(0, n).contains(
            x,
        ) by {
            let j = choose|j: int| 0 <= j < si.len() && si[j] == x;
            assert(s[j] < n);
        }
    }
    lemma_int_range(0, n);
    lemma_len_subset(si.to_set(), set_int_range(0, n));
}

} // verus!
