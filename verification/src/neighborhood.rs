//! The spatial neighbor index: a uniform grid of cells over the toroidal
//! world, each holding the set of agent ids currently located in it. Cell
//! lookup wraps with a sign-correct modulo, so coordinates outside the grid
//! wrap to the opposite edge.

use vstd::prelude::*;
use vstd::arithmetic::div_mod::lemma_mod_division_less_than_divisor;
use crate::arith::{wrap_i64, floor_div_i64, COORD_LIMIT};
use crate::components::Vec2;
use crate::config::MAX_WORLD;

verus! {

pub struct Neighborhood {
    /// Row-major cell contents: the cell at wrapped coordinates `(cx, cy)`
    /// is `cells[cy * width + cx]`, a duplicate-free list of agent ids.
    pub cells: Vec<Vec<usize>>,
    /// Number of cells across.
    pub width: i64,
    /// Number of cells down.
    pub height: i64,
}

impl Neighborhood {
    pub open spec fn wf(self) -> bool {
        &&& 1 <= self.width <= MAX_WORLD
        &&& 1 <= self.height <= MAX_WORLD
        &&& self.cells@.len() == self.width * self.height
        &&& forall|l: int|
            0 <= l < self.cells@.len() ==> (#[trigger] self.cells@[l])@.no_duplicates()
    }

    /// Linear index of the cell that unwrapped coordinates `(cx, cy)` wrap
    /// to.
    pub open spec fn lin(self, cx: int, cy: int) -> int {
        (cy % self.height as int) * self.width + (cx % self.width as int)
    }

    /// Contents of the cell at wrapped `(cx, cy)`.
    pub open spec fn cell(self, cx: int, cy: int) -> Seq<usize> {
        self.cells@[self.lin(cx, cy)]@
    }

    /// Whether `id` is in the cell at wrapped `(cx, cy)`.
    pub open spec fn contains(self, cx: int, cy: int, id: usize) -> bool {
        self.cell(cx, cy).contains(id)
    }

    pub proof fn lemma_lin_bounds(self, cx: int, cy: int)
        requires
            self.wf(),
        ensures
            0 <= self.lin(cx, cy) < self.cells@.len(),
            self.cells@.len() <= 0x4000_0000,
    {
        let w = self.width as int;
        let h = self.height as int;
        lemma_mod_division_less_than_divisor(cx, w);
        lemma_mod_division_less_than_divisor(cy, h);
        assert(0 <= (cy % h) * w + (cx % w) < h * w) by (nonlinear_arith)
            requires
                0 <= cy % h < h,
                0 <= cx % w < w,
                1 <= w,
        ;
        assert(h * w <= 0x4000_0000) by (nonlinear_arith)
            requires
                1 <= w <= 0x8000,
                1 <= h <= 0x8000,
        ;
    }

    /// Builds a grid of `width x height` empty cells.
    pub fn new(width: i64, height: i64) -> (r: Neighborhood)
        requires
            1 <= width <= MAX_WORLD,
            1 <= height <= MAX_WORLD,
        ensures
            r.wf(),
            r.width == width,
            r.height == height,
            forall|l: int| 0 <= l < r.cells@.len() ==> (#[trigger] r.cells@[l])@ =~= Seq::<
                usize,
            >::empty(),
    {
        proof {
            assert(1 <= width * height <= 0x4000_0000) by (nonlinear_arith)
                requires
                    1 <= width <= 0x8000,
                    1 <= height <= 0x8000,
            ;
        }
        let n = (width * height) as usize;
        let mut cells: Vec<Vec<usize>> = Vec::new();
        let mut i: usize = 0;
        while i < n
            invariant
                i <= n,
                n == width * height,
                cells@.len() == i,
                forall|l: int| 0 <= l < i ==> (#[trigger] cells@[l])@ =~= Seq::<usize>::empty(),
            decreases n - i,
        {
            cells.push(Vec::new());
            i = i + 1;
        }
        Neighborhood { cells, width, height }
    }

    /// Returns the (read-only) id list for the wrapped coordinates.
    pub fn get(&self, x: i64, y: i64) -> (r: &Vec<usize>)
        requires
            self.wf(),
            -COORD_LIMIT <= x <= COORD_LIMIT,
            -COORD_LIMIT <= y <= COORD_LIMIT,
        ensures
            r@ == self.cell(x as int, y as int),
    {
        let cx = wrap_i64(x, self.width);
        let cy = wrap_i64(y, self.height);
        proof {
            self.lemma_lin_bounds(x as int, y as int);
            assert(cy as int * self.width as int + cx as int == self.lin(x as int, y as int));
        }
        &self.cells[(cy * self.width + cx) as usize]
    }

    /// Adds `id` to the cell at wrapped `(x, y)`; idempotent if already
    /// present. Returns whether `id` was already there.
    pub fn insert(&mut self, x: i64, y: i64, id: usize) -> (r: bool)
        requires
            old(self).wf(),
            -COORD_LIMIT <= x <= COORD_LIMIT,
            -COORD_LIMIT <= y <= COORD_LIMIT,
        ensures
            final(self).wf(),
            final(self).width == old(self).width,
            final(self).height == old(self).height,
            final(self).cells@.len() == old(self).cells@.len(),
            r == old(self).contains(x as int, y as int, id),
            final(self).cell(x as int, y as int) == if r {
                old(self).cell(x as int, y as int)
            } else {
                old(self).cell(x as int, y as int).push(id)
            },
            forall|l: int|
                0 <= l < final(self).cells@.len() && l != old(self).lin(x as int, y as int)
                    ==> final(self).cells@[l] == old(self).cells@[l],
    {
        let cx = wrap_i64(x, self.width);
        let cy = wrap_i64(y, self.height);
        proof {
            self.lemma_lin_bounds(x as int, y as int);
            assert(cy as int * self.width as int + cx as int == self.lin(x as int, y as int));
        }
        let idx = (cy * self.width + cx) as usize;
        let present = contains_id(&self.cells[idx], id);
        if !present {
            let ghost prev = self.cells@[idx as int]@;
            let cell = &mut self.cells[idx];
            cell.push(id);
            proof {
                assert forall|i: int, j: int|
                    0 <= i < prev.push(id).len() && 0 <= j < prev.push(id).len() && i != j
                    implies prev.push(id)[i] != prev.push(id)[j] by {
                    if i < prev.len() && j < prev.len() {
                        assert(prev.no_duplicates());
                    } else if i == prev.len() {
                        assert(!prev.contains(id));
                        assert(prev.push(id)[j] == prev[j]);
                    } else {
                        assert(!prev.contains(id));
                        assert(prev.push(id)[i] == prev[i]);
                    }
                }
            }
        }
        present
    }

    /// Removes `id` from the cell at wrapped `(x, y)` if present; a no-op
    /// otherwise. Returns whether `id` was there.
    pub fn remove(&mut self, x: i64, y: i64, id: usize) -> (r: bool)
        requires
            old(self).wf(),
            -COORD_LIMIT <= x <= COORD_LIMIT,
            -COORD_LIMIT <= y <= COORD_LIMIT,
        ensures
            final(self).wf(),
            final(self).width == old(self).width,
            final(self).height == old(self).height,
            final(self).cells@.len() == old(self).cells@.len(),
            r == old(self).contains(x as int, y as int, id),
            final(self).cell(x as int, y as int) == old(self).cell(
                x as int,
                y as int,
            ).remove_value(id),
            forall|l: int|
                0 <= l < final(self).cells@.len() && l != old(self).lin(x as int, y as int)
                    ==> final(self).cells@[l] == old(self).cells@[l],
    {
        let cx = wrap_i64(x, self.width);
        let cy = wrap_i64(y, self.height);
        proof {
            self.lemma_lin_bounds(x as int, y as int);
            assert(cy as int * self.width as int + cx as int == self.lin(x as int, y as int));
        }
        let idx = (cy * self.width + cx) as usize;
        let ghost prev = self.cells@[idx as int]@;
        match find_id(&self.cells[idx], id) {
            Some(k) => {
                let cell = &mut self.cells[idx];
                cell.remove(k);
                proof {
                    prev.index_of_first_ensures(id);
                    assert(prev[k as int] == id);
                    lemma_remove_value_facts(prev, id);
                }
                true
            },
            None => {
                proof {
                    assert(!prev.contains(id));
                    prev.index_of_first_ensures(id);
                    lemma_remove_value_facts(prev, id);
                }
                false
            },
        }
    }
}

/// Finds the first index holding `id`, if any.
fn find_id(v: &Vec<usize>, id: usize) -> (r: Option<usize>)
    ensures
        match r {
            Some(k) => k < v@.len() && v@[k as int] == id && (forall|t: int|
                0 <= t < k ==> v@[t] != id),
            None => !v@.contains(id),
        },
{
    let mut k: usize = 0;
    while k < v.len()
        invariant
            k <= v@.len(),
            forall|t: int| 0 <= t < k ==> v@[t] != id,
        decreases v@.len() - k,
    {
        if v[k] == id {
            return Some(k);
        }
        k = k + 1;
    }
    None
}

/// Scans a duplicate-free id list for `id`.
fn contains_id(v: &Vec<usize>, id: usize) -> (r: bool)
    ensures
        r == v@.contains(id),
{
    let mut k: usize = 0;
    while k < v.len()
        invariant
            k <= v@.len(),
            forall|t: int| 0 <= t < k ==> v@[t] != id,
        decreases v@.len() - k,
    {
        if v[k] == id {
            return true;
        }
        k = k + 1;
    }
    false
}

/// What removing the first occurrence of `id` does to a duplicate-free
/// sequence: `id` is gone, everything else keeps its membership, and the
/// result is still duplicate-free.
pub proof fn lemma_remove_value_facts(s: Seq<usize>, id: usize)
    requires
        s.no_duplicates(),
    ensures
        !s.remove_value(id).contains(id),
        forall|id2: usize|
            id2 != id ==> (s.remove_value(id).contains(id2) <==> s.contains(id2)),
        s.remove_value(id).no_duplicates(),
        s.contains(id) ==> s.remove_value(id).len() == s.len() - 1,
        !s.contains(id) ==> s.remove_value(id) == s,
{
    s.index_of_first_ensures(id);
    match s.index_of_first(id) {
        Some(k) => {
            let r = s.remove_value(id);
            assert(r == s.remove(k));
            s.remove_ensures(k);
            assert forall|id2: usize| id2 != id && s.contains(id2) implies r.contains(id2) by {
                let j = choose|j: int| 0 <= j < s.len() && s[j] == id2;
                if j < k {
                    assert(r[j] == id2);
                } else {
                    assert(j != k);
                    assert(r[j - 1] == id2);
                }
            }
            assert forall|id2: usize| r.contains(id2) implies s.contains(id2) by {
                let j = choose|j: int| 0 <= j < r.len() && r[j] == id2;
                if j < k {
                    assert(s[j] == id2);
                } else {
                    assert(s[j + 1] == id2);
                }
            }
            assert forall|j: int| 0 <= j < r.len() implies r[j] != id by {
                if j < k {
                    assert(s[j] == r[j]);
                    assert(s.no_duplicates());
                } else {
                    assert(s[j + 1] == r[j]);
                }
            }
            assert(!r.contains(id));
            assert forall|i: int, j: int|
                0 <= i < r.len() && 0 <= j < r.len() && i != j implies r[i] != r[j] by {
                let si: int = if i < k {
                    i
                } else {
                    i + 1
                };
                let sj: int = if j < k {
                    j
                } else {
                    j + 1
                };
                assert(r[i] == s[si]);
                assert(r[j] == s[sj]);
            }
        },
        None => {
            assert(s.remove_value(id) == s);
            assert forall|j: int| 0 <= j < s.len() implies s[j] != id by {}
            assert(!s.contains(id));
        },
    }
}

/// Maps a position to its (unwrapped) grid cell pair via floor division;
/// callers wrap the result through the grid's modular indexing.
pub fn get_area(pos: Vec2, area_width: i64, area_height: i64) -> (r: (i64, i64))
    requires
        1 <= area_width,
        1 <= area_height,
        -COORD_LIMIT <= pos.x <= COORD_LIMIT,
        -COORD_LIMIT <= pos.y <= COORD_LIMIT,
    ensures
        r.0 == pos.x as int / area_width as int,
        r.1 == pos.y as int / area_height as int,
{
    let px = floor_div_i64(pos.x, area_width);
    let py = floor_div_i64(pos.y, area_height);
    (px, py)
}

} // verus!
