//! Integer arithmetic helpers for the simulation: floor division, a
//! sign-correct (Euclidean) modulo used for toroidal wrapping, and the
//! truncating division used when averaging accumulated neighbor sums.

use vstd::prelude::*;
use vstd::arithmetic::div_mod::{
    lemma_fundamental_div_mod, lemma_fundamental_div_mod_converse_div,
    lemma_fundamental_div_mod_converse_mod, lemma_mod_division_less_than_divisor,
    lemma_div_pos_is_pos, lemma_div_is_ordered,
};

verus! {

/// Bound on the magnitude of coordinate-like inputs accepted by the helpers
/// below; generous enough for every intermediate value the pipeline forms,
/// and small enough that the helpers never overflow an `i64`.
pub const COORD_LIMIT: i64 = 0x4000_0000_0000;

/// Truncating (round-toward-zero) division, as Rust's `/` computes it.
/// In contracts `a / b` is Euclidean, so the two differ on negative `a`.
pub open spec fn tdiv(a: int, b: int) -> int {
    if a >= 0 {
        a / b
    } else {
        -((-a) / b)
    }
}

/// Rust's truncating division of `i64` values, with its exec semantics
/// restated through `tdiv` so callers can reason about it.
pub fn tdiv_i64(a: i64, b: i64) -> (r: i64)
    requires
        1 <= b,
    ensures
        r == tdiv(a as int, b as int),
{
    a / b
}

/// Restates `-a = b*q + s` (truncating division of a negative `a`) as the
/// Euclidean decomposition of `a` itself.
proof fn lemma_negative_decomposition(a: int, b: int, q: int, s: int)
    requires
        a < 0,
        b >= 1,
        -a == b * q + s,
        0 <= s < b,
    ensures
        s != 0 ==> a == (-q - 1) * b + (b - s),
        s == 0 ==> a == (-q) * b + 0,
{
    assert(s != 0 ==> a == (-q - 1) * b + (b - s)) by (nonlinear_arith)
        requires
            -a == b * q + s,
    ;
    assert(s == 0 ==> a == (-q) * b + 0) by (nonlinear_arith)
        requires
            -a == b * q + s,
    ;
}

/// Floor division: the quotient of Euclidean division for a positive divisor.
pub fn floor_div_i64(a: i64, b: i64) -> (r: i64)
    requires
        1 <= b,
        -COORD_LIMIT <= a <= COORD_LIMIT,
    ensures
        r == a as int / b as int,
{
    let q = a / b;
    proof {
        if a < 0 {
            let na = -(a as int);
            let q0 = na / b as int;
            let s = na % b as int;
            lemma_fundamental_div_mod(na, b as int);
            lemma_mod_division_less_than_divisor(na, b as int);
            lemma_negative_decomposition(a as int, b as int, q0, s);
            if s != 0 {
                lemma_fundamental_div_mod_converse_div(a as int, b as int, -q0 - 1, b - s);
            } else {
                lemma_fundamental_div_mod_converse_div(a as int, b as int, -q0, 0);
            }
        }
    }
    if a % b != 0 && a < 0 {
        q - 1
    } else {
        q
    }
}

/// True modulo: always lands in `[0, m)`, wrapping negative inputs to the
/// high end. This is the wrap that implements the toroidal topology.
pub fn wrap_i64(a: i64, m: i64) -> (r: i64)
    requires
        1 <= m,
        -COORD_LIMIT <= a <= COORD_LIMIT,
        m <= COORD_LIMIT,
    ensures
        r == a as int % m as int,
        0 <= r < m,
{
    let r0 = a % m;
    proof {
        if a < 0 {
            let na = -(a as int);
            let q0 = na / m as int;
            let s = na % m as int;
            lemma_fundamental_div_mod(na, m as int);
            lemma_mod_division_less_than_divisor(na, m as int);
            lemma_negative_decomposition(a as int, m as int, q0, s);
            if s != 0 {
                lemma_fundamental_div_mod_converse_mod(a as int, m as int, -q0 - 1, m - s);
            } else {
                lemma_fundamental_div_mod_converse_mod(a as int, m as int, -q0, 0);
            }
        }
    }
    if r0 < 0 {
        r0 + m
    } else {
        r0
    }
}

/// A quotient by a positive divisor stays within the dividend's bounds.
pub proof fn lemma_div_range(a: int, b: int, m: int)
    requires
        1 <= b,
        0 <= m,
        -m <= a <= m,
    ensures
        -m <= a / b <= m,
{
    lemma_fundamental_div_mod(a, b);
    lemma_mod_division_less_than_divisor(a, b);
    assert(-m <= a / b <= m) by (nonlinear_arith)
        requires
            a == b * (a / b) + a % b,
            0 <= a % b < b,
            1 <= b,
            -m <= a <= m,
    ;
}

/// An average stays within the bound of its summands: if `|a| <= b * c`
/// then the truncating quotient `a / b` has magnitude at most `c`.
pub proof fn lemma_tdiv_bound(a: int, b: int, c: int)
    requires
        1 <= b,
        0 <= c,
        -(b * c) <= a <= b * c,
    ensures
        -c <= tdiv(a, b) <= c,
{
    assert(b * c == c * b + 0) by (nonlinear_arith);
    lemma_fundamental_div_mod_converse_div(b * c, b, c, 0);
    if a >= 0 {
        lemma_div_pos_is_pos(a, b);
        lemma_div_is_ordered(a, b * c, b);
    } else {
        lemma_div_pos_is_pos(-a, b);
        lemma_div_is_ordered(-a, b * c, b);
    }
}

} // verus!
