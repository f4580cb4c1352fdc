use vstd::arithmetic::div_mod::lemma_mod_add_multiples_vanish;
use vstd::arithmetic::div_mod::lemma_mod_bound;
use vstd::arithmetic::div_mod::lemma_sub_mod_noop;
use vstd::prelude::*;
use crate::coord::HexCoord;

verus! {

/// Coarsens one axial component by a positive chunk size: floor division,
/// rounding toward negative infinity. On `int`, `/` with a positive divisor
/// is Euclidean division, which coincides with flooring.
pub open spec fn coarsen(v: int, chunk_size: int) -> int
    recommends
        chunk_size >= 1,
{
    v / chunk_size
}

/// The color index of the coordinate `(q, r)` under chunk size `chunk_size`:
/// both components are coarsened by floor division, and the index is the
/// Euclidean remainder of their difference modulo 3, hence always in
/// {0, 1, 2} whatever the signs of `q` and `r`.
pub open spec fn color_index_spec(q: int, r: int, chunk_size: int) -> int
    recommends
        chunk_size >= 1,
{
    (coarsen(q, chunk_size) - coarsen(r, chunk_size)) % 3
}

/// The color index lies in {0, 1, 2} for every pair of integer components,
/// negative ones included.
pub proof fn lemma_color_index_range(q: int, r: int, chunk_size: int)
    requires
        chunk_size >= 1,
    ensures
        0 <= color_index_spec(q, r, chunk_size) < 3,
{
    lemma_mod_bound(coarsen(q, chunk_size) - coarsen(r, chunk_size), 3);
}

/// Floor division keeps the quotient between 0 and the dividend, so a
/// quotient of a machine integer by a positive divisor never overflows.
proof fn lemma_floor_div_bounds(v: int, d: int)
    requires
        d >= 1,
    ensures
        v >= 0 ==> 0 <= v / d <= v,
        v < 0 ==> v <= v / d <= 0,
{
    if v >= 0 {
        assert(0 <= v / d <= v) by (nonlinear_arith)
            requires
                d >= 1,
                v >= 0,
        ;
    } else {
        assert(v <= v / d <= 0) by (nonlinear_arith)
            requires
                d >= 1,
                v < 0,
        ;
    }
}

/// Floor division of one axial component by a positive chunk size.
fn floor_div(v: i32, d: i32) -> (q: i32)
    requires
        d >= 1,
    ensures
        q == coarsen(v as int, d as int),
{
    proof {
        lemma_floor_div_bounds(v as int, d as int);
    }
    v.checked_div_euclid(d).unwrap()
}

/// The Euclidean remainder of one coarsened component modulo 3.
fn rem3(v: i32) -> (m: i32)
    ensures
        m == (v as int) % 3,
        0 <= m < 3,
{
    proof {
        lemma_mod_bound(v as int, 3);
    }
    v.checked_rem_euclid(3).unwrap()
}

/// Computes the color index of `coord` under `chunk_size`: each component is
/// coarsened by floor division, and the index is the Euclidean remainder of
/// their difference modulo 3. The result equals `color_index_spec` of the
/// arguments alone, so identical inputs always yield the identical index.
pub fn color_index(coord: HexCoord, chunk_size: i32) -> (idx: u8)
    requires
        chunk_size >= 1,
    ensures
        idx == color_index_spec(coord.q as int, coord.r as int, chunk_size as int),
        idx < 3,
{
    let cq = floor_div(coord.q, chunk_size);
    let cr = floor_div(coord.r, chunk_size);
    let mq = rem3(cq);
    let mr = rem3(cr);
    proof {
        lemma_sub_mod_noop(cq as int, cr as int, 3);
        lemma_mod_add_multiples_vanish(mq - mr, 3);
        lemma_mod_bound(mq - mr + 3, 3);
    }
    let idx = (mq + 3 - mr).checked_rem_euclid(3).unwrap();
    idx as u8
}

} // verus!
