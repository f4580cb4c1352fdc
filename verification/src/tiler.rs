use vstd::prelude::*;
use crate::color::color_index;
use crate::color::color_index_spec;
use crate::coord::HexCoord;
use crate::coord::in_hexagon;

verus! {

/// One placement record: the axial coordinate of a tile together with its
/// color index. The host maps the coordinate to a world position through its
/// hex layout's linear axial-to-Cartesian transform.
#[derive(Clone, Copy, Debug, PartialEq, Eq, Structural)]
pub struct Placement {
    pub coord: HexCoord,
    pub color: u8,
}

/// Rejection of an invalid tiling configuration.
#[derive(Clone, Copy, Debug, PartialEq, Eq, Structural)]
pub enum GridConfigError {
    /// The radius was negative.
    NegativeRadius,
    /// The chunk-size divisor was zero or negative.
    NonPositiveChunkSize,
}

/// A tiling configuration is valid when the radius is non-negative and the
/// chunk-size divisor is positive.
pub open spec fn valid_config(radius: int, chunk_size: int) -> bool {
    radius >= 0 && chunk_size >= 1
}

/// The number of axial coordinates in a hexagon of the given radius.
pub open spec fn hex_count(radius: int) -> int {
    3 * radius * radius + 3 * radius + 1
}

/// The number of coordinates in the row at horizontal offset `dq` from the
/// center of a hexagon of the given radius: `2 * radius + 1 - |dq|`.
spec fn row_len(radius: int, dq: int) -> int {
    if dq < 0 {
        2 * radius + 1 + dq
    } else {
        2 * radius + 1 - dq
    }
}

/// The smallest row offset `dr` of the row at horizontal offset `dq`:
/// `max(-radius, -dq - radius)`.
spec fn row_lo(radius: int, dq: int) -> int {
    if -dq - radius > -radius {
        -dq - radius
    } else {
        -radius
    }
}

/// The largest row offset `dr` of the row at horizontal offset `dq`:
/// `min(radius, -dq + radius)`.
spec fn row_hi(radius: int, dq: int) -> int {
    if -dq + radius < radius {
        -dq + radius
    } else {
        radius
    }
}

/// The number of coordinates in all rows at horizontal offsets below `dq`.
spec fn prefix_count(radius: int, dq: int) -> int
    decreases dq + radius,
{
    if dq <= -radius {
        0
    } else {
        prefix_count(radius, dq - 1) + row_len(radius, dq - 1)
    }
}

/// Closed form of twice the prefix count, split at the central row.
proof fn lemma_prefix_count_closed(radius: int, dq: int)
    requires
        radius >= 0,
        -radius <= dq <= radius + 1,
    ensures
        2 * prefix_count(radius, dq) == if dq <= 0 {
            (dq + radius) * (3 * radius + 1 + dq)
        } else {
            radius * (3 * radius + 1) + dq * (4 * radius + 3 - dq)
        },
    decreases dq + radius,
{
    if dq == -radius {
        assert(prefix_count(radius, dq) == 0);
        assert((dq + radius) * (3 * radius + 1 + dq) == 0) by (nonlinear_arith)
            requires
                dq + radius == 0,
        ;
    } else {
        lemma_prefix_count_closed(radius, dq - 1);
        assert(prefix_count(radius, dq) == prefix_count(radius, dq - 1) + row_len(radius, dq - 1));
        if dq <= 0 {
            assert(2 * prefix_count(radius, dq) == (dq + radius) * (3 * radius + 1 + dq))
                by (nonlinear_arith)
                requires
                    2 * prefix_count(radius, dq - 1) == (dq - 1 + radius) * (3 * radius + dq),
                    prefix_count(radius, dq) == prefix_count(radius, dq - 1) + 2 * radius + dq,
            ;
        } else if dq == 1 {
            assert(2 * prefix_count(radius, dq) == radius * (3 * radius + 1) + dq * (4 * radius
                + 3 - dq)) by (nonlinear_arith)
                requires
                    dq == 1,
                    2 * prefix_count(radius, dq - 1) == radius * (3 * radius + 1),
                    prefix_count(radius, dq) == prefix_count(radius, dq - 1) + 2 * radius + 1,
            ;
        } else {
            assert(2 * prefix_count(radius, dq) == radius * (3 * radius + 1) + dq * (4 * radius
                + 3 - dq)) by (nonlinear_arith)
                requires
                    dq >= 2,
                    2 * prefix_count(radius, dq - 1) == radius * (3 * radius + 1) + (dq - 1) * (4
                        * radius + 4 - dq),
                    prefix_count(radius, dq) == prefix_count(radius, dq - 1) + 2 * radius + 2 - dq,
            ;
        }
    }
}

/// The prefix count over all rows equals `3 * radius^2 + 3 * radius + 1`.
proof fn lemma_prefix_count_total(radius: int)
    requires
        radius >= 0,
    ensures
        prefix_count(radius, radius + 1) == hex_count(radius),
{
    lemma_prefix_count_closed(radius, radius + 1);
    assert(radius * (3 * radius + 1) + (radius + 1) * (4 * radius + 3 - (radius + 1)) == 2 * (3
        * radius * radius + 3 * radius + 1)) by (nonlinear_arith);
}

/// Strict lexicographic order on coordinates, the order of enumeration.
spec fn lex_lt(a: HexCoord, b: HexCoord) -> bool {
    a.q < b.q || (a.q == b.q && a.r < b.r)
}

/// Enumerates every axial coordinate whose hex-distance from `center` is at
/// most `radius`: exactly the coordinates `c` with `in_hexagon(c, center,
/// radius)`, each produced exactly once, `3 * radius^2 + 3 * radius + 1` in
/// all.
pub fn hexagon_coords(center: HexCoord, radius: u32) -> (out: Vec<HexCoord>)
    requires
        center.q - radius >= i32::MIN,
        center.q + radius <= i32::MAX,
        center.r - radius >= i32::MIN,
        center.r + radius <= i32::MAX,
        hex_count(radius as int) <= usize::MAX,
    ensures
        out@.len() == hex_count(radius as int),
        forall|i: int| 0 <= i < out@.len() ==> in_hexagon(#[trigger] out@[i], center, radius as int),
        forall|i: int, j: int| 0 <= i < j < out@.len() ==> out@[i] != out@[j],
        forall|c: HexCoord| #[trigger] in_hexagon(c, center, radius as int) ==> out@.contains(c),
{
    let r = radius as i64;
    let cq = center.q as i64;
    let cr = center.r as i64;
    let mut out: Vec<HexCoord> = Vec::new();
    let mut dq: i64 = -r;
    while dq <= r
        invariant
            r == radius,
            cq == center.q,
            cr == center.r,
            center.q - radius >= i32::MIN,
            center.q + radius <= i32::MAX,
            center.r - radius >= i32::MIN,
            center.r + radius <= i32::MAX,
            -r <= dq <= r + 1,
            out@.len() == prefix_count(radius as int, dq as int),
            forall|i: int| 0 <= i < out@.len() ==> in_hexagon(
                #[trigger] out@[i],
                center,
                radius as int,
            ) && out@[i].q < cq + dq,
            forall|i: int, j: int| 0 <= i < j < out@.len() ==> lex_lt(out@[i], out@[j]),
            forall|c: HexCoord| #[trigger] in_hexagon(c, center, radius as int) && c.q < cq + dq
                ==> out@.contains(c),
        decreases r + 1 - dq,
    {
        let lo: i64 = if -dq - r > -r {
            -dq - r
        } else {
            -r
        };
        let hi: i64 = if -dq + r < r {
            -dq + r
        } else {
            r
        };
        let q_i: i32 = (cq + dq) as i32;
        let mut rr: i64 = lo;
        while rr <= hi
            invariant
                r == radius,
                cq == center.q,
                cr == center.r,
                center.q - radius >= i32::MIN,
                center.q + radius <= i32::MAX,
                center.r - radius >= i32::MIN,
                center.r + radius <= i32::MAX,
                -r <= dq <= r,
                lo == row_lo(radius as int, dq as int),
                hi == row_hi(radius as int, dq as int),
                lo <= rr <= hi + 1,
                q_i == cq + dq,
                out@.len() == prefix_count(radius as int, dq as int) + (rr - lo),
                forall|i: int| 0 <= i < out@.len() ==> in_hexagon(
                    #[trigger] out@[i],
                    center,
                    radius as int,
                ) && (out@[i].q < cq + dq || (out@[i].q == cq + dq && out@[i].r < cr + rr)),
                forall|i: int, j: int| 0 <= i < j < out@.len() ==> lex_lt(out@[i], out@[j]),
                forall|c: HexCoord| #[trigger] in_hexagon(c, center, radius as int) && (c.q < cq
                    + dq || (c.q == cq + dq && c.r < cr + rr)) ==> out@.contains(c),
            decreases hi + 1 - rr,
        {
            let r_i: i32 = (cr + rr) as i32;
            let ghost prev = out@;
            let next = HexCoord { q: q_i, r: r_i };
            out.push(next);
            proof {
                assert(out@ == prev.push(next));
                assert forall|c: HexCoord| #[trigger] in_hexagon(c, center, radius as int) && (
                c.q < cq + dq || (c.q == cq + dq && c.r < cr + (rr + 1))) implies out@.contains(
                    c,
                ) by {
                    if c.q < cq + dq || (c.q == cq + dq && c.r < cr + rr) {
                        let i = choose|i: int| 0 <= i < prev.len() && prev[i] == c;
                        assert(prev.push(next)[i] == prev[i]);
                        assert(out@[i] == c);
                    } else {
                        assert(c.q == q_i && c.r == r_i);
                        assert(out@[prev.len() as int] == next);
                    }
                }
            }
            rr = rr + 1;
        }
        proof {
            assert(hi + 1 - lo == row_len(radius as int, dq as int));
            assert(prefix_count(radius as int, dq as int + 1) == prefix_count(
                radius as int,
                dq as int,
            ) + row_len(radius as int, dq as int));
        }
        dq = dq + 1;
    }
    proof {
        lemma_prefix_count_total(radius as int);
        assert forall|i: int, j: int| 0 <= i < j < out@.len() implies out@[i] != out@[j] by {
            assert(lex_lt(out@[i], out@[j]));
        }
    }
    out
}

/// Produces one placement record for every axial coordinate within `radius`
/// of `center`: the records' coordinates are exactly the coordinates of the
/// hexagonal region, each exactly once, `3 * radius^2 + 3 * radius + 1` in
/// all, and each record's color index is the chunk-based classification of
/// its coordinate. A negative radius and a non-positive chunk size are the
/// only rejected configurations; every valid configuration succeeds.
pub fn tile_grid(center: HexCoord, radius: i32, chunk_size: i32) -> (result: Result<
    Vec<Placement>,
    GridConfigError,
>)
    requires
        radius >= 0 ==> center.q - radius >= i32::MIN && center.q + radius <= i32::MAX
            && center.r - radius >= i32::MIN && center.r + radius <= i32::MAX && hex_count(
            radius as int,
        ) <= usize::MAX,
    ensures
        result matches Ok(ps) <==> valid_config(radius as int, chunk_size as int),
        radius < 0 ==> result == Err::<Vec<Placement>, GridConfigError>(
            GridConfigError::NegativeRadius,
        ),
        radius >= 0 && chunk_size < 1 ==> result == Err::<Vec<Placement>, GridConfigError>(
            GridConfigError::NonPositiveChunkSize,
        ),
        result matches Ok(ps) ==> {
            &&& ps@.len() == hex_count(radius as int)
            &&& forall|i: int| 0 <= i < ps@.len() ==> in_hexagon(
                (#[trigger] ps@[i]).coord,
                center,
                radius as int,
            )
            &&& forall|i: int| 0 <= i < ps@.len() ==> (#[trigger] ps@[i]).color
                == color_index_spec(
                ps@[i].coord.q as int,
                ps@[i].coord.r as int,
                chunk_size as int,
            ) && ps@[i].color < 3
            &&& forall|i: int, j: int| 0 <= i < j < ps@.len() ==> ps@[i].coord != ps@[j].coord
            &&& forall|c: HexCoord| #[trigger] in_hexagon(c, center, radius as int)
                ==> exists|i: int| 0 <= i < ps@.len() && ps@[i].coord == c
        },
{
    if radius < 0 {
        return Err(GridConfigError::NegativeRadius);
    }
    if chunk_size < 1 {
        return Err(GridConfigError::NonPositiveChunkSize);
    }
    let coords = hexagon_coords(center, radius as u32);
    let mut placements: Vec<Placement> = Vec::new();
    let mut k: usize = 0;
    while k < coords.len()
        invariant
            chunk_size >= 1,
            k <= coords.len(),
            placements@.len() == k,
            forall|i: int| 0 <= i < k ==> (#[trigger] placements@[i]).coord == coords@[i],
            forall|i: int| 0 <= i < k ==> (#[trigger] placements@[i]).color == color_index_spec(
                coords@[i].q as int,
                coords@[i].r as int,
                chunk_size as int,
            ) && placements@[i].color < 3,
        decreases coords.len() - k,
    {
        let c = coords[k];
        let col = color_index(c, chunk_size);
        placements.push(Placement { coord: c, color: col });
        k = k + 1;
    }
    proof {
        assert forall|c: HexCoord| #[trigger] in_hexagon(c, center, radius as int)
            implies exists|i: int| 0 <= i < placements@.len() && placements@[i].coord == c by {
            assert(coords@.contains(c));
            let i = choose|i: int| 0 <= i < coords@.len() && coords@[i] == c;
            assert(placements@[i].coord == c);
        }
    }
    Ok(placements)
}

} // verus!
