use vstd::prelude::*;

verus! {

/// An axial hex-grid coordinate: a pair of signed integers `(q, r)`
/// identifying one tile.
#[derive(Clone, Copy, Debug, PartialEq, Eq, Structural)]
pub struct HexCoord {
    pub q: i32,
    pub r: i32,
}

/// Whether `(q, r)` lies in the hexagon of the given radius around
/// `(center_q, center_r)`: writing `dq`, `dr` for the components relative to
/// the center, this is `max(|dq|, |dr|, |dq + dr|) <= radius`.
pub open spec fn in_hexagon_at(q: int, r: int, center_q: int, center_r: int, radius: int) -> bool {
    let dq = q - center_q;
    let dr = r - center_r;
    &&& -radius <= dq <= radius
    &&& -radius <= dr <= radius
    &&& -radius <= dq + dr <= radius
}

/// Whether the coordinate `c` lies in the hexagon of the given radius
/// around `center`.
pub open spec fn in_hexagon(c: HexCoord, center: HexCoord, radius: int) -> bool {
    in_hexagon_at(c.q as int, c.r as int, center.q as int, center.r as int, radius)
}

impl HexCoord {
    /// Builds the coordinate `(q, r)`.
    pub fn new(q: i32, r: i32) -> (c: HexCoord)
        ensures
            c.q == q,
            c.r == r,
    {
        HexCoord { q, r }
    }
}

/// Membership in a hexagonal region is translation invariant: shifting a
/// coordinate and the center by the same vector `(dq, dr)` does not change
/// whether the coordinate lies in the region. Since the map from an axial
/// coordinate to a world position is linear in `(q, r)`, shifting the center
/// shifts every produced coordinate, and hence every world position, by one
/// fixed offset.
pub proof fn lemma_hexagon_translation(
    q: int,
    r: int,
    center_q: int,
    center_r: int,
    dq: int,
    dr: int,
    radius: int,
)
    ensures
        in_hexagon_at(q + dq, r + dr, center_q + dq, center_r + dr, radius) == in_hexagon_at(
            q,
            r,
            center_q,
            center_r,
            radius,
        ),
{
}

} // verus!
