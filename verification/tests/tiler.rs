use hex_tiler::color::color_index;
use hex_tiler::coord::HexCoord;
use hex_tiler::tiler::tile_grid;
use hex_tiler::tiler::hexagon_coords;
use hex_tiler::tiler::GridConfigError;
use hexx::shapes;
use hexx::Hex;
use hexx::HexLayout;
use hexx::Vec2;

fn in_hexagon(c: HexCoord, center: HexCoord, radius: i32) -> bool {
    let dq = c.q - center.q;
    let dr = c.r - center.r;
    dq.abs() <= radius && dr.abs() <= radius && (dq + dr).abs() <= radius
}

#[test]
fn counts_match_formula() {
    let center = HexCoord::new(0, 0);
    for radius in 0u32..6 {
        let coords = hexagon_coords(center, radius);
        let r = radius as usize;
        assert_eq!(coords.len(), 3 * r * r + 3 * r + 1);
    }
    let coords = hexagon_coords(center, 0);
    assert_eq!(coords.len(), 1);
    let coords = hexagon_coords(center, 1);
    assert_eq!(coords.len(), 7);
    let coords = hexagon_coords(center, 2);
    assert_eq!(coords.len(), 19);
}

#[test]
fn region_membership_uniqueness_completeness() {
    let center = HexCoord::new(2, -1);
    let radius = 3i32;
    let coords = hexagon_coords(center, radius as u32);
    for c in coords.iter() {
        assert!(in_hexagon(*c, center, radius));
    }
    for i in 0..coords.len() {
        for j in 0..coords.len() {
            if i != j {
                assert_ne!(coords[i], coords[j]);
            }
        }
    }
    for q in (center.q - radius)..=(center.q + radius) {
        for r in (center.r - radius)..=(center.r + radius) {
            let c = HexCoord::new(q, r);
            let expected = in_hexagon(c, center, radius);
            let produced = coords.iter().any(|x| *x == c);
            assert_eq!(produced, expected);
        }
    }
}

#[test]
fn matches_hexx_enumeration() {
    let center = HexCoord::new(2, -1);
    let radius = 3u32;
    let coords = hexagon_coords(center, radius);
    let reference: Vec<Hex> = shapes::hexagon(Hex::new(center.q, center.r), radius).collect();
    assert_eq!(coords.len(), reference.len());
    for h in reference.iter() {
        assert!(coords.iter().any(|c| c.q == h.x && c.r == h.y));
    }
    for c in coords.iter() {
        assert!(reference.iter().any(|h| c.q == h.x && c.r == h.y));
    }
}

#[test]
fn color_index_in_range_for_all_signs() {
    for chunk_size in 1..5 {
        for q in -10..11 {
            for r in -10..11 {
                let idx = color_index(HexCoord::new(q, r), chunk_size);
                assert!(idx < 3);
            }
        }
    }
}

#[test]
fn color_index_floor_division_example() {
    // (-1, -1) coarsened by 2 with flooring is (-1, -1), so the index is
    // ((-1) - (-1)) mod 3 = 0.
    assert_eq!(color_index(HexCoord::new(-1, -1), 2), 0);
}

#[test]
fn color_index_exact_values() {
    assert_eq!(color_index(HexCoord::new(0, 0), 2), 0);
    assert_eq!(color_index(HexCoord::new(1, 0), 1), 1);
    assert_eq!(color_index(HexCoord::new(-1, 0), 1), 2);
    assert_eq!(color_index(HexCoord::new(0, 1), 1), 2);
    // floor(3 / 2) = 1 and floor(-3 / 2) = -2, so the index is (1 - (-2)) mod 3 = 0.
    assert_eq!(color_index(HexCoord::new(3, -3), 2), 0);
}

#[test]
fn color_assignment_deterministic() {
    for q in -7..8 {
        for r in -7..8 {
            let first = color_index(HexCoord::new(q, r), 2);
            let second = color_index(HexCoord::new(q, r), 2);
            assert_eq!(first, second);
        }
    }
}

#[test]
fn translation_shifts_coordinates_and_world_positions() {
    let radius = 2i32;
    let base_center = HexCoord::new(0, 0);
    let moved_center = HexCoord::new(4, -2);
    let base = hexagon_coords(base_center, radius as u32);
    let moved = hexagon_coords(moved_center, radius as u32);
    assert_eq!(base.len(), moved.len());
    // The moved region is the base region translated coordinate-wise.
    for c in base.iter() {
        let t = HexCoord::new(c.q + 4, c.r - 2);
        assert!(moved.iter().any(|x| *x == t));
    }
    // The world positions, through the linear axial-to-Cartesian transform,
    // are all translated by one fixed world-space offset.
    let layout = HexLayout {
        scale: Vec2::new(8.0, 8.0),
        ..Default::default()
    };
    let offset = layout.hex_to_world_pos(Hex::new(4, -2));
    for c in base.iter() {
        let p = layout.hex_to_world_pos(Hex::new(c.q, c.r));
        let t = layout.hex_to_world_pos(Hex::new(c.q + 4, c.r - 2));
        assert!((t.x - (p.x + offset.x)).abs() < 1e-3);
        assert!((t.y - (p.y + offset.y)).abs() < 1e-3);
    }
}

#[test]
fn rejects_negative_radius() {
    let result = tile_grid(HexCoord::new(0, 0), -1, 2);
    assert_eq!(result, Err(GridConfigError::NegativeRadius));
}

#[test]
fn rejects_non_positive_chunk_size() {
    let result = tile_grid(HexCoord::new(0, 0), 5, 0);
    assert_eq!(result, Err(GridConfigError::NonPositiveChunkSize));
    let result = tile_grid(HexCoord::new(0, 0), 5, -3);
    assert_eq!(result, Err(GridConfigError::NonPositiveChunkSize));
}

#[test]
fn single_record_at_radius_zero() {
    let center = HexCoord::new(7, -9);
    let records = tile_grid(center, 0, 1).unwrap();
    assert_eq!(records.len(), 1);
    assert_eq!(records[0].coord, center);
}

#[test]
fn scenario_radius_ten_chunk_two() {
    let center = HexCoord::new(0, 0);
    let records = tile_grid(center, 10, 2).unwrap();
    assert_eq!(records.len(), 331);
    for rec in records.iter() {
        assert!(rec.color < 3);
    }
    let origin = records.iter().find(|rec| rec.coord.q == 0 && rec.coord.r == 0).unwrap();
    assert_eq!(origin.color, 0);
    let layout = HexLayout {
        scale: Vec2::new(8.0, 8.0),
        ..Default::default()
    };
    let pos = layout.hex_to_world_pos(Hex::new(origin.coord.q, origin.coord.r));
    assert_eq!(pos.x, 0.0);
    assert_eq!(pos.y, 0.0);
}
