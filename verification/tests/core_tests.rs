use roguemap::grid::{GameMap, MapError};
use roguemap::rect::Rect;
use roguemap::tile::Tile;

#[test]
fn tile_block_sight_defaults_to_blocked() {
    let t = Tile::new(true, None);
    assert_eq!(t.blocked, true);
    assert_eq!(t.block_sight, true);

    let t = Tile::new(false, None);
    assert_eq!(t.blocked, false);
    assert_eq!(t.block_sight, false);
}

#[test]
fn tile_block_sight_can_be_overridden() {
    let t = Tile::new(true, Some(false));
    assert_eq!(t.blocked, true);
    assert_eq!(t.block_sight, false);

    let t = Tile::new(false, Some(true));
    assert_eq!(t.blocked, false);
    assert_eq!(t.block_sight, true);
}

#[test]
fn tile_wall_and_floor() {
    let w = Tile::wall();
    assert!(w.blocked && w.block_sight);
    let f = Tile::floor();
    assert!(!f.blocked && !f.block_sight);
}

#[test]
fn rect_new_corners() {
    let r = Rect::new(20, 15, 10, 15);
    assert_eq!(r.x1, 20);
    assert_eq!(r.y1, 15);
    assert_eq!(r.x2, 30);
    assert_eq!(r.y2, 30);
}

#[test]
fn rect_center() {
    let r = Rect::new(20, 15, 10, 15);
    assert_eq!(r.center(), (25, 22));
}

#[test]
fn rect_overlap() {
    let a = Rect::new(2, 2, 6, 6);
    let b = Rect::new(5, 5, 6, 6);
    assert!(a.intersects_with(&b));
    assert!(b.intersects_with(&a));

    let far = Rect::new(20, 20, 3, 3);
    assert!(!a.intersects_with(&far));

    // boxes that only share an edge do not overlap: the extents are half-open
    let touching = Rect::new(8, 2, 4, 6);
    assert!(!a.intersects_with(&touching));
}

#[test]
fn new_blocked_fills_every_cell_with_walls() {
    let m = GameMap::new_blocked(5, 4);
    assert_eq!(m.width(), 5);
    assert_eq!(m.height(), 4);
    for x in 0..5 {
        for y in 0..4 {
            assert_eq!(m.is_blocked(x, y), Ok(true));
            assert_eq!(m.blocks_sight(x, y), Ok(true));
        }
    }
}

#[test]
fn accessors_reject_out_of_bounds() {
    let m = GameMap::new_blocked(5, 4);
    assert_eq!(m.is_blocked(-1, 0), Err(MapError::OutOfBounds));
    assert_eq!(m.is_blocked(0, -1), Err(MapError::OutOfBounds));
    assert_eq!(m.is_blocked(5, 0), Err(MapError::OutOfBounds));
    assert_eq!(m.is_blocked(0, 4), Err(MapError::OutOfBounds));
    assert_eq!(m.blocks_sight(-1, -1), Err(MapError::OutOfBounds));
    assert_eq!(m.blocks_sight(5, 4), Err(MapError::OutOfBounds));
}

#[test]
fn carve_room_opens_exactly_the_interior() {
    let mut m = GameMap::new_blocked(10, 10);
    assert_eq!(m.carve_room(Rect::new(1, 1, 5, 5)), Ok(()));
    for x in 0..10 {
        for y in 0..10 {
            let interior = 2 <= x && x < 6 && 2 <= y && y < 6;
            assert_eq!(m.is_blocked(x, y), Ok(!interior));
            assert_eq!(m.blocks_sight(x, y), Ok(!interior));
        }
    }
}

#[test]
fn carve_room_rejects_out_of_bounds_rect() {
    let mut m = GameMap::new_blocked(10, 10);
    assert_eq!(m.carve_room(Rect::new(6, 6, 5, 5)), Err(MapError::OutOfBounds));
    // nothing was carved
    for x in 0..10 {
        for y in 0..10 {
            assert_eq!(m.is_blocked(x, y), Ok(true));
        }
    }
}

#[test]
fn carve_room_twice_gives_the_same_grid() {
    let mut once = GameMap::new_blocked(10, 10);
    assert_eq!(once.carve_room(Rect::new(1, 1, 5, 5)), Ok(()));
    let mut twice = GameMap::new_blocked(10, 10);
    assert_eq!(twice.carve_room(Rect::new(1, 1, 5, 5)), Ok(()));
    assert_eq!(twice.carve_room(Rect::new(1, 1, 5, 5)), Ok(()));
    for x in 0..10 {
        for y in 0..10 {
            assert_eq!(twice.is_blocked(x, y), once.is_blocked(x, y));
            assert_eq!(twice.blocks_sight(x, y), once.blocks_sight(x, y));
        }
    }
}

#[test]
fn carve_h_tunnel_opens_half_open_span() {
    let mut m = GameMap::new_blocked(10, 10);
    assert_eq!(m.carve_h_tunnel(2, 7, 3), Ok(()));
    for x in 0..10 {
        for y in 0..10 {
            let in_tunnel = y == 3 && 2 <= x && x < 7;
            assert_eq!(m.is_blocked(x, y), Ok(!in_tunnel));
        }
    }

    // swapped endpoints carve the same cells
    let mut swapped = GameMap::new_blocked(10, 10);
    assert_eq!(swapped.carve_h_tunnel(7, 2, 3), Ok(()));
    for x in 0..10 {
        for y in 0..10 {
            assert_eq!(swapped.is_blocked(x, y), m.is_blocked(x, y));
        }
    }
}

#[test]
fn carve_h_tunnel_twice_gives_the_same_grid() {
    let mut once = GameMap::new_blocked(10, 10);
    assert_eq!(once.carve_h_tunnel(2, 7, 3), Ok(()));
    let mut twice = GameMap::new_blocked(10, 10);
    assert_eq!(twice.carve_h_tunnel(2, 7, 3), Ok(()));
    assert_eq!(twice.carve_h_tunnel(2, 7, 3), Ok(()));
    for x in 0..10 {
        for y in 0..10 {
            assert_eq!(twice.is_blocked(x, y), once.is_blocked(x, y));
        }
    }
}

#[test]
fn carve_h_tunnel_rejects_out_of_bounds() {
    let mut m = GameMap::new_blocked(10, 10);
    assert_eq!(m.carve_h_tunnel(2, 11, 3), Err(MapError::OutOfBounds));
    assert_eq!(m.carve_h_tunnel(2, 7, 10), Err(MapError::OutOfBounds));
    for x in 0..10 {
        for y in 0..10 {
            assert_eq!(m.is_blocked(x, y), Ok(true));
        }
    }
}

#[test]
fn carve_v_tunnel_opens_half_open_span() {
    let mut m = GameMap::new_blocked(10, 10);
    assert_eq!(m.carve_v_tunnel(2, 7, 4), Ok(()));
    for x in 0..10 {
        for y in 0..10 {
            let in_tunnel = x == 4 && 2 <= y && y < 7;
            assert_eq!(m.is_blocked(x, y), Ok(!in_tunnel));
        }
    }

    let mut swapped = GameMap::new_blocked(10, 10);
    assert_eq!(swapped.carve_v_tunnel(7, 2, 4), Ok(()));
    for x in 0..10 {
        for y in 0..10 {
            assert_eq!(swapped.is_blocked(x, y), m.is_blocked(x, y));
        }
    }
}

#[test]
fn carve_v_tunnel_twice_gives_the_same_grid() {
    let mut once = GameMap::new_blocked(10, 10);
    assert_eq!(once.carve_v_tunnel(2, 7, 4), Ok(()));
    let mut twice = GameMap::new_blocked(10, 10);
    assert_eq!(twice.carve_v_tunnel(2, 7, 4), Ok(()));
    assert_eq!(twice.carve_v_tunnel(2, 7, 4), Ok(()));
    for x in 0..10 {
        for y in 0..10 {
            assert_eq!(twice.is_blocked(x, y), once.is_blocked(x, y));
        }
    }
}

#[test]
fn carve_v_tunnel_rejects_out_of_bounds() {
    let mut m = GameMap::new_blocked(10, 10);
    assert_eq!(m.carve_v_tunnel(2, 11, 4), Err(MapError::OutOfBounds));
    assert_eq!(m.carve_v_tunnel(2, 7, 10), Err(MapError::OutOfBounds));
}

#[test]
fn set_blocked_overrides_one_cell() {
    let mut m = GameMap::new_blocked(10, 10);
    assert_eq!(m.carve_room(Rect::new(1, 1, 8, 8)), Ok(()));
    assert_eq!(m.is_blocked(4, 4), Ok(false));
    assert_eq!(m.set_blocked(4, 4, true, true), Ok(()));
    assert_eq!(m.is_blocked(4, 4), Ok(true));
    assert_eq!(m.blocks_sight(4, 4), Ok(true));
    // neighbours keep their state
    assert_eq!(m.is_blocked(3, 4), Ok(false));
    assert_eq!(m.is_blocked(5, 4), Ok(false));

    assert_eq!(m.set_blocked(0, 0, false, false), Ok(()));
    assert_eq!(m.is_blocked(0, 0), Ok(false));
}

#[test]
fn set_blocked_rejects_out_of_bounds() {
    let mut m = GameMap::new_blocked(10, 10);
    assert_eq!(m.set_blocked(-1, 0, true, true), Err(MapError::OutOfBounds));
    assert_eq!(m.set_blocked(10, 0, true, true), Err(MapError::OutOfBounds));
}
