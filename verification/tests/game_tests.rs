use roguemap::builder::{build_map, connect_rooms, make_map, try_place_room};
use roguemap::entity::{ColorRgb, Entity};
use roguemap::grid::{GameMap, MapError};
use roguemap::input::{handle_keys, InputAction};
use roguemap::rect::Rect;

const WHITE: ColorRgb = ColorRgb { r: 255, g: 255, b: 255 };

#[test]
fn make_map_dimensions() {
    let m = make_map();
    assert_eq!(m.width(), 80);
    assert_eq!(m.height(), 45);
}

#[test]
fn make_map_scenario() {
    // 80x45 grid, two 10x15-footprint rooms at (20,15) and (50,15), joined by
    // a horizontal tunnel at row 23 spanning columns 25..55
    let m = make_map();
    assert_eq!(m.is_blocked(30, 23), Ok(false));
    assert_eq!(m.is_blocked(0, 0), Ok(true));

    // an explicit open path from (21,16) in one room to (51,16) in the other
    let mut path: Vec<(i32, i32)> = Vec::new();
    for y in 16..=23 {
        path.push((21, y));
    }
    for x in 22..=51 {
        path.push((x, 23));
    }
    for y in (16..23).rev() {
        path.push((51, y));
    }
    assert_eq!(path[0], (21, 16));
    assert_eq!(path[path.len() - 1], (51, 16));
    for k in 0..path.len() {
        let (x, y) = path[k];
        assert_eq!(m.is_blocked(x, y), Ok(false), "cell ({x},{y}) should be open");
        if k > 0 {
            let (px, py) = path[k - 1];
            assert_eq!((x - px).abs() + (y - py).abs(), 1);
        }
    }
}

#[test]
fn make_map_keeps_walls_outside_rooms_and_tunnel() {
    let m = make_map();
    // room boundaries stay walls
    assert_eq!(m.is_blocked(20, 15), Ok(true));
    assert_eq!(m.is_blocked(30, 16), Ok(true));
    assert_eq!(m.is_blocked(50, 29), Ok(true));
    // between the rooms, off the tunnel row
    assert_eq!(m.is_blocked(40, 22), Ok(true));
    assert_eq!(m.is_blocked(40, 24), Ok(true));
    // on the tunnel row
    assert_eq!(m.is_blocked(40, 23), Ok(false));
}

#[test]
fn try_place_room_carves_when_free() {
    let mut m = GameMap::new_blocked(30, 30);
    let placed: Vec<Rect> = vec![Rect::new(2, 2, 6, 6)];
    let candidate = Rect::new(12, 12, 6, 6);
    assert_eq!(try_place_room(&mut m, &placed, candidate), Ok(()));
    assert_eq!(m.is_blocked(15, 15), Ok(false));
    assert_eq!(m.is_blocked(12, 12), Ok(true));
}

#[test]
fn try_place_room_rejects_overlap() {
    let mut m = GameMap::new_blocked(30, 30);
    let placed: Vec<Rect> = vec![Rect::new(2, 2, 6, 6)];
    let candidate = Rect::new(5, 5, 6, 6);
    assert_eq!(
        try_place_room(&mut m, &placed, candidate),
        Err(MapError::InvalidRoomPlacement)
    );
    // the grid is untouched
    for x in 0..30 {
        for y in 0..30 {
            assert_eq!(m.is_blocked(x, y), Ok(true));
        }
    }
}

#[test]
fn try_place_room_rejects_rect_off_the_grid() {
    let mut m = GameMap::new_blocked(30, 30);
    let placed: Vec<Rect> = Vec::new();
    let candidate = Rect::new(26, 26, 6, 6);
    assert_eq!(
        try_place_room(&mut m, &placed, candidate),
        Err(MapError::InvalidRoomPlacement)
    );
}

#[test]
fn connect_rooms_carves_the_two_corridor_legs() {
    let mut m = GameMap::new_blocked(30, 30);
    let a = Rect::new(2, 2, 6, 6); // center (5,5)
    let b = Rect::new(12, 12, 6, 6); // center (15,15)
    connect_rooms(&mut m, a, b);
    // horizontal leg: row 5, columns 5..15 (half-open)
    for x in 5..15 {
        assert_eq!(m.is_blocked(x, 5), Ok(false));
    }
    assert_eq!(m.is_blocked(4, 5), Ok(true));
    // vertical leg: column 15, rows 5..15 (half-open), meeting the corner
    for y in 5..15 {
        assert_eq!(m.is_blocked(15, y), Ok(false));
    }
    // the far center itself is left to the room's own carving
    assert_eq!(m.is_blocked(15, 15), Ok(true));
}

#[test]
fn build_map_places_skips_and_connects() {
    let a = Rect::new(2, 2, 6, 6);
    let overlapping = Rect::new(5, 5, 6, 6);
    let c = Rect::new(12, 12, 6, 6);
    let off_grid = Rect::new(26, 2, 6, 6);
    let cands = vec![a, overlapping, c, off_grid];
    let (m, rooms) = build_map(30, 30, &cands);
    // the overlapping and off-grid candidates are skipped
    assert_eq!(rooms, vec![a, c]);
    assert_eq!(m.width(), 30);
    assert_eq!(m.height(), 30);
    // both placed interiors are open
    assert_eq!(m.is_blocked(3, 3), Ok(false));
    assert_eq!(m.is_blocked(13, 13), Ok(false));
    // the corridor joins their centers: along row 5, then down column 15
    assert_eq!(m.is_blocked(10, 5), Ok(false));
    assert_eq!(m.is_blocked(15, 10), Ok(false));
    // skipped candidates carved nothing
    assert_eq!(m.is_blocked(28, 3), Ok(true));
    assert_eq!(m.is_blocked(10, 10), Ok(true));
    // everything else stays wall
    assert_eq!(m.is_blocked(25, 25), Ok(true));
    assert_eq!(m.is_blocked(0, 0), Ok(true));

    // an explicit open path from inside the first room to inside the second:
    // to the first center, along the corridor, into the second room
    let mut path: Vec<(i32, i32)> = vec![(3, 3), (3, 4), (3, 5), (4, 5)];
    for x in 5..=15 {
        path.push((x, 5));
    }
    for y in 6..=15 {
        path.push((15, y));
    }
    for k in 0..path.len() {
        let (x, y) = path[k];
        assert_eq!(m.is_blocked(x, y), Ok(false), "cell ({x},{y}) should be open");
        if k > 0 {
            let (px, py) = path[k - 1];
            assert_eq!((x - px).abs() + (y - py).abs(), 1);
        }
    }
}

#[test]
fn entity_new_holds_its_fields() {
    let e = Entity::new(25, 23, '@', WHITE);
    assert_eq!(e.x, 25);
    assert_eq!(e.y, 23);
    assert_eq!(e.glyph, '@');
    assert_eq!(e.color, WHITE);
}

#[test]
fn move_into_blocked_cell_is_a_no_op() {
    // entity at (25,23) attempting to move into (24,23) when that cell is
    // blocked stays at (25,23)
    let mut m = make_map();
    assert_eq!(m.set_blocked(24, 23, true, true), Ok(()));
    let mut e = Entity::new(25, 23, '@', WHITE);
    e.move_by(-1, 0, &m);
    assert_eq!(e.x, 25);
    assert_eq!(e.y, 23);
}

#[test]
fn move_into_open_cell_commits_exactly_the_target() {
    let m = make_map();
    let mut e = Entity::new(25, 23, '@', WHITE);
    e.move_by(1, 0, &m);
    assert_eq!((e.x, e.y), (26, 23));
    e.move_by(0, -1, &m);
    assert_eq!((e.x, e.y), (26, 22));
}

#[test]
fn move_off_the_grid_is_deflected() {
    let mut m = GameMap::new_blocked(10, 10);
    assert_eq!(m.set_blocked(0, 0, false, false), Ok(()));
    let mut e = Entity::new(0, 0, '@', WHITE);
    e.move_by(-1, 0, &m);
    assert_eq!((e.x, e.y), (0, 0));
    e.move_by(0, -1, &m);
    assert_eq!((e.x, e.y), (0, 0));
}

#[test]
fn handle_keys_exit_and_other() {
    let m = make_map();
    let mut e = Entity::new(25, 23, '@', WHITE);
    assert_eq!(handle_keys(&mut e, &m, InputAction::Exit), true);
    assert_eq!((e.x, e.y), (25, 23));
    assert_eq!(handle_keys(&mut e, &m, InputAction::Other), false);
    assert_eq!((e.x, e.y), (25, 23));
}

#[test]
fn handle_keys_moves_in_each_direction() {
    let m = make_map();
    let mut e = Entity::new(25, 23, '@', WHITE);
    assert_eq!(handle_keys(&mut e, &m, InputAction::MoveUp), false);
    assert_eq!((e.x, e.y), (25, 22));
    assert_eq!(handle_keys(&mut e, &m, InputAction::MoveDown), false);
    assert_eq!((e.x, e.y), (25, 23));
    assert_eq!(handle_keys(&mut e, &m, InputAction::MoveRight), false);
    assert_eq!((e.x, e.y), (26, 23));
    assert_eq!(handle_keys(&mut e, &m, InputAction::MoveLeft), false);
    assert_eq!((e.x, e.y), (25, 23));
}

#[test]
fn handle_keys_absorbs_a_bump_into_a_wall() {
    let m = make_map();
    // (21,16) is a room corner cell: left and up are walls
    let mut e = Entity::new(21, 16, '@', WHITE);
    assert_eq!(handle_keys(&mut e, &m, InputAction::MoveLeft), false);
    assert_eq!((e.x, e.y), (21, 16));
    assert_eq!(handle_keys(&mut e, &m, InputAction::MoveUp), false);
    assert_eq!((e.x, e.y), (21, 16));
}
