use vstd::prelude::*;
use crate::builder::{
    link_contains, links_open_at, recipe_open_at, rooms_open_at, two_room_map, two_rooms_open,
};
use crate::grid::{h_tunnel_contains, v_tunnel_contains, GameMap};
use crate::rect::Rect;
use crate::tile::{floor_tile, wall_tile};

verus! {

/// Two cells share an edge: they differ by exactly one step along exactly
/// one axis.
pub open spec fn adjacent(a: (int, int), b: (int, int)) -> bool {
    ||| (a.0 == b.0 && (a.1 == b.1 + 1 || b.1 == a.1 + 1))
    ||| (a.1 == b.1 && (a.0 == b.0 + 1 || b.0 == a.0 + 1))
}

/// The cell `c` is on the grid and open for movement.
pub open spec fn cell_open(m: GameMap, c: (int, int)) -> bool {
    m.open_at(c.0, c.1)
}

/// A walk over the grid's open cells: non-empty, every cell open,
/// consecutive cells adjacent.
pub open spec fn is_open_path(m: GameMap, p: Seq<(int, int)>) -> bool {
    &&& p.len() >= 1
    &&& forall|i: int| 0 <= i < p.len() ==> cell_open(m, #[trigger] p[i])
    &&& forall|i: int| 0 <= i < p.len() - 1 ==> adjacent(#[trigger] p[i], p[i + 1])
}

/// Some open path leads from `a` to `b`.
pub open spec fn connected(m: GameMap, a: (int, int), b: (int, int)) -> bool {
    exists|p: Seq<(int, int)>| #[trigger] is_open_path(m, p) && p.first() == a && p.last() == b
}

/// An open cell is connected to itself.
pub proof fn lemma_connected_refl(m: GameMap, a: (int, int))
    requires
        cell_open(m, a),
    ensures
        connected(m, a, a),
{
    let p = seq![a];
    assert(p[0] == a);
    assert(is_open_path(m, p));
}

/// Two adjacent open cells are connected.
pub proof fn lemma_connected_step(m: GameMap, a: (int, int), b: (int, int))
    requires
        cell_open(m, a),
        cell_open(m, b),
        adjacent(a, b),
    ensures
        connected(m, a, b),
{
    let p = seq![a, b];
    assert(p[0] == a);
    assert(p[1] == b);
    assert(is_open_path(m, p));
}

/// Connectivity composes: a path reaching `b` and a path leaving `b` join
/// into one path.
pub proof fn lemma_connected_trans(m: GameMap, a: (int, int), b: (int, int), c: (int, int))
    requires
        connected(m, a, b),
        connected(m, b, c),
    ensures
        connected(m, a, c),
{
    let p = choose|p: Seq<(int, int)>|
        #[trigger] is_open_path(m, p) && p.first() == a && p.last() == b;
    let q = choose|q: Seq<(int, int)>|
        #[trigger] is_open_path(m, q) && q.first() == b && q.last() == c;
    let r = p + q.subrange(1, q.len() as int);
    assert forall|i: int| 0 <= i < r.len() implies cell_open(m, #[trigger] r[i]) by {
        if i < p.len() {
            assert(r[i] == p[i]);
        } else {
            assert(r[i] == q[i - p.len() + 1]);
        }
    }
    assert forall|i: int| 0 <= i < r.len() - 1 implies adjacent(#[trigger] r[i], r[i + 1]) by {
        if i + 1 < p.len() {
            assert(r[i] == p[i]);
            assert(r[i + 1] == p[i + 1]);
        } else if i + 1 == p.len() {
            assert(r[i] == p[i]);
            assert(p[i] == b);
            assert(r[i + 1] == q[1]);
            assert(adjacent(q[0], q[1]));
        } else {
            assert(r[i] == q[i - p.len() + 1]);
            assert(r[i + 1] == q[i - p.len() + 2]);
            assert(adjacent(q[i - p.len() + 1], q[i - p.len() + 2]));
        }
    }
    assert(is_open_path(m, r));
    assert(r.first() == a);
    assert(r.last() == c) by {
        if q.len() == 1 {
            assert(r =~= p);
        } else {
            assert(r.last() == q.last());
        }
    }
}

/// When every cell of a horizontal run is open, its two ends are connected.
pub proof fn lemma_h_run_connected(m: GameMap, x0: int, x1: int, y: int)
    requires
        forall|x: int|
            (if x0 <= x1 {
                x0 <= x <= x1
            } else {
                x1 <= x <= x0
            }) ==> #[trigger] cell_open(m, (x, y)),
    ensures
        connected(m, (x0, y), (x1, y)),
    decreases (if x0 <= x1 {
        x1 - x0
    } else {
        x0 - x1
    }),
{
    if x0 == x1 {
        lemma_connected_refl(m, (x0, y));
    } else if x0 < x1 {
        lemma_connected_step(m, (x0, y), (x0 + 1, y));
        lemma_h_run_connected(m, x0 + 1, x1, y);
        lemma_connected_trans(m, (x0, y), (x0 + 1, y), (x1, y));
    } else {
        lemma_connected_step(m, (x0, y), (x0 - 1, y));
        lemma_h_run_connected(m, x0 - 1, x1, y);
        lemma_connected_trans(m, (x0, y), (x0 - 1, y), (x1, y));
    }
}

/// When every cell of a vertical run is open, its two ends are connected.
pub proof fn lemma_v_run_connected(m: GameMap, y0: int, y1: int, x: int)
    requires
        forall|y: int|
            (if y0 <= y1 {
                y0 <= y <= y1
            } else {
                y1 <= y <= y0
            }) ==> #[trigger] cell_open(m, (x, y)),
    ensures
        connected(m, (x, y0), (x, y1)),
    decreases (if y0 <= y1 {
        y1 - y0
    } else {
        y0 - y1
    }),
{
    if y0 == y1 {
        lemma_connected_refl(m, (x, y0));
    } else if y0 < y1 {
        lemma_connected_step(m, (x, y0), (x, y0 + 1));
        lemma_v_run_connected(m, y0 + 1, y1, x);
        lemma_connected_trans(m, (x, y0), (x, y0 + 1), (x, y1));
    } else {
        lemma_connected_step(m, (x, y0), (x, y0 - 1));
        lemma_v_run_connected(m, y0 - 1, y1, x);
        lemma_connected_trans(m, (x, y0), (x, y0 - 1), (x, y1));
    }
}

/// A room's interior is connected within itself: it is a box, so one
/// vertical and one horizontal run inside it join any two of its cells.
pub proof fn lemma_room_interior_connected(m: GameMap, r: Rect, p: (int, int), q: (int, int))
    requires
        forall|x: int, y: int| r.interior_contains(x, y) ==> #[trigger] cell_open(m, (x, y)),
        r.interior_contains(p.0, p.1),
        r.interior_contains(q.0, q.1),
    ensures
        connected(m, p, q),
{
    assert forall|y: int|
        (if p.1 <= q.1 {
            p.1 <= y <= q.1
        } else {
            q.1 <= y <= p.1
        }) implies #[trigger] cell_open(m, (p.0, y)) by {
        assert(r.interior_contains(p.0, y));
    }
    lemma_v_run_connected(m, p.1, q.1, p.0);
    assert forall|x: int|
        (if p.0 <= q.0 {
            p.0 <= x <= q.0
        } else {
            q.0 <= x <= p.0
        }) implies #[trigger] cell_open(m, (x, q.1)) by {
        assert(r.interior_contains(x, q.1));
    }
    lemma_h_run_connected(m, p.0, q.0, q.1);
    lemma_connected_trans(m, p, (p.0, q.1), q);
}

/// Two carved rooms joined by the horizontal-then-vertical corridor between
/// their centers are connected, from any interior cell of one to any of the
/// other — provided the second room's center does not lie strictly above
/// and strictly to the right of the first's. Both corridor legs are
/// half-open and exclude their far endpoint, so in that one arrangement the
/// legs meet only diagonally and the corridor has a gap; every other
/// arrangement is covered.
pub proof fn lemma_linked_rooms_connected(
    m: GameMap,
    a: Rect,
    b: Rect,
    p: (int, int),
    q: (int, int),
)
    requires
        a.x1 + 2 <= a.x2,
        a.y1 + 2 <= a.y2,
        b.x1 + 2 <= b.x2,
        b.y1 + 2 <= b.y2,
        forall|x: int, y: int| a.interior_contains(x, y) ==> #[trigger] cell_open(m, (x, y)),
        forall|x: int, y: int| b.interior_contains(x, y) ==> #[trigger] cell_open(m, (x, y)),
        forall|x: int, y: int| link_contains(a, b, x, y) ==> #[trigger] cell_open(m, (x, y)),
        b.spec_center().0 <= a.spec_center().0 || a.spec_center().1 <= b.spec_center().1,
        a.interior_contains(p.0, p.1),
        b.interior_contains(q.0, q.1),
    ensures
        connected(m, p, q),
{
    let acx = a.spec_center().0;
    let acy = a.spec_center().1;
    let bcx = b.spec_center().0;
    let bcy = b.spec_center().1;
    assert(a.interior_contains(acx, acy));
    assert(b.interior_contains(bcx, bcy));
    // from the first center, along its row to the second center's column
    assert forall|x: int|
        (if acx <= bcx {
            acx <= x <= bcx
        } else {
            bcx <= x <= acx
        }) implies #[trigger] cell_open(m, (x, acy)) by {
        if x == acx {
            assert(a.interior_contains(acx, acy));
        } else if acx < bcx && x < bcx {
            assert(h_tunnel_contains(acx, bcx, acy, x, acy));
            assert(link_contains(a, b, x, acy));
        } else if acx < bcx && x == bcx {
            if acy < bcy {
                assert(v_tunnel_contains(acy, bcy, bcx, bcx, acy));
                assert(link_contains(a, b, bcx, acy));
            } else {
                assert(b.interior_contains(bcx, bcy));
            }
        } else {
            assert(h_tunnel_contains(acx, bcx, acy, x, acy));
            assert(link_contains(a, b, x, acy));
        }
    }
    lemma_h_run_connected(m, acx, bcx, acy);
    // then along the second center's column to the second center
    assert forall|y: int|
        (if acy <= bcy {
            acy <= y <= bcy
        } else {
            bcy <= y <= acy
        }) implies #[trigger] cell_open(m, (bcx, y)) by {
        if y == bcy {
            assert(b.interior_contains(bcx, bcy));
        } else if acy <= bcy {
            assert(v_tunnel_contains(acy, bcy, bcx, bcx, y));
            assert(link_contains(a, b, bcx, y));
        } else if y > bcy && y < acy {
            assert(v_tunnel_contains(acy, bcy, bcx, bcx, y));
            assert(link_contains(a, b, bcx, y));
        } else {
            // y == acy > bcy, so the corridor's rows exclude it; the
            // orientation bound then puts the column on the horizontal leg
            assert(bcx <= acx);
            if bcx == acx {
                assert(a.interior_contains(bcx, y));
            } else {
                assert(h_tunnel_contains(acx, bcx, acy, bcx, acy));
                assert(link_contains(a, b, bcx, acy));
            }
        }
    }
    lemma_v_run_connected(m, acy, bcy, bcx);
    lemma_room_interior_connected(m, a, p, (acx, acy));
    lemma_room_interior_connected(m, b, (bcx, bcy), q);
    lemma_connected_trans(m, p, (acx, acy), (bcx, acy));
    lemma_connected_trans(m, p, (bcx, acy), (bcx, bcy));
    lemma_connected_trans(m, p, (bcx, bcy), q);
}

/// Consecutive rooms placed by the room-list recipe are connected, from any
/// interior cell of the one placed earlier to any of the next — for rooms
/// wide and tall enough that their centers are interior, and under the
/// corridor's orientation bound described at `lemma_linked_rooms_connected`.
/// The first hypothesis is exactly what the room-list builder ensures of
/// the map it returns.
pub proof fn lemma_consecutive_built_rooms_connected(
    m: GameMap,
    rooms: Seq<Rect>,
    i: int,
    p: (int, int),
    q: (int, int),
)
    requires
        m.wf(),
        forall|x: int, y: int|
            m.in_bounds(x, y) ==> #[trigger] m.tile_at(x, y) == (if recipe_open_at(rooms, x, y) {
                floor_tile()
            } else {
                wall_tile()
            }),
        forall|k: int|
            0 <= k < rooms.len() ==> (#[trigger] rooms[k]).x2 <= m.spec_width() && rooms[k].y2
                <= m.spec_height(),
        1 <= i < rooms.len(),
        rooms[i - 1].x1 + 2 <= rooms[i - 1].x2,
        rooms[i - 1].y1 + 2 <= rooms[i - 1].y2,
        rooms[i].x1 + 2 <= rooms[i].x2,
        rooms[i].y1 + 2 <= rooms[i].y2,
        rooms[i].spec_center().0 <= rooms[i - 1].spec_center().0 || rooms[i - 1].spec_center().1
            <= rooms[i].spec_center().1,
        rooms[i - 1].interior_contains(p.0, p.1),
        rooms[i].interior_contains(q.0, q.1),
    ensures
        connected(m, p, q),
{
    let a = rooms[i - 1];
    let b = rooms[i];
    assert forall|x: int, y: int| a.interior_contains(x, y) implies #[trigger] cell_open(
        m,
        (x, y),
    ) by {
        assert((rooms[i - 1]).interior_contains(x, y));
        assert(rooms_open_at(rooms, x, y));
        assert(m.in_bounds(x, y));
    }
    assert forall|x: int, y: int| b.interior_contains(x, y) implies #[trigger] cell_open(
        m,
        (x, y),
    ) by {
        assert((rooms[i]).interior_contains(x, y));
        assert(rooms_open_at(rooms, x, y));
        assert(m.in_bounds(x, y));
    }
    assert forall|x: int, y: int| link_contains(a, b, x, y) implies #[trigger] cell_open(
        m,
        (x, y),
    ) by {
        assert(link_contains(rooms[i - 1], rooms[i], x, y));
        assert(links_open_at(rooms, x, y));
        assert(m.in_bounds(x, y));
    }
    lemma_linked_rooms_connected(m, a, b, p, q);
}

/// The rooms the builder generates are connected: from any interior cell of
/// the first room, an open path of the map reaches any interior cell of the
/// second. The path runs within the first room to the tunnel row, along
/// that row — covered end to end by the first room, the tunnel, and the
/// second room — and within the second room to the target.
pub proof fn lemma_two_rooms_connected(m: GameMap, a: (int, int), b: (int, int))
    requires
        two_room_map(m),
        21 <= a.0 < 30,
        16 <= a.1 < 30,
        51 <= b.0 < 60,
        16 <= b.1 < 30,
    ensures
        connected(m, a, b),
{
    assert forall|y: int|
        (if a.1 <= 23 {
            a.1 <= y <= 23
        } else {
            23 <= y <= a.1
        }) implies #[trigger] cell_open(m, (a.0, y)) by {
        assert(two_rooms_open(a.0, y));
        assert(m.tile_at(a.0, y) == floor_tile());
    }
    lemma_v_run_connected(m, a.1, 23, a.0);
    assert forall|x: int| a.0 <= x <= b.0 implies #[trigger] cell_open(m, (x, 23)) by {
        assert(two_rooms_open(x, 23));
        assert(m.tile_at(x, 23) == floor_tile());
    }
    lemma_h_run_connected(m, a.0, b.0, 23);
    assert forall|y: int|
        (if 23 <= b.1 {
            23 <= y <= b.1
        } else {
            b.1 <= y <= 23
        }) implies #[trigger] cell_open(m, (b.0, y)) by {
        assert(two_rooms_open(b.0, y));
        assert(m.tile_at(b.0, y) == floor_tile());
    }
    lemma_v_run_connected(m, 23, b.1, b.0);
    lemma_connected_trans(m, a, (a.0, 23), (b.0, 23));
    lemma_connected_trans(m, a, (b.0, 23), b);
}

} // verus!
