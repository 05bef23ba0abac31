use vstd::prelude::*;
use crate::grid::{carved_room, h_tunnel_contains, v_tunnel_contains, GameMap, MapError};
use crate::rect::Rect;
use crate::tile::{floor_tile, wall_tile};

verus! {

/// The cells of the corridor that joins the centers of two rooms: a
/// horizontal tunnel at the first center's row, then a vertical one at the
/// second center's column.
pub open spec fn link_contains(a: Rect, b: Rect, x: int, y: int) -> bool {
    ||| h_tunnel_contains(a.spec_center().0, b.spec_center().0, a.spec_center().1, x, y)
    ||| v_tunnel_contains(a.spec_center().1, b.spec_center().1, b.spec_center().0, x, y)
}

/// The connection step of a room-list-driven recipe: carve one horizontal
/// tunnel from the center of `a` toward the center of `b`, then one
/// vertical tunnel up or down to it. The tie between the two orders is
/// broken the same way every time: horizontal first.
pub fn connect_rooms(m: &mut GameMap, a: Rect, b: Rect)
    requires
        old(m).wf(),
        a.x1 < a.x2 && a.x2 <= old(m).spec_width(),
        a.y1 < a.y2 && a.y2 <= old(m).spec_height(),
        b.x1 < b.x2 && b.x2 <= old(m).spec_width(),
        b.y1 < b.y2 && b.y2 <= old(m).spec_height(),
    ensures
        final(m).wf(),
        final(m).spec_width() == old(m).spec_width(),
        final(m).spec_height() == old(m).spec_height(),
        forall|x: int, y: int|
            old(m).in_bounds(x, y) ==> #[trigger] final(m).tile_at(x, y) == (if link_contains(
                a,
                b,
                x,
                y,
            ) {
                floor_tile()
            } else {
                old(m).tile_at(x, y)
            }),
{
    proof {
        crate::grid::lemma_wf_bounds(*m);
    }
    let (ax, ay) = a.center();
    let (bx, by) = b.center();
    let rh = m.carve_h_tunnel(ax, bx, ay);
    let ghost m1 = *m;
    let rv = m.carve_v_tunnel(ay, by, bx);
    proof {
        assert(rh is Ok);
        assert(rv is Ok);
        assert forall|x: int, y: int| old(m).in_bounds(x, y) implies #[trigger] m.tile_at(x, y)
            == (if link_contains(a, b, x, y) {
            floor_tile()
        } else {
            old(m).tile_at(x, y)
        }) by {
            assert(m1.tile_at(x, y) == (if h_tunnel_contains(
                ax as int,
                bx as int,
                ay as int,
                x,
                y,
            ) {
                floor_tile()
            } else {
                old(m).tile_at(x, y)
            }));
        }
    }
}

/// A candidate room fits a `width` x `height` grid and overlaps none of the
/// rooms already placed.
pub open spec fn can_place(width: int, height: int, placed: Seq<Rect>, candidate: Rect) -> bool {
    &&& candidate.x2 <= width
    &&& candidate.y2 <= height
    &&& forall|k: int| 0 <= k < placed.len() ==> !candidate.spec_intersects(#[trigger] placed[k])
}

/// A candidate room may be placed on the given grid: its bounding box lies
/// on the grid and it overlaps none of the rooms already placed.
pub open spec fn placement_ok(m: GameMap, placed: Seq<Rect>, candidate: Rect) -> bool {
    can_place(m.spec_width(), m.spec_height(), placed, candidate)
}

/// The rectangle spans at least one interior cell in each direction.
pub open spec fn non_degenerate(r: Rect) -> bool {
    r.x1 < r.x2 && r.y1 < r.y2
}

/// The rooms that survive walking `cands` in order against a
/// `width` x `height` grid: each candidate is kept exactly when it fits the
/// grid and overlaps none kept before it.
pub open spec fn placed_after(width: int, height: int, cands: Seq<Rect>) -> Seq<Rect>
    decreases cands.len(),
{
    if cands.len() == 0 {
        Seq::empty()
    } else {
        let prev = placed_after(width, height, cands.drop_last());
        if can_place(width, height, prev, cands.last()) {
            prev.push(cands.last())
        } else {
            prev
        }
    }
}

/// `(x, y)` lies inside some placed room.
pub open spec fn rooms_open_at(placed: Seq<Rect>, x: int, y: int) -> bool {
    exists|k: int| 0 <= k < placed.len() && (#[trigger] placed[k]).interior_contains(x, y)
}

/// `(x, y)` lies on some corridor between consecutively placed rooms.
pub open spec fn links_open_at(placed: Seq<Rect>, x: int, y: int) -> bool {
    exists|k: int| 1 <= k < placed.len() && link_contains(placed[k - 1], #[trigger] placed[k], x, y)
}

/// `(x, y)` is a cell the room-list recipe leaves open.
pub open spec fn recipe_open_at(placed: Seq<Rect>, x: int, y: int) -> bool {
    rooms_open_at(placed, x, y) || links_open_at(placed, x, y)
}

/// Appending one room to the placed list opens exactly its interior and its
/// corridor to the room placed last, beyond what was open before.
proof fn lemma_recipe_open_push(placed: Seq<Rect>, c: Rect, x: int, y: int)
    ensures
        recipe_open_at(placed.push(c), x, y) <==> {
            ||| recipe_open_at(placed, x, y)
            ||| c.interior_contains(x, y)
            ||| (placed.len() > 0 && link_contains(placed.last(), c, x, y))
        },
{
    let p2 = placed.push(c);
    let ln = placed.len() as int;
    assert(forall|k: int| 0 <= k < ln ==> p2[k] == placed[k]);
    assert(p2[ln] == c);
    if rooms_open_at(p2, x, y) {
        let k = choose|k: int| 0 <= k < p2.len() && (#[trigger] p2[k]).interior_contains(x, y);
        if k < ln {
            assert((placed[k]).interior_contains(x, y));
        }
    }
    if links_open_at(p2, x, y) {
        let k = choose|k: int|
            1 <= k < p2.len() && link_contains(p2[k - 1], #[trigger] p2[k], x, y);
        if k < ln {
            assert(link_contains(placed[k - 1], placed[k], x, y));
        } else {
            assert(link_contains(placed.last(), c, x, y));
        }
    }
    if rooms_open_at(placed, x, y) {
        let k = choose|k: int|
            0 <= k < placed.len() && (#[trigger] placed[k]).interior_contains(x, y);
        assert((p2[k]).interior_contains(x, y));
    }
    if links_open_at(placed, x, y) {
        let k = choose|k: int|
            1 <= k < placed.len() && link_contains(placed[k - 1], #[trigger] placed[k], x, y);
        assert(link_contains(p2[k - 1], p2[k], x, y));
    }
    if c.interior_contains(x, y) {
        assert((p2[ln]).interior_contains(x, y));
    }
    if placed.len() > 0 && link_contains(placed.last(), c, x, y) {
        assert(link_contains(p2[ln - 1], p2[ln], x, y));
    }
}

/// One placement attempt of an extended, room-list-driven recipe: carve
/// `candidate` when it fits the grid and overlaps no room in `placed`,
/// otherwise reject it with `InvalidRoomPlacement` and leave the grid
/// untouched, so a builder can recover locally by skipping the candidate.
pub fn try_place_room(m: &mut GameMap, placed: &Vec<Rect>, candidate: Rect) -> (r: Result<
    (),
    MapError,
>)
    requires
        old(m).wf(),
    ensures
        r is Ok <==> placement_ok(*old(m), placed@, candidate),
        r is Ok ==> carved_room(*old(m), *final(m), candidate),
        r is Err ==> *final(m) == *old(m) && r == Err::<(), MapError>(
            MapError::InvalidRoomPlacement,
        ),
{
    if !(candidate.x2 <= m.width() && candidate.y2 <= m.height()) {
        return Err(MapError::InvalidRoomPlacement);
    }
    let mut k: usize = 0;
    while k < placed.len()
        invariant
            k <= placed.len(),
            forall|i: int| 0 <= i < k ==> !candidate.spec_intersects(#[trigger] placed@[i]),
        decreases placed.len() - k,
    {
        if candidate.intersects_with(&placed[k]) {
            return Err(MapError::InvalidRoomPlacement);
        }
        k += 1;
    }
    let r = m.carve_room(candidate);
    proof {
        assert(r is Ok);
    }
    Ok(())
}

/// A cell the fixed two-room recipe leaves open: the interior of a room at
/// `(20, 15)` with a 10 x 15 footprint, the interior of one at `(50, 15)`
/// with the same footprint, or the horizontal tunnel at row 23 that joins
/// them.
pub open spec fn two_rooms_open(x: int, y: int) -> bool {
    ||| (21 <= x && x < 30 && 16 <= y && y < 30)
    ||| (51 <= x && x < 60 && 16 <= y && y < 30)
    ||| (y == 23 && 25 <= x && x < 55)
}

/// The grid the fixed recipe produces: 80 x 45, every cell a wall except
/// the two room interiors and their tunnel, which are floor. Generation
/// never carves more than requested: everything outside those regions stays
/// blocked.
pub open spec fn two_room_map(m: GameMap) -> bool {
    &&& m.wf()
    &&& m.spec_width() == 80
    &&& m.spec_height() == 45
    &&& forall|x: int, y: int|
        m.in_bounds(x, y) ==> #[trigger] m.tile_at(x, y) == (if two_rooms_open(x, y) {
            floor_tile()
        } else {
            wall_tile()
        })
}

/// The room-list-driven recipe: fill a grid with walls, walk the candidate
/// rectangles in order, place each one that fits the grid and overlaps no
/// room placed before it — skipping the others, so the retry budget is the
/// list itself and generation always terminates with some map — and connect
/// each newly placed room to the one placed just before it. Returns the map
/// and the rooms that were placed.
pub fn build_map(width: usize, height: usize, candidates: &Vec<Rect>) -> (out: (GameMap, Vec<
    Rect,
>))
    requires
        width <= i32::MAX as usize,
        height <= i32::MAX as usize,
        forall|k: int| 0 <= k < candidates@.len() ==> non_degenerate(#[trigger] candidates@[k]),
    ensures
        out.0.wf(),
        out.0.spec_width() == width,
        out.0.spec_height() == height,
        out.1@ == placed_after(width as int, height as int, candidates@),
        forall|x: int, y: int|
            out.0.in_bounds(x, y) ==> #[trigger] out.0.tile_at(x, y) == (if recipe_open_at(
                out.1@,
                x,
                y,
            ) {
                floor_tile()
            } else {
                wall_tile()
            }),
{
    let mut m = GameMap::new_blocked(width, height);
    let mut placed: Vec<Rect> = Vec::new();
    let mut n: usize = 0;
    while n < candidates.len()
        invariant
            m.wf(),
            m.spec_width() == width,
            m.spec_height() == height,
            width <= i32::MAX as usize,
            height <= i32::MAX as usize,
            n <= candidates@.len(),
            forall|k: int| 0 <= k < candidates@.len() ==> non_degenerate(#[trigger] candidates@[k]),
            placed@ == placed_after(width as int, height as int, candidates@.take(n as int)),
            forall|k: int|
                0 <= k < placed@.len() ==> non_degenerate(#[trigger] placed@[k]) && placed@[k].x2
                    <= width && placed@[k].y2 <= height,
            forall|x: int, y: int|
                m.in_bounds(x, y) ==> #[trigger] m.tile_at(x, y) == (if recipe_open_at(
                    placed@,
                    x,
                    y,
                ) {
                    floor_tile()
                } else {
                    wall_tile()
                }),
        decreases candidates@.len() - n,
    {
        let c = candidates[n];
        let ghost placed_pre = placed@;
        let ghost m_pre = m;
        let r = try_place_room(&mut m, &placed, c);
        proof {
            assert(candidates@.take(n as int + 1).drop_last() =~= candidates@.take(n as int));
            assert(candidates@.take(n as int + 1).last() == candidates@[n as int]);
        }
        if r.is_ok() {
            let ghost m_room = m;
            if placed.len() > 0 {
                let prev = placed[placed.len() - 1];
                connect_rooms(&mut m, prev, c);
                proof {
                    assert(placed_pre.last() == prev);
                }
            }
            placed.push(c);
            proof {
                assert(placed@ == placed_pre.push(c));
                assert forall|x: int, y: int| m.in_bounds(x, y) implies #[trigger] m.tile_at(x, y)
                    == (if recipe_open_at(placed@, x, y) {
                    floor_tile()
                } else {
                    wall_tile()
                }) by {
                    lemma_recipe_open_push(placed_pre, c, x, y);
                    assert(m_pre.tile_at(x, y) == (if recipe_open_at(placed_pre, x, y) {
                        floor_tile()
                    } else {
                        wall_tile()
                    }));
                    assert(m_room.tile_at(x, y) == (if c.interior_contains(x, y) {
                        floor_tile()
                    } else {
                        m_pre.tile_at(x, y)
                    }));
                }
            }
        }
        n += 1;
    }
    proof {
        assert(candidates@.take(candidates@.len() as int) =~= candidates@);
    }
    (m, placed)
}

/// Produce a playable map from the fixed generation recipe: fill an
/// 80 x 45 grid with walls, carve two rooms at fixed coordinates, and carve
/// one horizontal tunnel whose row lies within the vertical span of both
/// rooms, so they connect without a vertical segment.
pub fn make_map() -> (m: GameMap)
    ensures
        two_room_map(m),
{
    let mut m = GameMap::new_blocked(80, 45);
    let ghost m0 = m;
    let room_a = Rect::new(20, 15, 10, 15);
    let room_b = Rect::new(50, 15, 10, 15);
    let ra = m.carve_room(room_a);
    let ghost m1 = m;
    let rb = m.carve_room(room_b);
    let ghost m2 = m;
    let rt = m.carve_h_tunnel(25, 55, 23);
    proof {
        assert(ra is Ok);
        assert(rb is Ok);
        assert(rt is Ok);
        assert forall|x: int, y: int| m.in_bounds(x, y) implies #[trigger] m.tile_at(x, y) == (
        if two_rooms_open(x, y) {
            floor_tile()
        } else {
            wall_tile()
        }) by {
            assert(m0.in_bounds(x, y));
            assert(m0.tile_at(x, y) == wall_tile());
            assert(m1.tile_at(x, y) == (if room_a.interior_contains(x, y) {
                floor_tile()
            } else {
                m0.tile_at(x, y)
            }));
            assert(m2.tile_at(x, y) == (if room_b.interior_contains(x, y) {
                floor_tile()
            } else {
                m1.tile_at(x, y)
            }));
        }
    }
    m
}

} // verus!
