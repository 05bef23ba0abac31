use vstd::prelude::*;
use crate::rect::Rect;
use crate::tile::{floor_tile, wall_tile, Tile};

verus! {

/// A rejected grid operation.
#[derive(Clone, Copy, PartialEq, Eq, Structural, Debug)]
pub enum MapError {
    /// A coordinate outside `[0, width) x [0, height)`, or a carving request
    /// that would touch such a cell. Accesses are rejected here, never
    /// silently clamped or wrapped.
    OutOfBounds,
    /// A room candidate the builder cannot place because it overlaps a room
    /// already placed. The builder recovers from this locally; it never
    /// surfaces from map generation.
    InvalidRoomPlacement,
}

/// A fixed-size two-dimensional grid of tiles, indexed by `(x, y)` with
/// `0 <= x < width` and `0 <= y < height`. It is created all-blocked and
/// changed only by the carving and sealing operations below; it is never
/// resized.
pub struct GameMap {
    width: usize,
    height: usize,
    /// Column-major storage: `tiles[x][y]`.
    tiles: Vec<Vec<Tile>>,
}

/// The cell-for-cell effect of carving the interior of `room`: interior
/// cells become floor, every other cell keeps its old tile, and the grid
/// keeps its size.
pub open spec fn carved_room(before: GameMap, after: GameMap, room: Rect) -> bool {
    &&& after.wf()
    &&& after.spec_width() == before.spec_width()
    &&& after.spec_height() == before.spec_height()
    &&& forall|x: int, y: int|
        before.in_bounds(x, y) ==> #[trigger] after.tile_at(x, y) == (if room.interior_contains(
            x,
            y,
        ) {
            floor_tile()
        } else {
            before.tile_at(x, y)
        })
}

/// The cells a horizontal tunnel between columns `x1` and `x2` at row `y`
/// runs through: from the smaller column (inclusive) to the larger
/// (exclusive), matching half-open range semantics.
pub open spec fn h_tunnel_contains(x1: int, x2: int, y: int, cx: int, cy: int) -> bool {
    cy == y && (if x1 <= x2 {
        x1 <= cx && cx < x2
    } else {
        x2 <= cx && cx < x1
    })
}

/// The cells a vertical tunnel between rows `y1` and `y2` at column `x`
/// runs through: from the smaller row (inclusive) to the larger (exclusive).
pub open spec fn v_tunnel_contains(y1: int, y2: int, x: int, cx: int, cy: int) -> bool {
    cx == x && (if y1 <= y2 {
        y1 <= cy && cy < y2
    } else {
        y2 <= cy && cy < y1
    })
}

/// The cell-for-cell effect of carving a horizontal tunnel.
pub open spec fn carved_h_tunnel(
    before: GameMap,
    after: GameMap,
    x1: int,
    x2: int,
    y: int,
) -> bool {
    &&& after.wf()
    &&& after.spec_width() == before.spec_width()
    &&& after.spec_height() == before.spec_height()
    &&& forall|cx: int, cy: int|
        before.in_bounds(cx, cy) ==> #[trigger] after.tile_at(cx, cy) == (if h_tunnel_contains(
            x1,
            x2,
            y,
            cx,
            cy,
        ) {
            floor_tile()
        } else {
            before.tile_at(cx, cy)
        })
}

/// The cell-for-cell effect of carving a vertical tunnel.
pub open spec fn carved_v_tunnel(
    before: GameMap,
    after: GameMap,
    y1: int,
    y2: int,
    x: int,
) -> bool {
    &&& after.wf()
    &&& after.spec_width() == before.spec_width()
    &&& after.spec_height() == before.spec_height()
    &&& forall|cx: int, cy: int|
        before.in_bounds(cx, cy) ==> #[trigger] after.tile_at(cx, cy) == (if v_tunnel_contains(
            y1,
            y2,
            x,
            cx,
            cy,
        ) {
            floor_tile()
        } else {
            before.tile_at(cx, cy)
        })
}

impl GameMap {
    /// The grid's width, as a mathematical integer.
    pub closed spec fn spec_width(self) -> int {
        self.width as int
    }

    /// The grid's height, as a mathematical integer.
    pub closed spec fn spec_height(self) -> int {
        self.height as int
    }

    /// The tile stored at `(x, y)`; meaningful when `(x, y)` is in bounds.
    pub closed spec fn tile_at(self, x: int, y: int) -> Tile {
        self.tiles[x][y]
    }

    /// Well-formedness: the storage matches the stated dimensions, and the
    /// dimensions fit in `i32` so every cell coordinate fits an entity
    /// coordinate.
    pub closed spec fn wf(self) -> bool {
        &&& self.width as int <= i32::MAX as int
        &&& self.height as int <= i32::MAX as int
        &&& self.tiles.len() == self.width
        &&& forall|x: int| 0 <= x < self.width ==> (#[trigger] self.tiles[x]).len() == self.height
    }

    /// `(x, y)` is a cell of the grid.
    pub open spec fn in_bounds(self, x: int, y: int) -> bool {
        0 <= x && x < self.spec_width() && 0 <= y && y < self.spec_height()
    }

    /// `(x, y)` is a cell of the grid that does not block movement.
    pub open spec fn open_at(self, x: int, y: int) -> bool {
        self.in_bounds(x, y) && !self.tile_at(x, y).blocked
    }

    pub fn width(&self) -> (w: usize)
        ensures
            w == self.spec_width(),
    {
        self.width
    }

    pub fn height(&self) -> (h: usize)
        ensures
            h == self.spec_height(),
    {
        self.height
    }

    /// Overwrite one cell of the storage, leaving every other cell as it
    /// was. All carving and sealing goes through here.
    fn set_tile(&mut self, x: usize, y: usize, t: Tile)
        requires
            old(self).wf(),
            x < old(self).spec_width(),
            y < old(self).spec_height(),
        ensures
            final(self).wf(),
            final(self).spec_width() == old(self).spec_width(),
            final(self).spec_height() == old(self).spec_height(),
            forall|i: int, j: int|
                old(self).in_bounds(i, j) ==> #[trigger] final(self).tile_at(i, j) == (if i
                    == x as int && j == y as int {
                    t
                } else {
                    old(self).tile_at(i, j)
                }),
    {
        self.tiles[x][y] = t;
        proof {
            assert forall|i: int, j: int| old(self).in_bounds(i, j) implies #[trigger] self.tile_at(
                i,
                j,
            ) == (if i == x as int && j == y as int {
                t
            } else {
                old(self).tile_at(i, j)
            }) by {
                if i == x as int {
                    assert(self.tiles@[i]@ == old(self).tiles@[x as int]@.update(y as int, t));
                } else {
                    assert(self.tiles@[i] == old(self).tiles@[i]);
                }
            }
        }
    }

    /// A grid in which every cell blocks movement and sight.
    pub fn new_blocked(width: usize, height: usize) -> (m: GameMap)
        requires
            width <= i32::MAX as usize,
            height <= i32::MAX as usize,
        ensures
            m.wf(),
            m.spec_width() == width,
            m.spec_height() == height,
            forall|x: int, y: int| m.in_bounds(x, y) ==> m.tile_at(x, y) == wall_tile(),
    {
        let mut tiles: Vec<Vec<Tile>> = Vec::new();
        let mut x: usize = 0;
        while x < width
            invariant
                x <= width,
                tiles.len() == x,
                forall|i: int| 0 <= i < x ==> (#[trigger] tiles[i]).len() == height,
                forall|i: int, j: int|
                    0 <= i < x && 0 <= j < height ==> #[trigger] tiles[i][j] == wall_tile(),
            decreases width - x,
        {
            let mut col: Vec<Tile> = Vec::new();
            let mut y: usize = 0;
            while y < height
                invariant
                    y <= height,
                    col.len() == y,
                    forall|j: int| 0 <= j < y ==> #[trigger] col[j] == wall_tile(),
                decreases height - y,
            {
                col.push(Tile::wall());
                y += 1;
            }
            tiles.push(col);
            x += 1;
        }
        GameMap { width, height, tiles }
    }

    /// Open the interior of `room`. A rectangle whose far edge lies past the
    /// grid is rejected whole with `OutOfBounds`, leaving the grid unchanged.
    pub fn carve_room(&mut self, room: Rect) -> (r: Result<(), MapError>)
        requires
            old(self).wf(),
        ensures
            r is Ok <==> (room.x2 <= old(self).spec_width() && room.y2 <= old(
                self,
            ).spec_height()),
            r is Ok ==> carved_room(*old(self), *final(self), room),
            r is Err ==> *final(self) == *old(self) && r == Err::<(), MapError>(
                MapError::OutOfBounds,
            ),
    {
        if !(room.x2 <= self.width && room.y2 <= self.height) {
            return Err(MapError::OutOfBounds);
        }
        if room.x1 < room.x2 && room.y1 < room.y2 {
            let mut x: usize = room.x1 + 1;
            while x < room.x2
                invariant
                    old(self).wf(),
                    self.wf(),
                    self.spec_width() == old(self).spec_width(),
                    self.spec_height() == old(self).spec_height(),
                    room.x2 <= self.width,
                    room.y2 <= self.height,
                    room.x1 < room.x2,
                    room.y1 < room.y2,
                    room.x1 + 1 <= x <= room.x2,
                    forall|i: int, j: int|
                        old(self).in_bounds(i, j) ==> #[trigger] self.tile_at(i, j) == (
                        if room.interior_contains(i, j) && i < x {
                            floor_tile()
                        } else {
                            old(self).tile_at(i, j)
                        }),
                decreases room.x2 - x,
            {
                let mut y: usize = room.y1 + 1;
                while y < room.y2
                    invariant
                        old(self).wf(),
                        self.wf(),
                        self.spec_width() == old(self).spec_width(),
                        self.spec_height() == old(self).spec_height(),
                        room.x2 <= self.width,
                        room.y2 <= self.height,
                        room.x1 < room.x2,
                        room.y1 < room.y2,
                        room.x1 + 1 <= x < room.x2,
                        room.y1 + 1 <= y <= room.y2,
                        forall|i: int, j: int|
                            old(self).in_bounds(i, j) ==> #[trigger] self.tile_at(i, j) == (
                            if room.interior_contains(i, j) && (i < x || (i == x && j < y)) {
                                floor_tile()
                            } else {
                                old(self).tile_at(i, j)
                            }),
                    decreases room.y2 - y,
                {
                    self.set_tile(x, y, Tile::floor());
                    y += 1;
                }
                x += 1;
            }
        }
        Ok(())
    }

    /// Open every cell between columns `x1` and `x2` (half-open, from the
    /// smaller toward the larger) at row `y`. The whole request is rejected
    /// with `OutOfBounds` when either column bound lies past the grid or the
    /// row does.
    pub fn carve_h_tunnel(&mut self, x1: usize, x2: usize, y: usize) -> (r: Result<(), MapError>)
        requires
            old(self).wf(),
        ensures
            r is Ok <==> (x1 <= old(self).spec_width() && x2 <= old(self).spec_width() && y < old(
                self,
            ).spec_height()),
            r is Ok ==> carved_h_tunnel(*old(self), *final(self), x1 as int, x2 as int, y as int),
            r is Err ==> *final(self) == *old(self) && r == Err::<(), MapError>(
                MapError::OutOfBounds,
            ),
    {
        if !(x1 <= self.width && x2 <= self.width && y < self.height) {
            return Err(MapError::OutOfBounds);
        }
        let lo: usize = if x1 <= x2 { x1 } else { x2 };
        let hi: usize = if x1 <= x2 { x2 } else { x1 };
        let mut x: usize = lo;
        while x < hi
            invariant
                old(self).wf(),
                self.wf(),
                self.spec_width() == old(self).spec_width(),
                self.spec_height() == old(self).spec_height(),
                hi <= self.width,
                y < self.height,
                lo <= x <= hi,
                forall|i: int, j: int|
                    old(self).in_bounds(i, j) ==> #[trigger] self.tile_at(i, j) == (
                    if j == y && lo <= i < x {
                        floor_tile()
                    } else {
                        old(self).tile_at(i, j)
                    }),
            decreases hi - x,
        {
            self.set_tile(x, y, Tile::floor());
            x += 1;
        }
        Ok(())
    }

    /// Open every cell between rows `y1` and `y2` (half-open, from the
    /// smaller toward the larger) at column `x`; the vertical counterpart of
    /// `carve_h_tunnel`.
    pub fn carve_v_tunnel(&mut self, y1: usize, y2: usize, x: usize) -> (r: Result<(), MapError>)
        requires
            old(self).wf(),
        ensures
            r is Ok <==> (y1 <= old(self).spec_height() && y2 <= old(self).spec_height() && x
                < old(self).spec_width()),
            r is Ok ==> carved_v_tunnel(*old(self), *final(self), y1 as int, y2 as int, x as int),
            r is Err ==> *final(self) == *old(self) && r == Err::<(), MapError>(
                MapError::OutOfBounds,
            ),
    {
        if !(y1 <= self.height && y2 <= self.height && x < self.width) {
            return Err(MapError::OutOfBounds);
        }
        let lo: usize = if y1 <= y2 { y1 } else { y2 };
        let hi: usize = if y1 <= y2 { y2 } else { y1 };
        let mut y: usize = lo;
        while y < hi
            invariant
                old(self).wf(),
                self.wf(),
                self.spec_width() == old(self).spec_width(),
                self.spec_height() == old(self).spec_height(),
                hi <= self.height,
                x < self.width,
                lo <= y <= hi,
                forall|i: int, j: int|
                    old(self).in_bounds(i, j) ==> #[trigger] self.tile_at(i, j) == (
                    if i == x && lo <= j < y {
                        floor_tile()
                    } else {
                        old(self).tile_at(i, j)
                    }),
            decreases hi - y,
        {
            self.set_tile(x, y, Tile::floor());
            y += 1;
        }
        Ok(())
    }

    /// Whether the cell at `(x, y)` blocks movement; `OutOfBounds` when the
    /// coordinates name no cell.
    pub fn is_blocked(&self, x: i32, y: i32) -> (r: Result<bool, MapError>)
        requires
            self.wf(),
        ensures
            r is Ok <==> self.in_bounds(x as int, y as int),
            r is Ok ==> r == Ok::<bool, MapError>(self.tile_at(x as int, y as int).blocked),
            r is Err ==> r == Err::<bool, MapError>(MapError::OutOfBounds),
    {
        if x >= 0 && y >= 0 && (x as usize) < self.width && (y as usize) < self.height {
            Ok(self.tiles[x as usize][y as usize].blocked)
        } else {
            Err(MapError::OutOfBounds)
        }
    }

    /// Whether the cell at `(x, y)` blocks sight; `OutOfBounds` when the
    /// coordinates name no cell.
    pub fn blocks_sight(&self, x: i32, y: i32) -> (r: Result<bool, MapError>)
        requires
            self.wf(),
        ensures
            r is Ok <==> self.in_bounds(x as int, y as int),
            r is Ok ==> r == Ok::<bool, MapError>(self.tile_at(x as int, y as int).block_sight),
            r is Err ==> r == Err::<bool, MapError>(MapError::OutOfBounds),
    {
        if x >= 0 && y >= 0 && (x as usize) < self.width && (y as usize) < self.height {
            Ok(self.tiles[x as usize][y as usize].block_sight)
        } else {
            Err(MapError::OutOfBounds)
        }
    }

    /// Overwrite one cell, used to hardcode extra obstacles after
    /// generation; `OutOfBounds` when the coordinates name no cell.
    pub fn set_blocked(&mut self, x: i32, y: i32, blocked: bool, block_sight: bool) -> (r: Result<
        (),
        MapError,
    >)
        requires
            old(self).wf(),
        ensures
            final(self).wf(),
            final(self).spec_width() == old(self).spec_width(),
            final(self).spec_height() == old(self).spec_height(),
            r is Ok <==> old(self).in_bounds(x as int, y as int),
            r is Ok ==> forall|i: int, j: int|
                old(self).in_bounds(i, j) ==> #[trigger] final(self).tile_at(i, j) == (if i
                    == x as int && j == y as int {
                    (Tile { blocked, block_sight })
                } else {
                    old(self).tile_at(i, j)
                }),
            r is Err ==> *final(self) == *old(self) && r == Err::<(), MapError>(
                MapError::OutOfBounds,
            ),
    {
        if x >= 0 && y >= 0 && (x as usize) < self.width && (y as usize) < self.height {
            self.set_tile(x as usize, y as usize, Tile { blocked, block_sight });
            Ok(())
        } else {
            Err(MapError::OutOfBounds)
        }
    }
}

/// A well-formed grid's dimensions fit in `i32`, so any open cell's
/// coordinates can be stored in entity coordinates.
pub proof fn lemma_wf_bounds(m: GameMap)
    requires
        m.wf(),
    ensures
        m.spec_width() <= i32::MAX as int,
        m.spec_height() <= i32::MAX as int,
{
}

/// Carving a room is idempotent: carving the same rectangle a second time
/// leaves every cell exactly as the first carving left it.
pub proof fn lemma_carve_room_idempotent(m0: GameMap, m1: GameMap, m2: GameMap, room: Rect)
    requires
        carved_room(m0, m1, room),
        carved_room(m1, m2, room),
    ensures
        m2.spec_width() == m1.spec_width(),
        m2.spec_height() == m1.spec_height(),
        forall|x: int, y: int| m1.in_bounds(x, y) ==> m2.tile_at(x, y) == m1.tile_at(x, y),
{
    assert forall|x: int, y: int| m1.in_bounds(x, y) implies m2.tile_at(x, y) == m1.tile_at(
        x,
        y,
    ) by {
        assert(m0.in_bounds(x, y));
    }
}

/// Carving a horizontal tunnel is idempotent.
pub proof fn lemma_carve_h_tunnel_idempotent(
    m0: GameMap,
    m1: GameMap,
    m2: GameMap,
    x1: int,
    x2: int,
    y: int,
)
    requires
        carved_h_tunnel(m0, m1, x1, x2, y),
        carved_h_tunnel(m1, m2, x1, x2, y),
    ensures
        m2.spec_width() == m1.spec_width(),
        m2.spec_height() == m1.spec_height(),
        forall|cx: int, cy: int| m1.in_bounds(cx, cy) ==> m2.tile_at(cx, cy) == m1.tile_at(cx, cy),
{
    assert forall|cx: int, cy: int| m1.in_bounds(cx, cy) implies m2.tile_at(cx, cy) == m1.tile_at(
        cx,
        cy,
    ) by {
        assert(m0.in_bounds(cx, cy));
    }
}

/// Carving a vertical tunnel is idempotent.
pub proof fn lemma_carve_v_tunnel_idempotent(
    m0: GameMap,
    m1: GameMap,
    m2: GameMap,
    y1: int,
    y2: int,
    x: int,
)
    requires
        carved_v_tunnel(m0, m1, y1, y2, x),
        carved_v_tunnel(m1, m2, y1, y2, x),
    ensures
        m2.spec_width() == m1.spec_width(),
        m2.spec_height() == m1.spec_height(),
        forall|cx: int, cy: int| m1.in_bounds(cx, cy) ==> m2.tile_at(cx, cy) == m1.tile_at(cx, cy),
{
    assert forall|cx: int, cy: int| m1.in_bounds(cx, cy) implies m2.tile_at(cx, cy) == m1.tile_at(
        cx,
        cy,
    ) by {
        assert(m0.in_bounds(cx, cy));
    }
}

} // verus!
