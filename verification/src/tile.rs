use vstd::prelude::*;

verus! {

/// One grid cell's movement / sight-blocking state.
#[derive(Clone, Copy, PartialEq, Eq, Structural, Debug)]
pub struct Tile {
    /// The cell rejects entity movement into it.
    pub blocked: bool,
    /// The cell would obstruct a line-of-sight computation.
    pub block_sight: bool,
}

/// The tile every grid cell starts as: blocks both movement and sight.
pub open spec fn wall_tile() -> Tile {
    Tile { blocked: true, block_sight: true }
}

/// A carved-open tile: blocks neither movement nor sight.
pub open spec fn floor_tile() -> Tile {
    Tile { blocked: false, block_sight: false }
}

impl Tile {
    /// What `block_sight` is when not independently specified: it falls back
    /// to `blocked`, so a tile that blocks movement also blocks sight unless
    /// stated otherwise.
    pub open spec fn sight_default(blocked: bool, block_sight: Option<bool>) -> bool {
        match block_sight {
            Some(s) => s,
            None => blocked,
        }
    }

    /// Construct a tile; a `block_sight` of `None` defaults to `blocked`.
    pub fn new(blocked: bool, block_sight: Option<bool>) -> (t: Tile)
        ensures
            t.blocked == blocked,
            t.block_sight == Tile::sight_default(blocked, block_sight),
    {
        let sight = match block_sight {
            Some(s) => s,
            None => blocked,
        };
        Tile { blocked, block_sight: sight }
    }

    /// A fully blocking tile.
    pub fn wall() -> (t: Tile)
        ensures
            t == wall_tile(),
    {
        Tile { blocked: true, block_sight: true }
    }

    /// A fully open tile.
    pub fn floor() -> (t: Tile)
        ensures
            t == floor_tile(),
    {
        Tile { blocked: false, block_sight: false }
    }
}

} // verus!
