use vstd::prelude::*;
use crate::grid::lemma_wf_bounds;
use crate::grid::GameMap;

verus! {

/// An RGB display color.
#[derive(Clone, Copy, PartialEq, Eq, Structural, Debug)]
pub struct ColorRgb {
    pub r: u8,
    pub g: u8,
    pub b: u8,
}

/// A thing on the map — the player, a monster, an item — always drawn as a
/// single glyph at its position.
#[derive(Clone, Copy, PartialEq, Eq, Structural, Debug)]
pub struct Entity {
    pub x: i32,
    pub y: i32,
    pub glyph: char,
    pub color: ColorRgb,
}

/// How one attempted move relates the entity before it to the entity after
/// it: when the target cell is open, the position becomes exactly the
/// target; when the target is blocked or off the grid, the move is absorbed
/// as a no-op; display attributes never change.
pub open spec fn move_rel(before: Entity, after: Entity, dx: int, dy: int, m: GameMap) -> bool {
    &&& m.open_at(before.x + dx, before.y + dy) ==> after.x == before.x + dx && after.y
        == before.y + dy
    &&& !m.open_at(before.x + dx, before.y + dy) ==> after == before
    &&& after.glyph == before.glyph
    &&& after.color == before.color
}

impl Entity {
    pub fn new(x: i32, y: i32, glyph: char, color: ColorRgb) -> (e: Entity)
        ensures
            e == (Entity { x, y, glyph, color }),
    {
        Entity { x, y, glyph, color }
    }

    /// Move by the given amount when the target cell is open. Bumping into
    /// a blocked cell is a normal game outcome, silently absorbed as a
    /// no-op, never an error; a target off the grid is deflected the same
    /// way, so movement never leaves the map even when no wall encloses it.
    pub fn move_by(&mut self, dx: i32, dy: i32, map: &GameMap)
        requires
            map.wf(),
        ensures
            move_rel(*old(self), *final(self), dx as int, dy as int, *map),
    {
        proof {
            lemma_wf_bounds(*map);
        }
        let tx: i64 = self.x as i64 + dx as i64;
        let ty: i64 = self.y as i64 + dy as i64;
        if 0 <= tx && tx <= i32::MAX as i64 && 0 <= ty && ty <= i32::MAX as i64 {
            match map.is_blocked(tx as i32, ty as i32) {
                Ok(false) => {
                    self.x = tx as i32;
                    self.y = ty as i32;
                },
                _ => {},
            }
        }
    }
}

} // verus!
