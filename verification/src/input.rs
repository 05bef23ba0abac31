use vstd::prelude::*;
use crate::entity::{move_rel, Entity};
use crate::grid::GameMap;

verus! {

/// One classified input event per turn. Raw key codes never cross into the
/// core: the surrounding program reduces each keypress to one of these.
#[derive(Clone, Copy, PartialEq, Eq, Structural, Debug)]
pub enum InputAction {
    MoveUp,
    MoveDown,
    MoveLeft,
    MoveRight,
    /// The player asked to leave the game.
    Exit,
    /// Any other key, ignored.
    Other,
}

/// Apply one turn's input: a movement action attempts the one-cell move in
/// its direction against the map, `Exit` asks the caller to stop, and any
/// other key leaves the player untouched. Returns whether the game should
/// exit.
pub fn handle_keys(player: &mut Entity, map: &GameMap, action: InputAction) -> (exit: bool)
    requires
        map.wf(),
    ensures
        exit == (action == InputAction::Exit),
        action == InputAction::MoveUp ==> move_rel(*old(player), *final(player), 0, -1, *map),
        action == InputAction::MoveDown ==> move_rel(*old(player), *final(player), 0, 1, *map),
        action == InputAction::MoveLeft ==> move_rel(*old(player), *final(player), -1, 0, *map),
        action == InputAction::MoveRight ==> move_rel(*old(player), *final(player), 1, 0, *map),
        action == InputAction::Exit || action == InputAction::Other ==> *final(player) == *old(
            player,
        ),
{
    match action {
        InputAction::MoveUp => {
            player.move_by(0, -1, map);
            false
        },
        InputAction::MoveDown => {
            player.move_by(0, 1, map);
            false
        },
        InputAction::MoveLeft => {
            player.move_by(-1, 0, map);
            false
        },
        InputAction::MoveRight => {
            player.move_by(1, 0, map);
            false
        },
        InputAction::Exit => true,
        InputAction::Other => false,
    }
}

} // verus!
