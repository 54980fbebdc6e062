//! The per-session player roster entry, created once at session setup.

use vstd::prelude::*;

verus! {

/// A display colour, one byte per channel. The render collaborator maps it
/// onto whatever colour type it draws with.
#[derive(Clone, Copy, PartialEq, Eq, Structural, Debug)]
pub struct PlayerColor {
    pub red: u8,
    pub green: u8,
    pub blue: u8,
}

/// A static roster entry: who plays, under which name and colour.
#[derive(Clone, Debug)]
pub struct Player {
    pub display_name: String,
    pub color: PlayerColor,
}

impl Player {
    pub fn new(display_name: String, color: PlayerColor) -> (player: Player)
        ensures
            player.display_name@ == display_name@,
            player.color == color,
    {
        Player { display_name, color }
    }

    pub fn get_colour(&self) -> (color: PlayerColor)
        ensures
            color == self.color,
    {
        self.color
    }
}

} // verus!
