//! Sprite selection for a rendering host.
//!
//! The engine never draws; it only tells the host which tile of the sprite
//! sheets to use.  Cell tiles are chosen from the live/dead state of the four
//! cardinal neighbours, so adjoining live cells visually connect; button
//! tiles are chosen from the button's slot and pressed state.

use vstd::prelude::*;

use crate::colony::Colony;
use crate::colony::Cell;
use crate::colony::pos;
use crate::colony::neighbours_nesw;

verus! {

/// One tile of the game's sprite sheets: a 4x4 sheet of cell tiles, a 2x7
/// sheet of button tiles, and the checkered background tile.
#[derive(Clone, Copy, PartialEq, Eq, Structural, Debug)]
pub enum SpriteId {
    CellsR0C0,
    CellsR0C1,
    CellsR0C2,
    CellsR0C3,
    CellsR1C0,
    CellsR1C1,
    CellsR1C2,
    CellsR1C3,
    CellsR2C0,
    CellsR2C1,
    CellsR2C2,
    CellsR2C3,
    CellsR3C0,
    CellsR3C1,
    CellsR3C2,
    CellsR3C3,
    ButtonsR0C0,
    ButtonsR0C1,
    ButtonsR0C2,
    ButtonsR0C3,
    ButtonsR0C4,
    ButtonsR0C5,
    ButtonsR0C6,
    ButtonsR1C0,
    ButtonsR1C1,
    ButtonsR1C2,
    ButtonsR1C3,
    ButtonsR1C4,
    ButtonsR1C5,
    ButtonsR1C6,
    Checker32,
}

/// The cell tile for a given live/dead pattern of the four cardinal
/// neighbours (north, east, south, west).
pub open spec fn cell_sprite_for(n: bool, e: bool, s: bool, w: bool) -> SpriteId {
    match (n, e, s, w) {
        (false, false, false, false) => SpriteId::CellsR0C0,
        (false, false, false, true) => SpriteId::CellsR0C3,
        (false, false, true, false) => SpriteId::CellsR1C0,
        (false, false, true, true) => SpriteId::CellsR1C3,
        (false, true, false, false) => SpriteId::CellsR0C1,
        (false, true, false, true) => SpriteId::CellsR0C2,
        (false, true, true, false) => SpriteId::CellsR1C1,
        (false, true, true, true) => SpriteId::CellsR1C2,
        (true, false, false, false) => SpriteId::CellsR3C0,
        (true, false, false, true) => SpriteId::CellsR3C3,
        (true, false, true, false) => SpriteId::CellsR2C0,
        (true, false, true, true) => SpriteId::CellsR2C3,
        (true, true, false, false) => SpriteId::CellsR3C1,
        (true, true, false, true) => SpriteId::CellsR3C2,
        (true, true, true, false) => SpriteId::CellsR2C1,
        (true, true, true, true) => SpriteId::CellsR2C2,
    }
}

/// The cell tile for position `p` under colony `col`, read off from the four
/// cardinal neighbours.
pub open spec fn cell_sprite_of(col: Set<(int, int)>, p: (int, int)) -> SpriteId {
    cell_sprite_for(
        col.contains((p.0, p.1 + 1)),
        col.contains((p.0 + 1, p.1)),
        col.contains((p.0, p.1 - 1)),
        col.contains((p.0 - 1, p.1)),
    )
}

/// Pick the sprite tile for one cell from its four cardinal neighbours.
pub fn cell_sprite(col: &Colony, cell: &Cell) -> (r: SpriteId)
    requires
        i32::MIN < cell.0 < i32::MAX,
        i32::MIN < cell.1 < i32::MAX,
    ensures
        r == cell_sprite_of(col@, pos(*cell)),
{
    match neighbours_nesw(col, cell) {
        (false, false, false, false) => SpriteId::CellsR0C0,
        (false, false, false, true) => SpriteId::CellsR0C3,
        (false, false, true, false) => SpriteId::CellsR1C0,
        (false, false, true, true) => SpriteId::CellsR1C3,
        (false, true, false, false) => SpriteId::CellsR0C1,
        (false, true, false, true) => SpriteId::CellsR0C2,
        (false, true, true, false) => SpriteId::CellsR1C1,
        (false, true, true, true) => SpriteId::CellsR1C2,
        (true, false, false, false) => SpriteId::CellsR3C0,
        (true, false, false, true) => SpriteId::CellsR3C3,
        (true, false, true, false) => SpriteId::CellsR2C0,
        (true, false, true, true) => SpriteId::CellsR2C3,
        (true, true, false, false) => SpriteId::CellsR3C1,
        (true, true, false, true) => SpriteId::CellsR3C2,
        (true, true, true, false) => SpriteId::CellsR2C1,
        (true, true, true, true) => SpriteId::CellsR2C2,
    }
}

/// The button tile for slot `x` (pressed or not).  Slots past the last
/// button share the last tile.
pub open spec fn button_sprite_for(x: int, down: bool) -> SpriteId {
    if !down {
        if x == 0 {
            SpriteId::ButtonsR0C0
        } else if x == 1 {
            SpriteId::ButtonsR0C1
        } else if x == 2 {
            SpriteId::ButtonsR0C2
        } else if x == 3 {
            SpriteId::ButtonsR0C3
        } else if x == 4 {
            SpriteId::ButtonsR0C4
        } else if x == 5 {
            SpriteId::ButtonsR0C5
        } else {
            SpriteId::ButtonsR0C6
        }
    } else {
        if x == 0 {
            SpriteId::ButtonsR1C0
        } else if x == 1 {
            SpriteId::ButtonsR1C1
        } else if x == 2 {
            SpriteId::ButtonsR1C2
        } else if x == 3 {
            SpriteId::ButtonsR1C3
        } else if x == 4 {
            SpriteId::ButtonsR1C4
        } else if x == 5 {
            SpriteId::ButtonsR1C5
        } else {
            SpriteId::ButtonsR1C6
        }
    }
}

/// Pick the sprite tile for one button slot.
pub fn button_sprite(x: i32, down: bool) -> (r: SpriteId)
    ensures
        r == button_sprite_for(x as int, down),
{
    match (x, down) {
        (0, false) => SpriteId::ButtonsR0C0,
        (1, false) => SpriteId::ButtonsR0C1,
        (2, false) => SpriteId::ButtonsR0C2,
        (3, false) => SpriteId::ButtonsR0C3,
        (4, false) => SpriteId::ButtonsR0C4,
        (5, false) => SpriteId::ButtonsR0C5,
        (_, false) => SpriteId::ButtonsR0C6,
        (0, true) => SpriteId::ButtonsR1C0,
        (1, true) => SpriteId::ButtonsR1C1,
        (2, true) => SpriteId::ButtonsR1C2,
        (3, true) => SpriteId::ButtonsR1C3,
        (4, true) => SpriteId::ButtonsR1C4,
        (5, true) => SpriteId::ButtonsR1C5,
        (_, true) => SpriteId::ButtonsR1C6,
    }
}

} // verus!
