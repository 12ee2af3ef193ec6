use crate::map::{Tile, TileMap};
use vstd::prelude::*;

verus! {

/// A wall with no wall beside it.
pub const GLYPH_PILLAR: u16 = 9;

/// A wall that runs up and down.
pub const GLYPH_VERTICAL: u16 = 186;

/// A wall that runs left and right.
pub const GLYPH_HORIZONTAL: u16 = 205;

/// A corner that joins the walls above and to the left.
pub const GLYPH_CORNER_UP_LEFT: u16 = 188;

/// A corner that joins the walls below and to the left.
pub const GLYPH_CORNER_DOWN_LEFT: u16 = 187;

/// A corner that joins the walls above and to the right.
pub const GLYPH_CORNER_UP_RIGHT: u16 = 200;

/// A corner that joins the walls below and to the right.
pub const GLYPH_CORNER_DOWN_RIGHT: u16 = 201;

/// A junction of three walls, none to the right.
pub const GLYPH_TEE_LEFT: u16 = 185;

/// A junction of three walls, none to the left.
pub const GLYPH_TEE_RIGHT: u16 = 204;

/// A junction of three walls, none below.
pub const GLYPH_TEE_UP: u16 = 202;

/// A junction of three walls, none above.
pub const GLYPH_TEE_DOWN: u16 = 203;

/// A junction of four walls.
pub const GLYPH_CROSS: u16 = 206;

/// Open ground.
pub const GLYPH_FLOOR: u16 = 46;

/// The glyph of a wall, given on which of its four sides another wall stands.
pub open spec fn wall_glyph(up: bool, down: bool, left: bool, right: bool) -> u16 {
    if up && down && left && right {
        GLYPH_CROSS
    } else if up && down && left {
        GLYPH_TEE_LEFT
    } else if up && down && right {
        GLYPH_TEE_RIGHT
    } else if left && right && up {
        GLYPH_TEE_UP
    } else if left && right && down {
        GLYPH_TEE_DOWN
    } else if up && left {
        GLYPH_CORNER_UP_LEFT
    } else if down && left {
        GLYPH_CORNER_DOWN_LEFT
    } else if up && right {
        GLYPH_CORNER_UP_RIGHT
    } else if down && right {
        GLYPH_CORNER_DOWN_RIGHT
    } else if up || down {
        GLYPH_VERTICAL
    } else if left || right {
        GLYPH_HORIZONTAL
    } else {
        GLYPH_PILLAR
    }
}

impl TileMap {
    /// The glyph of a wall at `(x, y)`, from the four cells that share an edge
    /// with it. A neighbour off the grid counts as no wall.
    pub open spec fn wall_glyph_at(self, x: int, y: int) -> u16 {
        wall_glyph(
            self.is_wall(x, y - 1),
            self.is_wall(x, y + 1),
            self.is_wall(x - 1, y),
            self.is_wall(x + 1, y),
        )
    }

    /// Whether the cell `(x, y)` lies on the grid and is a wall.
    pub fn has_wall_at(&self, x: i64, y: i64) -> (b: bool)
        requires
            self.sized(),
        ensures
            b == self.is_wall(x as int, y as int),
    {
        if 0 <= x && x < self.width as i64 && 0 <= y && y < self.height as i64 {
            match self.tile_at(x as i32, y as i32) {
                Tile::Wall => true,
                Tile::Floor => false,
            }
        } else {
            false
        }
    }
}

/// The glyph with which to draw a wall at `(x, y)`: a pillar, a straight
/// piece, a corner or a junction, by the walls above, below, left and right
/// of it. It reads nothing but those four cells and changes nothing.
pub fn glyph_for_wall(map: &TileMap, x: i32, y: i32) -> (glyph: u16)
    requires
        map.sized(),
    ensures
        glyph == map.wall_glyph_at(x as int, y as int),
{
    let mut mask: u8 = 0;
    if map.has_wall_at(x as i64, y as i64 - 1) {
        mask = mask + 1;
    }
    if map.has_wall_at(x as i64, y as i64 + 1) {
        mask = mask + 2;
    }
    if map.has_wall_at(x as i64 - 1, y as i64) {
        mask = mask + 4;
    }
    if map.has_wall_at(x as i64 + 1, y as i64) {
        mask = mask + 8;
    }
    match mask {
        0 => GLYPH_PILLAR,
        1 => GLYPH_VERTICAL,
        2 => GLYPH_VERTICAL,
        3 => GLYPH_VERTICAL,
        4 => GLYPH_HORIZONTAL,
        5 => GLYPH_CORNER_UP_LEFT,
        6 => GLYPH_CORNER_DOWN_LEFT,
        7 => GLYPH_TEE_LEFT,
        8 => GLYPH_HORIZONTAL,
        9 => GLYPH_CORNER_UP_RIGHT,
        10 => GLYPH_CORNER_DOWN_RIGHT,
        11 => GLYPH_TEE_RIGHT,
        12 => GLYPH_HORIZONTAL,
        13 => GLYPH_TEE_UP,
        14 => GLYPH_TEE_DOWN,
        _ => GLYPH_CROSS,
    }
}

/// A wall with no wall beside it is drawn as a pillar, and one with a wall on
/// every side as a junction of four.
pub proof fn lemma_wall_glyph_extremes()
    ensures
        wall_glyph(false, false, false, false) == GLYPH_PILLAR,
        wall_glyph(true, true, true, true) == GLYPH_CROSS,
{
}

/// The glyph of a wall depends on nothing but which of its four neighbours
/// are walls: two cells, of one level or of two, whose neighbours agree get
/// the same glyph.
pub proof fn lemma_wall_glyph_by_neighbours(a: TileMap, ax: int, ay: int, b: TileMap, bx: int, by: int)
    requires
        a.is_wall(ax, ay - 1) == b.is_wall(bx, by - 1),
        a.is_wall(ax, ay + 1) == b.is_wall(bx, by + 1),
        a.is_wall(ax - 1, ay) == b.is_wall(bx - 1, by),
        a.is_wall(ax + 1, ay) == b.is_wall(bx + 1, by),
    ensures
        a.wall_glyph_at(ax, ay) == b.wall_glyph_at(bx, by),
{
}

} // verus!
