use crate::components::{Position, Renderable};
use crate::glyph::{glyph_for_wall, GLYPH_FLOOR};
use crate::map::{lemma_index_in_range, Tile, TileMap};
use crate::world::{views_of, EntityRecord, RecordView};
use vstd::prelude::*;

verus! {

/// How much of a cell the player is shown.
#[derive(Clone, Copy, Debug, PartialEq, Eq, Structural)]
pub enum Shade {
    /// Seen right now: drawn in full.
    Lit,
    /// Seen at some time, but not now: drawn dimmed.
    Dim,
    /// Never seen: not drawn.
    Hidden,
}

/// What a renderer needs of one cell.
#[derive(Clone, Copy, Debug, PartialEq, Eq, Structural)]
pub struct Cell {
    pub tile: Tile,
    pub glyph: u16,
    pub shade: Shade,
}

/// What a renderer needs of one entity: where it stands and how it is drawn.
#[derive(Clone, Copy, Debug, PartialEq, Eq, Structural)]
pub struct Sprite {
    pub position: Position,
    pub renderable: Renderable,
}

/// What a renderer needs of one frame: the size of the grid, its cells row by
/// row, and the entities to draw over them.
#[derive(Clone, Debug)]
pub struct Frame {
    pub width: i32,
    pub height: i32,
    pub cells: Vec<Cell>,
    pub sprites: Vec<Sprite>,
}

/// The sprite of an entity, if it has a place and a look.
pub open spec fn sprite_of(record: RecordView) -> Option<Sprite> {
    if record.position.is_some() && record.renderable.is_some() {
        Some(Sprite { position: record.position.unwrap(), renderable: record.renderable.unwrap() })
    } else {
        None
    }
}

/// The sprites of the entities that have a place and a look, in the order of
/// the records. An entity that lacks either is passed over.
pub open spec fn sprites_of(records: Seq<RecordView>) -> Seq<Sprite> {
    records.filter_map(|r: RecordView| sprite_of(r))
}

impl TileMap {
    /// How much of the cell `(x, y)` is shown.
    pub open spec fn shade(self, x: int, y: int) -> Shade {
        if self.is_visible(x, y) {
            Shade::Lit
        } else if self.is_revealed(x, y) {
            Shade::Dim
        } else {
            Shade::Hidden
        }
    }

    /// What a renderer needs of the cell `(x, y)`.
    pub open spec fn cell(self, x: int, y: int) -> Cell {
        Cell {
            tile: self.tile(x, y),
            glyph: if self.tile(x, y) == Tile::Wall {
                self.wall_glyph_at(x, y)
            } else {
                GLYPH_FLOOR
            },
            shade: self.shade(x, y),
        }
    }

    /// `cells` holds, row by row, what a renderer needs of every cell.
    pub open spec fn drawn_as(self, cells: Seq<Cell>) -> bool {
        &&& cells.len() == self.width * self.height
        &&& forall|x: int, y: int| #![trigger self.cell(x, y)]
            self.contains(x, y) ==> cells[self.index_of(x, y)] == self.cell(x, y)
    }
}

/// What a renderer needs of every cell of the level, row by row: the tile,
/// its glyph, and whether it is seen now, was seen before, or never was.
pub fn draw_map(map: &TileMap) -> (cells: Vec<Cell>)
    requires
        map.sized(),
    ensures
        map.drawn_as(cells@),
{
    let mut cells: Vec<Cell> = Vec::new();
    let mut y: i32 = 0;
    assert(0 * map.width == 0) by (nonlinear_arith);
    while y < map.height
        invariant
            map.sized(),
            0 <= y <= map.height,
            cells.len() == y * map.width,
            forall|u: int, v: int| #![trigger map.cell(u, v)]
                map.contains(u, v) && v < y ==> cells[map.index_of(u, v)] == map.cell(u, v),
        decreases map.height - y,
    {
        let mut x: i32 = 0;
        while x < map.width
            invariant
                map.sized(),
                0 <= y < map.height,
                0 <= x <= map.width,
                cells.len() == y * map.width + x,
                forall|u: int, v: int| #![trigger map.cell(u, v)]
                    map.contains(u, v) && (v < y || (v == y && u < x)) ==> cells[map.index_of(u, v)]
                        == map.cell(u, v),
            decreases map.width - x,
        {
            let idx: usize = map.xy_idx(x, y);
            let tile = map.tiles[idx];
            let glyph: u16 = match tile {
                Tile::Wall => glyph_for_wall(map, x, y),
                Tile::Floor => GLYPH_FLOOR,
            };
            let shade = if map.visible[idx] {
                Shade::Lit
            } else if map.revealed[idx] {
                Shade::Dim
            } else {
                Shade::Hidden
            };
            let ghost before = cells@;
            cells.push(Cell { tile, glyph, shade });
            proof {
                assert forall|u: int, v: int| #![trigger map.cell(u, v)]
                    map.contains(u, v) && (v < y || (v == y && u < x + 1)) implies cells[map.index_of(
                    u,
                    v,
                )] == map.cell(u, v) by {
                    if v == y && u == x {
                    } else {
                        lemma_index_in_range(map.width as int, y + 1, u, v);
                        if v < y {
                            lemma_index_in_range(map.width as int, y as int, u, v);
                        }
                        assert(before[map.index_of(u, v)] == map.cell(u, v));
                    }
                }
            }
            x = x + 1;
        }
        assert((y + 1) * map.width == y * map.width + map.width) by (nonlinear_arith);
        y = y + 1;
    }
    assert(map.height * map.width == map.width * map.height) by (nonlinear_arith);
    cells
}

/// The sprites of the entities that have a place and a look, in the order of
/// the records.
pub fn draw_entities(records: &Vec<EntityRecord>) -> (sprites: Vec<Sprite>)
    ensures
        sprites@ == sprites_of(views_of(records@)),
{
    let mut sprites: Vec<Sprite> = Vec::new();
    let ghost views = views_of(records@);
    let mut i: usize = 0;
    assert(views.take(0) =~= Seq::<RecordView>::empty());
    while i < records.len()
        invariant
            i <= records.len(),
            views == views_of(records@),
            sprites@ == sprites_of(views.take(i as int)),
        decreases records.len() - i,
    {
        let record = &records[i];
        proof {
            views.lemma_filter_map_take_succ(|r: RecordView| sprite_of(r), i as int);
            assert(views[i as int] == record@);
        }
        if let Some(position) = &record.position {
            if let Some(renderable) = &record.renderable {
                sprites.push(Sprite { position: *position, renderable: *renderable });
            }
        }
        i = i + 1;
    }
    assert(views.take(records.len() as int) =~= views);
    sprites
}

} // verus!
