use crate::rect::Rect;
use vstd::prelude::*;

verus! {

/// The smallest cell of a level: solid rock or open ground.
#[derive(Clone, Copy, Debug, PartialEq, Eq, Structural)]
pub enum Tile {
    Wall,
    Floor,
}

/// A level: a grid of tiles stored row by row, the rooms that were placed on
/// it, and for every tile whether it has ever been seen and whether it is
/// seen right now.
#[derive(Clone, Debug)]
pub struct TileMap {
    pub tiles: Vec<Tile>,
    pub rooms: Vec<Rect>,
    pub width: i32,
    pub height: i32,
    pub revealed: Vec<bool>,
    pub visible: Vec<bool>,
}

/// A cell of a grid of the given size has its index inside the grid's storage.
pub proof fn lemma_index_in_range(width: int, height: int, x: int, y: int)
    requires
        0 <= x < width,
        0 <= y < height,
    ensures
        0 <= y * width + x < width * height,
{
    assert(y * width >= 0) by (nonlinear_arith)
        requires
            y >= 0,
            width > 0,
    ;
    assert(y * width + width <= height * width) by (nonlinear_arith)
        requires
            y + 1 <= height,
            width > 0,
    ;
    assert(height * width == width * height) by (nonlinear_arith);
}

/// Two cells of one grid with the same index are the same cell.
pub proof fn lemma_index_unique(width: int, x: int, y: int, u: int, v: int)
    requires
        0 <= x < width,
        0 <= u < width,
        y * width + x == v * width + u,
    ensures
        x == u,
        y == v,
{
    if y < v {
        assert(v * width >= y * width + width) by (nonlinear_arith)
            requires
                v >= y + 1,
                width > 0,
        ;
    } else if v < y {
        assert(y * width >= v * width + width) by (nonlinear_arith)
            requires
                y >= v + 1,
                width > 0,
        ;
    }
}

/// A vector of `n` copies of `value`.
pub(crate) fn filled<T: Copy>(value: T, n: usize) -> (v: Vec<T>)
    ensures
        v.len() == n,
        forall|i: int| 0 <= i < n ==> v[i] == value,
{
    let mut v: Vec<T> = Vec::new();
    let mut i: usize = 0;
    while i < n
        invariant
            i <= n,
            v.len() == i,
            forall|j: int| 0 <= j < i ==> v[j] == value,
        decreases n - i,
    {
        v.push(value);
        i = i + 1;
    }
    v
}

impl TileMap {
    /// A grid of this size can be stored and indexed.
    pub open spec fn dims_ok(width: int, height: int) -> bool {
        1 <= width && 1 <= height && width * height <= i32::MAX
    }

    /// The cell `(x, y)` lies on the grid.
    pub open spec fn contains(self, x: int, y: int) -> bool {
        0 <= x < self.width && 0 <= y < self.height
    }

    /// The cell `(x, y)` lies on the outer ring of the grid.
    pub open spec fn on_border(self, x: int, y: int) -> bool {
        self.contains(x, y) && (x == 0 || x == self.width - 1 || y == 0 || y == self.height - 1)
    }

    /// The cell `(x, y)` lies on the grid and off its outer ring.
    pub open spec fn interior(self, x: int, y: int) -> bool {
        1 <= x <= self.width - 2 && 1 <= y <= self.height - 2
    }

    /// Where the cell `(x, y)` is stored.
    pub open spec fn index_of(self, x: int, y: int) -> int {
        y * self.width + x
    }

    /// The tile of the cell `(x, y)`.
    pub open spec fn tile(self, x: int, y: int) -> Tile {
        self.tiles@[self.index_of(x, y)]
    }

    /// The cell `(x, y)` lies on the grid and is a wall.
    pub open spec fn is_wall(self, x: int, y: int) -> bool {
        self.contains(x, y) && self.tile(x, y) == Tile::Wall
    }

    /// The cell `(x, y)` lies on the grid and is open ground.
    pub open spec fn is_floor(self, x: int, y: int) -> bool {
        self.contains(x, y) && self.tile(x, y) == Tile::Floor
    }

    /// The cell `(x, y)` has been seen at some time.
    pub open spec fn is_revealed(self, x: int, y: int) -> bool {
        self.revealed@[self.index_of(x, y)]
    }

    /// The cell `(x, y)` is seen in the current frame.
    pub open spec fn is_visible(self, x: int, y: int) -> bool {
        self.visible@[self.index_of(x, y)]
    }

    /// Every cell of the grid is wall.
    pub open spec fn all_wall(self) -> bool {
        forall|x: int, y: int| #![trigger self.tile(x, y)] self.contains(x, y) ==> self.tile(x, y) == Tile::Wall
    }

    /// The three per-tile vectors have one entry for every cell.
    pub open spec fn sized(self) -> bool {
        &&& Self::dims_ok(self.width as int, self.height as int)
        &&& self.tiles.len() == self.width * self.height
        &&& self.revealed.len() == self.width * self.height
        &&& self.visible.len() == self.width * self.height
    }

    /// The invariant of a level: every cell has its tile and its two flags,
    /// and the outer ring of the grid is wall.
    pub open spec fn wf(self) -> bool {
        &&& self.sized()
        &&& forall|x: int, y: int| self.on_border(x, y) ==> #[trigger] self.tile(x, y) == Tile::Wall
    }

    /// The grid, the rooms and the two flags of every cell are those of `other`,
    /// whatever the tiles.
    pub open spec fn same_but_tiles(self, other: TileMap) -> bool {
        &&& self.width == other.width
        &&& self.height == other.height
        &&& self.rooms@ == other.rooms@
        &&& self.revealed@ == other.revealed@
        &&& self.visible@ == other.visible@
        &&& self.tiles.len() == other.tiles.len()
    }

    /// The tiles are those of `before`, but that every interior cell of the
    /// block `x_lo..=x_hi` by `y_lo..=y_hi` is open ground.
    pub open spec fn carved_from(self, before: TileMap, x_lo: int, x_hi: int, y_lo: int, y_hi: int) -> bool {
        forall|x: int, y: int| #![trigger self.tile(x, y)]
            self.contains(x, y) ==> self.tile(x, y) == if self.interior(x, y) && x_lo <= x <= x_hi
                && y_lo <= y <= y_hi {
                Tile::Floor
            } else {
                before.tile(x, y)
            }
    }

    /// A level of the given size that is wall throughout, with no room and
    /// nothing seen; `None` where a grid of that size cannot be stored.
    pub fn new(width: i32, height: i32) -> (r: Option<TileMap>)
        ensures
            r.is_some() == Self::dims_ok(width as int, height as int),
            r matches Some(m) ==> {
                &&& m.wf()
                &&& m.width == width
                &&& m.height == height
                &&& m.rooms@ == Seq::<Rect>::empty()
                &&& forall|i: int| 0 <= i < m.tiles.len() ==> m.tiles[i] == Tile::Wall
                &&& m.all_wall()
                &&& forall|i: int| 0 <= i < m.revealed.len() ==> !m.revealed[i]
                &&& forall|i: int| 0 <= i < m.visible.len() ==> !m.visible[i]
            },
    {
        if width < 1 || height < 1 {
            return None;
        }
        assert(0 < width * height <= i32::MAX * i32::MAX) by (nonlinear_arith)
            requires
                1 <= width <= i32::MAX,
                1 <= height <= i32::MAX,
        ;
        let cells: i64 = (width as i64) * (height as i64);
        if cells > i32::MAX as i64 {
            return None;
        }
        let n: usize = cells as usize;
        let m = TileMap {
            tiles: filled(Tile::Wall, n),
            rooms: Vec::new(),
            width,
            height,
            revealed: filled(false, n),
            visible: filled(false, n),
        };
        assert forall|x: int, y: int| #![trigger m.tile(x, y)] m.contains(x, y) implies m.tile(x, y)
            == Tile::Wall by {
            lemma_index_in_range(width as int, height as int, x, y);
        }
        Some(m)
    }

    /// Whether the level is in order: every cell has its tile and its two
    /// flags, and the outer ring of the grid is wall.
    pub fn is_in_order(&self) -> (ok: bool)
        ensures
            ok == self.wf(),
    {
        if self.width < 1 || self.height < 1 {
            return false;
        }
        assert(0 < self.width * self.height <= i32::MAX * i32::MAX) by (nonlinear_arith)
            requires
                1 <= self.width <= i32::MAX,
                1 <= self.height <= i32::MAX,
        ;
        let cells: i64 = (self.width as i64) * (self.height as i64);
        if cells > i32::MAX as i64 {
            return false;
        }
        let n: usize = cells as usize;
        if self.tiles.len() != n || self.revealed.len() != n || self.visible.len() != n {
            return false;
        }
        let mut x: i32 = 0;
        while x < self.width
            invariant
                self.sized(),
                0 <= x <= self.width,
                forall|u: int| 0 <= u < x ==> #[trigger] self.tile(u, 0) == Tile::Wall,
                forall|u: int| 0 <= u < x ==> #[trigger] self.tile(u, self.height - 1) == Tile::Wall,
            decreases self.width - x,
        {
            match (self.tile_at(x, 0), self.tile_at(x, self.height - 1)) {
                (Tile::Wall, Tile::Wall) => {},
                _ => {
                    assert(self.on_border(x as int, 0) && self.on_border(x as int, self.height - 1));
                    return false;
                },
            }
            x = x + 1;
        }
        let mut y: i32 = 0;
        while y < self.height
            invariant
                self.sized(),
                0 <= y <= self.height,
                forall|u: int| 0 <= u < self.width ==> #[trigger] self.tile(u, 0) == Tile::Wall,
                forall|u: int| 0 <= u < self.width ==> #[trigger] self.tile(u, self.height - 1) == Tile::Wall,
                forall|v: int| 0 <= v < y ==> #[trigger] self.tile(0, v) == Tile::Wall,
                forall|v: int| 0 <= v < y ==> #[trigger] self.tile(self.width - 1, v) == Tile::Wall,
            decreases self.height - y,
        {
            match (self.tile_at(0, y), self.tile_at(self.width - 1, y)) {
                (Tile::Wall, Tile::Wall) => {},
                _ => {
                    assert(self.on_border(0, y as int) && self.on_border(self.width - 1, y as int));
                    return false;
                },
            }
            y = y + 1;
        }
        true
    }

    /// Whether the cell `(x, y)` lies on the grid.
    pub fn in_bounds(&self, x: i32, y: i32) -> (b: bool)
        ensures
            b == self.contains(x as int, y as int),
    {
        0 <= x && x < self.width && 0 <= y && y < self.height
    }

    /// The place of the cell `(x, y)` in the per-tile vectors.
    pub fn xy_idx(&self, x: i32, y: i32) -> (idx: usize)
        requires
            self.sized(),
            self.contains(x as int, y as int),
        ensures
            idx == self.index_of(x as int, y as int),
            idx < self.tiles.len(),
    {
        proof {
            lemma_index_in_range(self.width as int, self.height as int, x as int, y as int);
            assert(y * self.width >= 0) by (nonlinear_arith)
                requires
                    y >= 0,
                    self.width > 0,
            ;
        }
        (y as usize) * (self.width as usize) + (x as usize)
    }

    /// The tile of the cell `(x, y)`.
    pub fn tile_at(&self, x: i32, y: i32) -> (t: Tile)
        requires
            self.sized(),
            self.contains(x as int, y as int),
        ensures
            t == self.tile(x as int, y as int),
    {
        let idx: usize = self.xy_idx(x, y);
        self.tiles[idx]
    }

    /// Opens every interior cell of the block `x_lo..=x_hi` by `y_lo..=y_hi`.
    /// Cells of the block on the outer ring or off the grid are left alone.
    pub fn carve(&mut self, x_lo: i32, x_hi: i32, y_lo: i32, y_hi: i32)
        requires
            old(self).wf(),
        ensures
            final(self).wf(),
            final(self).same_but_tiles(*old(self)),
            final(self).carved_from(*old(self), x_lo as int, x_hi as int, y_lo as int, y_hi as int),
    {
        let xl: i32 = if x_lo < 1 { 1 } else { x_lo };
        let yl: i32 = if y_lo < 1 { 1 } else { y_lo };
        let xh: i32 = if x_hi > self.width - 2 { self.width - 2 } else { x_hi };
        let yh: i32 = if y_hi > self.height - 2 { self.height - 2 } else { y_hi };
        let ghost before = *self;
        let mut y: i32 = yl;
        while y <= yh
            invariant
                1 <= yl <= y,
                y <= yh + 1 || y == yl,
                yh <= self.height - 2,
                1 <= xl,
                xh <= self.width - 2,
                xl == (if x_lo < 1 { 1 } else { x_lo as int }),
                xh == (if x_hi > self.width - 2 { self.width - 2 } else { x_hi as int }),
                yl == (if y_lo < 1 { 1 } else { y_lo as int }),
                yh == (if y_hi > self.height - 2 { self.height - 2 } else { y_hi as int }),
                before.wf(),
                self.sized(),
                self.same_but_tiles(before),
                forall|u: int, v: int| #![trigger self.tile(u, v)]
                    self.contains(u, v) ==> self.tile(u, v) == if xl <= u <= xh && yl <= v < y {
                        Tile::Floor
                    } else {
                        before.tile(u, v)
                    },
            decreases yh - y + 1,
        {
            let mut x: i32 = xl;
            while x <= xh
                invariant
                    1 <= yl <= y <= yh,
                    yh <= self.height - 2,
                    1 <= xl <= x,
                    x <= xh + 1 || x == xl,
                    xh <= self.width - 2,
                    before.wf(),
                    self.sized(),
                    self.same_but_tiles(before),
                    forall|u: int, v: int| #![trigger self.tile(u, v)]
                        self.contains(u, v) ==> self.tile(u, v) == if xl <= u <= xh && (yl <= v < y
                            || (v == y && u < x)) {
                            Tile::Floor
                        } else {
                            before.tile(u, v)
                        },
                decreases xh - x + 1,
            {
                let idx: usize = self.xy_idx(x, y);
                let ghost prev = *self;
                self.tiles.set(idx, Tile::Floor);
                proof {
                    assert forall|u: int, v: int| #![trigger self.tile(u, v)]
                        self.contains(u, v) implies self.tile(u, v) == if xl <= u <= xh && (yl <= v
                        < y || (v == y && u < x + 1)) {
                        Tile::Floor
                    } else {
                        before.tile(u, v)
                    } by {
                        lemma_index_in_range(self.width as int, self.height as int, u, v);
                        if self.index_of(u, v) == idx as int {
                            lemma_index_unique(self.width as int, u, v, x as int, y as int);
                        } else {
                            assert(self.tile(u, v) == prev.tile(u, v));
                        }
                    }
                }
                x = x + 1;
            }
            y = y + 1;
        }
        proof {
            assert forall|u: int, v: int| self.on_border(u, v) implies #[trigger] self.tile(u, v)
                == Tile::Wall by {
                assert(before.tile(u, v) == Tile::Wall);
            }
        }
    }

    /// Opens the cells of a room: those with `x1 < x <= x2` and
    /// `y1 < y <= y2`, as far as they are interior cells of the grid.
    pub fn apply_room_to_map(&mut self, room: &Rect)
        requires
            old(self).wf(),
        ensures
            final(self).wf(),
            final(self).same_but_tiles(*old(self)),
            final(self).carved_from(
                *old(self),
                room.x1 + 1,
                room.x2 as int,
                room.y1 + 1,
                room.y2 as int,
            ),
    {
        if room.x1 < i32::MAX && room.y1 < i32::MAX {
            self.carve(room.x1 + 1, room.x2, room.y1 + 1, room.y2);
        } else {
            proof {
                assert forall|x: int, y: int| #![trigger self.tile(x, y)]
                    self.contains(x, y) implies !(room.x1 + 1 <= x <= room.x2 && room.y1 + 1 <= y
                    <= room.y2) by {}
            }
        }
    }

    /// Opens the interior cells of row `y` from column `x1` to column `x2`,
    /// whichever of the two is the smaller.
    pub fn apply_horizontal_tunnel(&mut self, x1: i32, x2: i32, y: i32)
        requires
            old(self).wf(),
        ensures
            final(self).wf(),
            final(self).same_but_tiles(*old(self)),
            final(self).carved_from(
                *old(self),
                if x1 <= x2 { x1 as int } else { x2 as int },
                if x1 <= x2 { x2 as int } else { x1 as int },
                y as int,
                y as int,
            ),
    {
        if x1 <= x2 {
            self.carve(x1, x2, y, y);
        } else {
            self.carve(x2, x1, y, y);
        }
    }

    /// Opens the interior cells of column `x` from row `y1` to row `y2`,
    /// whichever of the two is the smaller.
    pub fn apply_vertical_tunnel(&mut self, y1: i32, y2: i32, x: i32)
        requires
            old(self).wf(),
        ensures
            final(self).wf(),
            final(self).same_but_tiles(*old(self)),
            final(self).carved_from(
                *old(self),
                x as int,
                x as int,
                if y1 <= y2 { y1 as int } else { y2 as int },
                if y1 <= y2 { y2 as int } else { y1 as int },
            ),
    {
        if y1 <= y2 {
            self.carve(x, x, y1, y2);
        } else {
            self.carve(x, x, y2, y1);
        }
    }
}

} // verus!
