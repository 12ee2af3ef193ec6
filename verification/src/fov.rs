use crate::map::{Tile, TileMap};
use bracket_lib::prelude::field_of_view;
use bracket_lib::prelude::Algorithm2D;
use bracket_lib::prelude::BaseMap;
use bracket_lib::prelude::Point;
use vstd::prelude::*;

verus! {

/// `bracket_lib::prelude::Point`: a cell as the outside code names it. Its two
/// fields are public, and they are read as they stand.
#[verifier::external_type_specification]
pub struct ExPoint(Point);

/// The farthest range that the outside field of view can be asked for: it
/// squares twice the range in `i32`, and the square of twice 23171 no longer
/// fits.
pub const MAX_VIEW_RANGE: i32 = 23170;

/// The cells that the shadow casting of `bracket_lib` finds in view from
/// `(x, y)` within `range`, on a grid of the given size of which `opaque`
/// tells cell by cell, row by row, whether it blocks the view.
pub uninterp spec fn shadowcast(width: int, height: int, opaque: Seq<bool>, x: int, y: int, range: int) -> Set<
    (int, int),
>;

/// The cell is no farther than `range` from `(x, y)`, along the rows and
/// along the columns.
pub open spec fn within(c: (i32, i32), x: int, y: int, range: int) -> bool {
    &&& x - range <= c.0 <= x + range
    &&& y - range <= c.1 <= y + range
}

impl TileMap {
    /// For every cell, row by row, whether it blocks the view: walls do.
    pub open spec fn opacity(self) -> Seq<bool> {
        Seq::new(self.tiles.len() as nat, |i: int| self.tiles[i] == Tile::Wall)
    }

    /// A range that no two cells of the grid are farther apart than, in a
    /// straight line: the width and the height together, as far as the
    /// outside field of view can be asked for it.
    pub open spec fn reach(self) -> int {
        if self.width + self.height <= MAX_VIEW_RANGE {
            self.width + self.height
        } else {
            MAX_VIEW_RANGE as int
        }
    }

    /// The range with which the field of view is computed for a viewer of
    /// the given range: the range itself, as far as the outside field of
    /// view can be asked for it; beyond that the reach of the grid; and 0,
    /// which is the viewer's own cell, for a range below 0.
    pub open spec fn sight(self, range: int) -> int {
        if range < 0 {
            0
        } else if range <= MAX_VIEW_RANGE {
            range
        } else {
            self.reach()
        }
    }

    /// The range with which the field of view is computed for a viewer of
    /// the given range.
    pub fn view_range(&self, range: i32) -> (r: i32)
        requires
            self.sized(),
        ensures
            r == self.sight(range as int),
            0 <= r <= MAX_VIEW_RANGE,
    {
        if range < 0 {
            0
        } else if range <= MAX_VIEW_RANGE {
            range
        } else {
            let reach: i64 = self.width as i64 + self.height as i64;
            if reach <= MAX_VIEW_RANGE as i64 {
                reach as i32
            } else {
                MAX_VIEW_RANGE
            }
        }
    }

    /// The cells in view from `(x, y)` within `range`.
    pub open spec fn in_view(self, x: int, y: int, range: int) -> Set<(int, int)> {
        shadowcast(self.width as int, self.height as int, self.opacity(), x, y, range)
    }
}

impl BaseMap for TileMap {
    /// Whether the tile stored at `idx` blocks the view. An index past the
    /// last tile is answered as if it were wall.
    fn is_opaque(&self, idx: usize) -> (opaque: bool)
        ensures
            opaque == (idx < self.tiles.len() ==> self.opacity()[idx as int]),
    {
        if idx < self.tiles.len() {
            match self.tiles[idx] {
                Tile::Wall => true,
                Tile::Floor => false,
            }
        } else {
            true
        }
    }
}

impl Algorithm2D for TileMap {
    /// The width and the height of the grid.
    fn dimensions(&self) -> (size: Point)
        ensures
            size.x == self.width,
            size.y == self.height,
    {
        Point { x: self.width, y: self.height }
    }
}

/// `bracket_lib::prelude::field_of_view` from the cell `(x, y)`, each point of
/// the result turned into a pair. The contract names the set of cells that
/// come back, and claims of them what the source shows: that none is given
/// twice, that all lie on the grid, that none is farther than `range` along
/// either axis (the outside code measures the distance in a straight line,
/// which is no shorter), and that the cell looked from is among them. In
/// what order they come is open. The cell looked from must lie on the grid,
/// where the outside code can index every cell that it visits, and the range
/// must be within `MAX_VIEW_RANGE`, where its arithmetic holds. Before it
/// looks, the outside code reserves a set for the square of twice the range
/// in cells; that the memory for it can be had is taken for granted, as of
/// any allocation.
#[verifier::external_body]
pub(crate) fn field_of_view_cells(map: &TileMap, x: i32, y: i32, range: i32) -> (cells: Vec<(i32, i32)>)
    requires
        map.sized(),
        map.contains(x as int, y as int),
        0 <= range <= MAX_VIEW_RANGE,
    ensures
        cells@.no_duplicates(),
        forall|c: (i32, i32)|
            cells@.contains(c) <==> shadowcast(
                map.width as int,
                map.height as int,
                map.opacity(),
                x as int,
                y as int,
                range as int,
            ).contains((c.0 as int, c.1 as int)),
        forall|i: int| 0 <= i < cells.len() ==> map.contains((#[trigger] cells[i]).0 as int, cells[i].1 as int),
        forall|i: int| 0 <= i < cells.len() ==> within(#[trigger] cells[i], x as int, y as int, range as int),
        cells@.contains((x, y)),
{
    field_of_view(Point::new(x, y), range, map).into_iter().map(|p| (p.x, p.y)).collect()
}

/// On a grid within reach of the outside field of view, no cell is farther
/// from another than the reach of the grid, in a straight line or along
/// either axis: a viewer whose range is cut down to the reach loses no cell
/// of the grid to the distance.
pub proof fn lemma_reach_covers_grid(m: TileMap, ax: int, ay: int, bx: int, by: int)
    requires
        m.contains(ax, ay),
        m.contains(bx, by),
        m.width + m.height <= MAX_VIEW_RANGE,
    ensures
        (bx - ax) * (bx - ax) + (by - ay) * (by - ay) <= m.reach() * m.reach(),
        ax - m.reach() <= bx <= ax + m.reach(),
        ay - m.reach() <= by <= ay + m.reach(),
{
    let w = m.width as int;
    let h = m.height as int;
    assert((bx - ax) * (bx - ax) <= w * w) by (nonlinear_arith)
        requires
            -w <= bx - ax <= w,
    ;
    assert((by - ay) * (by - ay) <= h * h) by (nonlinear_arith)
        requires
            -h <= by - ay <= h,
    ;
    assert(w * w + h * h <= (w + h) * (w + h)) by (nonlinear_arith)
        requires
            w >= 0,
            h >= 0,
    ;
}

} // verus!
