use specs::Component;
use specs::VecStorage;
use vstd::prelude::*;

verus! {

#[verifier::external_type_specification]
#[verifier::external_body]
#[verifier::reject_recursive_types(T)]
pub struct ExVecStorage<T>(VecStorage<T>);

/// Where an entity stands on the grid.
#[derive(Clone, Copy, Debug, PartialEq, Eq, Structural)]
pub struct Position {
    pub x: i32,
    pub y: i32,
}

/// A colour as red, green and blue.
#[derive(Clone, Copy, Debug, PartialEq, Eq, Structural)]
pub struct Color {
    pub r: u8,
    pub g: u8,
    pub b: u8,
}

/// How an entity is drawn: a glyph of the font and two colours. The core
/// carries it to the renderer and never looks inside.
#[derive(Clone, Copy, Debug, PartialEq, Eq, Structural)]
pub struct Renderable {
    pub glyph: u16,
    pub fg: Color,
    pub bg: Color,
}

/// Marks the entity that input moves.
#[derive(Clone, Copy, Debug, PartialEq, Eq, Structural)]
pub struct Player {}

/// What an entity sees: the cells in view as last computed, how far it sees,
/// and whether the cells are out of date.
#[derive(Clone, Debug)]
pub struct Viewshed {
    pub visible_tiles: Vec<(i32, i32)>,
    pub range: i32,
    pub dirty: bool,
}

/// The mathematical value of a `Viewshed`.
pub ghost struct ViewshedView {
    pub visible_tiles: Seq<(i32, i32)>,
    pub range: i32,
    pub dirty: bool,
}

impl View for Viewshed {
    type V = ViewshedView;

    open spec fn view(&self) -> ViewshedView {
        ViewshedView { visible_tiles: self.visible_tiles@, range: self.range, dirty: self.dirty }
    }
}

impl Viewshed {
    /// A viewshed of the given range that has not been computed yet.
    pub fn new(range: i32) -> (v: Viewshed)
        ensures
            v@ == (ViewshedView { visible_tiles: Seq::empty(), range, dirty: true }),
    {
        Viewshed { visible_tiles: Vec::new(), range, dirty: true }
    }
}

impl Viewshed {
    /// The same view, marked as out of date.
    pub fn marked_dirty(&self) -> (v: Viewshed)
        ensures
            v@ == (ViewshedView { dirty: true, ..self@ }),
    {
        let mut cells: Vec<(i32, i32)> = Vec::new();
        let mut i: usize = 0;
        while i < self.visible_tiles.len()
            invariant
                i <= self.visible_tiles.len(),
                cells@ == self.visible_tiles@.take(i as int),
            decreases self.visible_tiles.len() - i,
        {
            cells.push(self.visible_tiles[i]);
            assert(self.visible_tiles@.take(i as int).push(self.visible_tiles[i as int])
                == self.visible_tiles@.take(i + 1));
            i = i + 1;
        }
        assert(self.visible_tiles@.take(self.visible_tiles.len() as int) == self.visible_tiles@);
        Viewshed { visible_tiles: cells, range: self.range, dirty: true }
    }
}

impl Component for Position {
    type Storage = VecStorage<Self>;
}

impl Component for Renderable {
    type Storage = VecStorage<Self>;
}

impl Component for Player {
    type Storage = VecStorage<Self>;
}

impl Component for Viewshed {
    type Storage = VecStorage<Self>;
}

} // verus!
