use crate::components::{Position, Viewshed, ViewshedView};
use crate::fov::{field_of_view_cells, within};
use crate::map::{lemma_index_in_range, lemma_index_unique, TileMap};
use crate::world::{
    distinct_entities, has_entity, snapshot, store_viewshed, views_of, world_ready, world_records,
    RecordView,
};
use specs::World;
use vstd::prelude::*;

verus! {

/// The cell `(x, y)` is one of `cells`.
pub open spec fn lists(cells: Seq<(i32, i32)>, x: int, y: int) -> bool {
    exists|k: int| 0 <= k < cells.len() && (#[trigger] cells[k]).0 == x && cells[k].1 == y
}

/// The entity has a place and a view.
pub open spec fn is_viewer(record: RecordView) -> bool {
    record.position.is_some() && record.viewshed.is_some()
}

/// The entity has a place and a view, and `(x, y)` is one of the cells in its view.
pub open spec fn looks_over(record: RecordView, x: int, y: int) -> bool {
    is_viewer(record) && lists(record.viewshed.unwrap().visible_tiles, x, y)
}

/// One of the first `n` entities looks over `(x, y)`.
pub open spec fn seen_by_first(records: Seq<RecordView>, n: int, x: int, y: int) -> bool {
    exists|k: int| 0 <= k < n && looks_over(#[trigger] records[k], x, y)
}

/// Some entity looks over `(x, y)`.
pub open spec fn seen(records: Seq<RecordView>, x: int, y: int) -> bool {
    seen_by_first(records, records.len() as int, x, y)
}

/// The view has to be computed anew: the entity has a place, and a view that is out of date.
pub open spec fn is_stale(record: RecordView) -> bool {
    is_viewer(record) && record.viewshed.unwrap().dirty
}

/// The cell `c` is in view on the level for a viewer of the given range that
/// stands on `from`: the viewer stands on the grid, and the cell is in view
/// from there within the range with which the field of view is computed.
pub open spec fn views_cell(map: TileMap, from: Position, range: i32, c: (i32, i32)) -> bool {
    &&& map.contains(from.x as int, from.y as int)
    &&& map.in_view(from.x as int, from.y as int, map.sight(range as int)).contains(
        (c.0 as int, c.1 as int),
    )
}

/// `after` is what the visibility system makes of `before`: a view that was
/// out of date lists, each once, the cells in view from the entity's place,
/// all of them on the grid and no farther than the range with which the
/// field of view is computed, and is up to date. The own cell of an entity
/// that stands on the grid is among them, whatever its range; an entity off
/// the grid sees nothing. Nothing else differs.
pub open spec fn refreshed(before: RecordView, after: RecordView, map: TileMap) -> bool {
    &&& after.entity == before.entity
    &&& after.position == before.position
    &&& after.renderable == before.renderable
    &&& after.player == before.player
    &&& if is_stale(before) {
        &&& after.viewshed.is_some()
        &&& after.viewshed.unwrap().range == before.viewshed.unwrap().range
        &&& !after.viewshed.unwrap().dirty
        &&& after.viewshed.unwrap().visible_tiles.no_duplicates()
        &&& forall|i: int|
            0 <= i < after.viewshed.unwrap().visible_tiles.len() ==> map.holds_cell(
                #[trigger] after.viewshed.unwrap().visible_tiles[i],
            )
        &&& forall|i: int|
            0 <= i < after.viewshed.unwrap().visible_tiles.len() ==> within(
                #[trigger] after.viewshed.unwrap().visible_tiles[i],
                before.position.unwrap().x as int,
                before.position.unwrap().y as int,
                map.sight(before.viewshed.unwrap().range as int),
            )
        &&& map.contains(
            before.position.unwrap().x as int,
            before.position.unwrap().y as int,
        ) ==> after.viewshed.unwrap().visible_tiles.contains(
            (before.position.unwrap().x, before.position.unwrap().y),
        )
        &&& forall|c: (i32, i32)|
            after.viewshed.unwrap().visible_tiles.contains(c) <==> views_cell(
                map,
                before.position.unwrap(),
                before.viewshed.unwrap().range,
                c,
            )
    } else {
        after.viewshed == before.viewshed
    }
}

/// Every record of `after` is what the visibility system makes of the record
/// of `before` in the same place.
pub open spec fn all_refreshed(before: Seq<RecordView>, after: Seq<RecordView>, map: TileMap) -> bool {
    &&& after.len() == before.len()
    &&& forall|k: int| 0 <= k < before.len() ==> refreshed(before[k], #[trigger] after[k], map)
}

impl TileMap {
    /// The cell lies on the grid.
    pub open spec fn holds_cell(self, c: (i32, i32)) -> bool {
        self.contains(c.0 as int, c.1 as int)
    }

    /// Those of the cells that lie on the grid, in their order.
    pub open spec fn on_grid(self, cells: Seq<(i32, i32)>) -> Seq<(i32, i32)> {
        cells.filter(|c: (i32, i32)| self.holds_cell(c))
    }

    /// The grid, the tiles and the rooms are those of `other`, whatever has
    /// been seen.
    pub open spec fn same_but_flags(self, other: TileMap) -> bool {
        &&& self.width == other.width
        &&& self.height == other.height
        &&& self.tiles@ == other.tiles@
        &&& self.rooms@ == other.rooms@
        &&& self.revealed.len() == other.revealed.len()
        &&& self.visible.len() == other.visible.len()
    }

    /// No cell that `earlier` remembers has been forgotten.
    pub open spec fn remembers(self, earlier: TileMap) -> bool {
        forall|i: int| 0 <= i < earlier.revealed.len() && earlier.revealed[i] ==> #[trigger] self.revealed[i]
    }

    /// Forgets what is seen right now. What was seen at some time stays.
    pub fn clear_visible(&mut self)
        ensures
            final(self).same_but_flags(*old(self)),
            final(self).revealed@ == old(self).revealed@,
            forall|i: int| 0 <= i < final(self).visible.len() ==> !final(self).visible[i],
    {
        let n: usize = self.visible.len();
        let mut i: usize = 0;
        while i < n
            invariant
                i <= n,
                n == self.visible.len(),
                self.same_but_flags(*old(self)),
                self.revealed@ == old(self).revealed@,
                forall|j: int| 0 <= j < i ==> !self.visible[j],
            decreases n - i,
        {
            self.visible.set(i, false);
            i = i + 1;
        }
    }

    /// Marks each of the cells that lies on the grid as seen right now and as
    /// seen at some time. Cells off the grid are passed over.
    pub fn mark_visible(&mut self, cells: &Vec<(i32, i32)>)
        requires
            old(self).sized(),
        ensures
            final(self).sized(),
            final(self).same_but_flags(*old(self)),
            final(self).remembers(*old(self)),
            forall|x: int, y: int| #![trigger final(self).is_visible(x, y)]
                final(self).contains(x, y) ==> final(self).is_visible(x, y) == (old(self).is_visible(x, y)
                    || lists(cells@, x, y)),
            forall|x: int, y: int| #![trigger final(self).is_revealed(x, y)]
                final(self).contains(x, y) ==> final(self).is_revealed(x, y) == (old(self).is_revealed(
                    x,
                    y,
                ) || lists(cells@, x, y)),
    {
        let mut j: usize = 0;
        while j < cells.len()
            invariant
                j <= cells.len(),
                self.sized(),
                self.same_but_flags(*old(self)),
                self.remembers(*old(self)),
                forall|x: int, y: int| #![trigger self.is_visible(x, y)]
                    self.contains(x, y) ==> self.is_visible(x, y) == (old(self).is_visible(x, y) || lists(
                        cells@.take(j as int),
                        x,
                        y,
                    )),
                forall|x: int, y: int| #![trigger self.is_revealed(x, y)]
                    self.contains(x, y) ==> self.is_revealed(x, y) == (old(self).is_revealed(x, y)
                        || lists(cells@.take(j as int), x, y)),
            decreases cells.len() - j,
        {
            let c = cells[j];
            let ghost before = *self;
            if self.in_bounds(c.0, c.1) {
                let idx: usize = self.xy_idx(c.0, c.1);
                self.visible.set(idx, true);
                self.revealed.set(idx, true);
            }
            proof {
                assert forall|x: int, y: int| #![trigger self.is_visible(x, y)]
                    self.contains(x, y) implies self.is_visible(x, y) == (old(self).is_visible(x, y)
                    || lists(cells@.take(j + 1), x, y)) by {
                    lemma_lists_step(cells@, j as int, x, y);
                    lemma_index_in_range(self.width as int, self.height as int, x, y);
                    assert(before.is_visible(x, y) == (old(self).is_visible(x, y) || lists(
                        cells@.take(j as int),
                        x,
                        y,
                    )));
                    if self.index_of(x, y) == before.index_of(c.0 as int, c.1 as int) && before.contains(
                        c.0 as int,
                        c.1 as int,
                    ) {
                        lemma_index_unique(self.width as int, x, y, c.0 as int, c.1 as int);
                    }
                }
                assert forall|x: int, y: int| #![trigger self.is_revealed(x, y)]
                    self.contains(x, y) implies self.is_revealed(x, y) == (old(self).is_revealed(x, y)
                    || lists(cells@.take(j + 1), x, y)) by {
                    lemma_lists_step(cells@, j as int, x, y);
                    lemma_index_in_range(self.width as int, self.height as int, x, y);
                    assert(before.is_revealed(x, y) == (old(self).is_revealed(x, y) || lists(
                        cells@.take(j as int),
                        x,
                        y,
                    )));
                    if self.index_of(x, y) == before.index_of(c.0 as int, c.1 as int) && before.contains(
                        c.0 as int,
                        c.1 as int,
                    ) {
                        lemma_index_unique(self.width as int, x, y, c.0 as int, c.1 as int);
                    }
                }
            }
            j = j + 1;
        }
        assert(cells@.take(cells.len() as int) == cells@);
    }
}

/// What a level remembers it goes on remembering, over any number of frames:
/// if no cell was forgotten from `a` to `b` nor from `b` to `c`, none was
/// forgotten from `a` to `c`.
pub proof fn lemma_memory_lasts(a: TileMap, b: TileMap, c: TileMap)
    requires
        b.remembers(a),
        c.remembers(b),
        a.revealed.len() == b.revealed.len(),
    ensures
        c.remembers(a),
{
    assert forall|i: int| 0 <= i < a.revealed.len() && a.revealed[i] implies #[trigger] c.revealed[i] by {
        assert(b.revealed[i]);
    }
}

/// A cell is among the first `j + 1` of a list if it is among the first `j`
/// or is the one after them.
pub proof fn lemma_lists_step(cells: Seq<(i32, i32)>, j: int, x: int, y: int)
    requires
        0 <= j < cells.len(),
    ensures
        lists(cells.take(j + 1), x, y) == (lists(cells.take(j), x, y) || (cells[j].0 == x && cells[j].1
            == y)),
{
    let shorter = cells.take(j);
    let longer = cells.take(j + 1);
    if lists(longer, x, y) {
        let k = choose|k: int| 0 <= k < longer.len() && (#[trigger] longer[k]).0 == x && longer[k].1 == y;
        if k < j {
            assert(shorter[k] == longer[k]);
        }
    }
    if lists(shorter, x, y) {
        let k = choose|k: int| 0 <= k < shorter.len() && (#[trigger] shorter[k]).0 == x && shorter[k].1 == y;
        assert(longer[k] == shorter[k]);
    }
    if cells[j].0 == x && cells[j].1 == y {
        assert(longer[j] == cells[j]);
    }
}

/// One more entity adds what it looks over to what the entities before it see.
pub proof fn lemma_seen_step(before: Seq<RecordView>, after: Seq<RecordView>, i: int, x: int, y: int)
    requires
        0 <= i < after.len(),
        before.len() == after.len(),
        forall|k: int| 0 <= k < i ==> before[k] == after[k],
    ensures
        seen_by_first(after, i + 1, x, y) == (seen_by_first(before, i, x, y) || looks_over(after[i], x, y)),
{
    if seen_by_first(after, i + 1, x, y) {
        let k = choose|k: int| 0 <= k < i + 1 && looks_over(#[trigger] after[k], x, y);
        if k < i {
            assert(looks_over(before[k], x, y));
        }
    }
    if seen_by_first(before, i, x, y) {
        let k = choose|k: int| 0 <= k < i && looks_over(#[trigger] before[k], x, y);
        assert(looks_over(after[k], x, y));
    }
}

/// Cells that all lie on the grid are all kept.
pub proof fn lemma_on_grid_keeps_grid_cells(map: TileMap, cells: Seq<(i32, i32)>)
    requires
        forall|i: int| 0 <= i < cells.len() ==> map.holds_cell(#[trigger] cells[i]),
    ensures
        map.on_grid(cells) == cells,
    decreases cells.len(),
{
    reveal(Seq::filter);
    if cells.len() > 0 {
        lemma_on_grid_keeps_grid_cells(map, cells.drop_last());
        assert(cells.drop_last().push(cells.last()) == cells);
    }
}

impl Viewshed {
    /// Takes `cells` as what is in view now: keeps those that lie on the grid
    /// of `map`, in their order, and is then up to date.
    pub fn refresh(&mut self, cells: Vec<(i32, i32)>, map: &TileMap)
        ensures
            final(self)@ == (ViewshedView {
                visible_tiles: map.on_grid(cells@),
                range: old(self).range,
                dirty: false,
            }),
    {
        let mut kept: Vec<(i32, i32)> = Vec::new();
        let mut i: usize = 0;
        proof {
            reveal(Seq::filter);
            assert(cells@.take(0) == Seq::<(i32, i32)>::empty());
        }
        while i < cells.len()
            invariant
                i <= cells.len(),
                kept@ == map.on_grid(cells@.take(i as int)),
            decreases cells.len() - i,
        {
            let c = cells[i];
            proof {
                cells@.take(i as int).lemma_filter_push(c, |c: (i32, i32)| map.holds_cell(c));
                assert(cells@.take(i as int).push(c) == cells@.take(i + 1));
            }
            if map.in_bounds(c.0, c.1) {
                kept.push(c);
            }
            i = i + 1;
        }
        assert(cells@.take(cells.len() as int) == cells@);
        self.visible_tiles = kept;
        self.dirty = false;
    }
}

/// Computes anew what every entity sees whose view is out of date, and
/// brings what the level shows of it up to date.
pub struct VisibilitySystem {}

impl VisibilitySystem {
    /// First nothing on the level counts as seen right now. Then, for every
    /// entity with a place and a view, in turn: a view that is out of date
    /// is computed anew from the entity's place, by the field of view of
    /// `bracket_lib`, which measures the range in a straight line, and is
    /// then up to date. An entity on the grid always sees its own cell: a
    /// range below 0 counts as 0, and a range beyond `MAX_VIEW_RANGE`, for
    /// which the outside code cannot be asked, as the reach of the grid. An
    /// entity that stands off the grid sees nothing. Every cell in the view,
    /// new or old, is marked on the level as seen right now and as seen at
    /// some time.
    pub fn run(world: &mut World, map: &mut TileMap)
        requires
            world_ready(*old(world)),
            old(map).sized(),
        ensures
            world_ready(*final(world)),
            all_refreshed(world_records(*old(world)), world_records(*final(world)), *old(map)),
            final(map).sized(),
            final(map).same_but_flags(*old(map)),
            final(map).remembers(*old(map)),
            forall|x: int, y: int| #![trigger final(map).is_visible(x, y)]
                final(map).contains(x, y) ==> final(map).is_visible(x, y) == seen(
                    world_records(*final(world)),
                    x,
                    y,
                ),
            forall|x: int, y: int| #![trigger final(map).is_revealed(x, y)]
                final(map).contains(x, y) ==> final(map).is_revealed(x, y) == (old(map).is_revealed(x, y)
                    || seen(world_records(*final(world)), x, y)),
    {
        let records = snapshot(world);
        let ghost r0 = world_records(*world);
        let ghost m0 = *map;
        map.clear_visible();
        proof {
            assert forall|x: int, y: int| #![trigger map.is_visible(x, y)]
                map.contains(x, y) implies !map.is_visible(x, y) by {
                lemma_index_in_range(map.width as int, map.height as int, x, y);
            }
        }
        let mut i: usize = 0;
        while i < records.len()
            invariant
                i <= records.len(),
                world_ready(*world),
                views_of(records@) == r0,
                distinct_entities(r0),
                m0.sized(),
                map.sized(),
                map.same_but_flags(m0),
                map.remembers(m0),
                world_records(*world).len() == r0.len(),
                forall|k: int| 0 <= k < i ==> refreshed(r0[k], #[trigger] world_records(*world)[k], m0),
                forall|k: int| i <= k < r0.len() ==> #[trigger] world_records(*world)[k] == r0[k],
                forall|x: int, y: int| #![trigger map.is_visible(x, y)]
                    map.contains(x, y) ==> map.is_visible(x, y) == seen_by_first(
                        world_records(*world),
                        i as int,
                        x,
                        y,
                    ),
                forall|x: int, y: int| #![trigger map.is_revealed(x, y)]
                    map.contains(x, y) ==> map.is_revealed(x, y) == (m0.is_revealed(x, y)
                        || seen_by_first(world_records(*world), i as int, x, y)),
            decreases records.len() - i,
        {
            let ghost cur = world_records(*world);
            let ghost marked = *map;
            let record = &records[i];
            assert(record@ == r0[i as int]) by {
                assert(views_of(records@)[i as int] == records@[i as int]@);
            }
            assert(cur[i as int] == r0[i as int]);
            match (&record.position, &record.viewshed) {
                (Some(position), Some(viewshed)) => {
                    if viewshed.dirty {
                        let cells = if map.in_bounds(position.x, position.y) {
                            let range: i32 = map.view_range(viewshed.range);
                            field_of_view_cells(map, position.x, position.y, range)
                        } else {
                            Vec::new()
                        };
                        let mut fresh = Viewshed::new(viewshed.range);
                        fresh.refresh(cells, map);
                        proof {
                            lemma_on_grid_keeps_grid_cells(*map, cells@);
                            assert(fresh@.visible_tiles == cells@);
                            assert(map.opacity() == m0.opacity());
                        }
                        map.mark_visible(&fresh.visible_tiles);
                        assert(has_entity(cur, record.entity)) by {
                            assert(cur[i as int].entity == record.entity);
                        }
                        store_viewshed(world, record.entity, fresh);
                    } else {
                        map.mark_visible(&viewshed.visible_tiles);
                    }
                },
                _ => {},
            }
            proof {
                let now = world_records(*world);
                assert forall|k: int| 0 <= k < r0.len() && k != i implies #[trigger] now[k] == cur[k] by {
                    assert(r0[k].entity != r0[i as int].entity);
                }
                assert(refreshed(r0[i as int], now[i as int], m0));
                assert forall|x: int, y: int| #![trigger map.is_visible(x, y)]
                    map.contains(x, y) implies map.is_visible(x, y) == seen_by_first(now, i + 1, x, y) by {
                    lemma_seen_step(cur, now, i as int, x, y);
                    assert(marked.is_visible(x, y) == seen_by_first(cur, i as int, x, y));
                }
                assert forall|x: int, y: int| #![trigger map.is_revealed(x, y)]
                    map.contains(x, y) implies map.is_revealed(x, y) == (m0.is_revealed(x, y)
                    || seen_by_first(now, i + 1, x, y)) by {
                    lemma_seen_step(cur, now, i as int, x, y);
                    assert(marked.is_revealed(x, y) == (m0.is_revealed(x, y) || seen_by_first(
                        cur,
                        i as int,
                        x,
                        y,
                    )));
                }
            }
            i = i + 1;
        }
    }
}

} // verus!
