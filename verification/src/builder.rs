use crate::map::{lemma_index_in_range, lemma_index_unique, Tile, TileMap};
use crate::random::{random_between, roll_die};
use crate::reach::{
    between, lemma_block_linked, lemma_elbow_linked, lemma_linked_back, lemma_linked_self,
    lemma_linked_stays, lemma_linked_trans,
};
use crate::rect::{lemma_mid_inside, lemma_overlap_symmetric, Rect};
use bracket_lib::prelude::RandomNumberGenerator;
use vstd::prelude::*;

verus! {

/// What a level is built from. Every value is fixed when the level is made.
#[derive(Clone, Copy, Debug, PartialEq, Eq, Structural)]
pub struct LevelConfig {
    /// Columns of the grid.
    pub width: i32,
    /// Rows of the grid.
    pub height: i32,
    /// How many rooms are proposed at most.
    pub attempts: u32,
    /// How many rooms are accepted at most.
    pub max_rooms: u32,
    /// The least width and height of a room.
    pub min_size: i32,
    /// The greatest width and height of a room.
    pub max_size: i32,
    /// How many obstacles the scatter strategy throws.
    pub scatter_trials: u32,
    /// How far the player sees.
    pub view_range: i32,
}

/// The two ways to build a level.
#[derive(Clone, Copy, Debug, PartialEq, Eq, Structural)]
pub enum Strategy {
    /// An open hall with obstacles thrown in at random.
    Scatter,
    /// Rooms that keep their distance, joined by corridors.
    RoomsAndCorridors,
}

/// Why no level was built.
#[derive(Clone, Copy, Debug, PartialEq, Eq, Structural)]
pub enum GenerationError {
    /// The configuration describes no grid, or rooms that cannot be placed on it.
    InvalidConfig,
    /// No room was accepted, so the level has no entry point.
    NoRooms,
}

/// The corridor from `from` to `to` runs over the cell `(x, y)`. A corridor is
/// a row and a column that meet in a corner: the row leaves `from` if
/// `row_first`, else it arrives at `to`.
pub open spec fn on_corridor(from: (int, int), to: (int, int), row_first: bool, x: int, y: int) -> bool {
    if row_first {
        (y == from.1 && between(x, from.0, to.0)) || (x == to.0 && between(y, from.1, to.1))
    } else {
        (x == from.0 && between(y, from.1, to.1)) || (y == to.1 && between(x, from.0, to.0))
    }
}

/// A proposed room is taken on a grid of the given size on which the rooms
/// of `stand` stand: fewer than `max_rooms` stand, the room lies between the
/// walls of the outer ring and is at least two cells wide and high, and it
/// keeps its distance from every room that stands.
pub open spec fn takes(width: int, height: int, stand: Seq<Rect>, room: Rect, max_rooms: int) -> bool {
    &&& stand.len() < max_rooms
    &&& 0 <= room.x1
    &&& room.x1 + 2 <= room.x2 <= width - 2
    &&& 0 <= room.y1
    &&& room.y1 + 2 <= room.y2 <= height - 2
    &&& forall|k: int| 0 <= k < stand.len() ==> !room.crowds(#[trigger] stand[k])
}

/// The rooms that stand after the proposals were gone through in their
/// order: each is put after the rooms that stand if it is taken, and is
/// passed over if not.
pub open spec fn rooms_after(
    width: int,
    height: int,
    stand: Seq<Rect>,
    proposals: Seq<(Rect, bool)>,
    max_rooms: int,
) -> Seq<Rect>
    decreases proposals.len(),
{
    if proposals.len() == 0 {
        stand
    } else {
        let earlier = rooms_after(width, height, stand, proposals.drop_last(), max_rooms);
        if takes(width, height, earlier, proposals.last().0, max_rooms) {
            earlier.push(proposals.last().0)
        } else {
            earlier
        }
    }
}

/// Placing the room opens the cell `(x, y)`: the cell is off the outer ring,
/// and the room encloses it or the corridor from the room that stands last
/// runs over it.
pub open spec fn opens(
    width: int,
    height: int,
    stand: Seq<Rect>,
    room: Rect,
    row_first: bool,
    x: int,
    y: int,
) -> bool {
    &&& 1 <= x <= width - 2
    &&& 1 <= y <= height - 2
    &&& (room.encloses(x, y) || (stand.len() > 0 && on_corridor(
        stand[stand.len() - 1].mid(),
        room.mid(),
        row_first,
        x,
        y,
    )))
}

/// Going through the proposals in their order opens the cell `(x, y)`: one
/// of them is taken, and placing it opens the cell.
pub open spec fn opened_by(
    width: int,
    height: int,
    stand: Seq<Rect>,
    proposals: Seq<(Rect, bool)>,
    max_rooms: int,
    x: int,
    y: int,
) -> bool
    decreases proposals.len(),
{
    if proposals.len() == 0 {
        false
    } else {
        let earlier = rooms_after(width, height, stand, proposals.drop_last(), max_rooms);
        opened_by(width, height, stand, proposals.drop_last(), max_rooms, x, y) || (takes(
            width,
            height,
            earlier,
            proposals.last().0,
            max_rooms,
        ) && opens(width, height, earlier, proposals.last().0, proposals.last().1, x, y))
    }
}

impl LevelConfig {
    /// A room that the generator may propose: of an allowed width and height,
    /// and between the walls of the outer ring.
    pub open spec fn proposes(self, room: Rect) -> bool {
        &&& self.min_size <= room.x2 - room.x1 <= self.max_size
        &&& self.min_size <= room.y2 - room.y1 <= self.max_size
        &&& 0 <= room.x1
        &&& room.x2 <= self.width - 2
        &&& 0 <= room.y1
        &&& room.y2 <= self.height - 2
    }

    /// The grid can be stored.
    pub open spec fn grid_ok(self) -> bool {
        TileMap::dims_ok(self.width as int, self.height as int)
    }

    /// The grid can be stored, a room is at least two cells wide and high, and
    /// the largest room fits between the walls of the outer ring.
    pub open spec fn rooms_ok(self) -> bool {
        &&& self.grid_ok()
        &&& 2 <= self.min_size <= self.max_size
        &&& self.max_size + 2 <= self.width
        &&& self.max_size + 2 <= self.height
    }

    /// The usual level: 80 by 50 cells, up to 30 rooms of 6 to 10 cells, 400
    /// scattered obstacles, and a view of 8 cells.
    pub fn standard() -> (c: LevelConfig)
        ensures
            c == (LevelConfig {
                width: 80,
                height: 50,
                attempts: 30,
                max_rooms: 30,
                min_size: 6,
                max_size: 10,
                scatter_trials: 400,
                view_range: 8,
            }),
            c.rooms_ok(),
    {
        assert(80 * 50 <= i32::MAX) by (nonlinear_arith);
        LevelConfig {
            width: 80,
            height: 50,
            attempts: 30,
            max_rooms: 30,
            min_size: 6,
            max_size: 10,
            scatter_trials: 400,
            view_range: 8,
        }
    }

    /// Whether a grid of this size can be stored.
    pub fn has_grid(&self) -> (b: bool)
        ensures
            b == self.grid_ok(),
    {
        if self.width < 1 || self.height < 1 {
            return false;
        }
        assert(0 < self.width * self.height <= i32::MAX * i32::MAX) by (nonlinear_arith)
            requires
                1 <= self.width <= i32::MAX,
                1 <= self.height <= i32::MAX,
        ;
        (self.width as i64) * (self.height as i64) <= i32::MAX as i64
    }

    /// Whether rooms of the configured sizes can be placed on the grid.
    pub fn has_room_for_rooms(&self) -> (b: bool)
        ensures
            b == self.rooms_ok(),
    {
        self.has_grid() && 2 <= self.min_size && self.min_size <= self.max_size && self.max_size
            <= self.width - 2 && self.max_size <= self.height - 2
    }
}

impl TileMap {
    /// The room lies between the walls of the outer ring and is at least two
    /// cells wide and high, so that it encloses its own midpoint.
    pub open spec fn room_fits(self, room: Rect) -> bool {
        &&& 0 <= room.x1
        &&& room.x1 + 2 <= room.x2 <= self.width - 2
        &&& 0 <= room.y1
        &&& room.y1 + 2 <= room.y2 <= self.height - 2
    }

    /// The room fits and keeps its distance from every room placed so far.
    pub open spec fn room_free(self, room: Rect) -> bool {
        &&& self.room_fits(room)
        &&& forall|k: int| 0 <= k < self.rooms.len() ==> !room.crowds(#[trigger] self.rooms[k])
    }

    /// Every room fits on the grid.
    pub open spec fn rooms_fit(self) -> bool {
        forall|k: int| 0 <= k < self.rooms.len() ==> self.room_fits(#[trigger] self.rooms[k])
    }

    /// Every cell that a room encloses is open ground.
    pub open spec fn rooms_open(self) -> bool {
        forall|k: int, x: int, y: int|
            0 <= k < self.rooms.len() && (#[trigger] self.rooms[k]).encloses(x, y) ==> #[trigger] self.is_floor(x, y)
    }

    /// No room overlaps another, even when grown by one cell on every side.
    pub open spec fn rooms_apart(self) -> bool {
        forall|i: int, j: int|
            0 <= i < self.rooms.len() && 0 <= j < self.rooms.len() && i != j ==> !(#[trigger] self.rooms[i]).crowds(
                #[trigger] self.rooms[j],
            )
    }

    /// The midpoint of every room can be walked to from the midpoint of the first.
    pub open spec fn rooms_linked(self) -> bool {
        forall|k: int|
            0 <= k < self.rooms.len() ==> self.linked(self.rooms[0].mid(), (#[trigger] self.rooms[k]).mid())
    }

    /// Every cell of open ground can be walked to from the midpoint of the
    /// first room: no ground is open before a room is placed.
    pub open spec fn ground_linked(self) -> bool {
        forall|x: int, y: int| #![trigger self.tile(x, y)]
            self.is_floor(x, y) ==> self.rooms.len() > 0 && self.linked(self.rooms[0].mid(), (x, y))
    }

    /// What holds of the rooms of a level, however many were placed.
    pub open spec fn rooms_wf(self) -> bool {
        &&& self.rooms_fit()
        &&& self.rooms_open()
        &&& self.rooms_apart()
        &&& self.rooms_linked()
        &&& self.ground_linked()
    }

    /// Nothing has been seen yet.
    pub open spec fn unseen(self) -> bool {
        &&& forall|i: int| 0 <= i < self.revealed.len() ==> !self.revealed[i]
        &&& forall|i: int| 0 <= i < self.visible.len() ==> !self.visible[i]
    }

    /// The tiles after `room` was added to `before`: the cells of the room are
    /// open ground, and so are those of the corridor from the midpoint of the
    /// room placed last, if there is one. Every other tile is as it was.
    pub open spec fn room_added(self, before: TileMap, room: Rect, row_first: bool) -> bool {
        forall|x: int, y: int| #![trigger self.tile(x, y)]
            self.contains(x, y) ==> self.tile(x, y) == if self.interior(x, y) && (room.encloses(x, y) || (
            before.rooms.len() > 0 && on_corridor(
                before.rooms[before.rooms.len() - 1].mid(),
                room.mid(),
                row_first,
                x,
                y,
            ))) {
                Tile::Floor
            } else {
                before.tile(x, y)
            }
    }

    /// Whether the room fits on the grid and keeps its distance from every
    /// room placed so far.
    pub fn room_is_free(&self, room: &Rect) -> (free: bool)
        requires
            self.wf(),
        ensures
            free == self.room_free(*room),
    {
        if !(0 <= room.x1 && 2 <= room.x2 && room.x1 <= room.x2 - 2 && room.x2 <= self.width - 2
            && 0 <= room.y1 && 2 <= room.y2 && room.y1 <= room.y2 - 2 && room.y2 <= self.height
            - 2) {
            return false;
        }
        let mut k: usize = 0;
        while k < self.rooms.len()
            invariant
                k <= self.rooms.len(),
                forall|j: int| 0 <= j < k ==> !room.crowds(#[trigger] self.rooms[j]),
            decreases self.rooms.len() - k,
        {
            if room.intersects_with_margin(&self.rooms[k]) {
                return false;
            }
            k = k + 1;
        }
        true
    }

    /// Places a free room: opens its cells, joins its midpoint to the midpoint
    /// of the room placed last by a corridor, row first or column first, and
    /// puts the room at the end of the list of rooms.
    pub fn add_room(&mut self, room: Rect, row_first: bool)
        requires
            old(self).wf(),
            old(self).rooms_wf(),
            old(self).room_free(room),
        ensures
            final(self).wf(),
            final(self).rooms_wf(),
            final(self).width == old(self).width,
            final(self).height == old(self).height,
            final(self).revealed@ == old(self).revealed@,
            final(self).visible@ == old(self).visible@,
            final(self).rooms@ == old(self).rooms@.push(room),
            final(self).room_added(*old(self), room, row_first),
    {
        let ghost before = *self;
        self.apply_room_to_map(&room);
        if self.rooms.len() > 0 {
            let (new_x, new_y) = room.center();
            let (prev_x, prev_y) = self.rooms[self.rooms.len() - 1].center();
            if row_first {
                self.apply_horizontal_tunnel(prev_x, new_x, prev_y);
                self.apply_vertical_tunnel(prev_y, new_y, new_x);
            } else {
                self.apply_vertical_tunnel(prev_y, new_y, prev_x);
                self.apply_horizontal_tunnel(prev_x, new_x, new_y);
            }
        }
        assert(self.room_added(before, room, row_first));
        let ghost carved = *self;
        self.rooms.push(room);
        proof {
            assert(self.room_added(before, room, row_first)) by {
                assert forall|x: int, y: int| #![trigger self.tile(x, y)]
                    self.contains(x, y) implies self.tile(x, y) == carved.tile(x, y) by {}
            }
            lemma_room_added_keeps_rooms(before, *self, room, row_first);
            lemma_room_added_keeps_ground(before, *self, room, row_first);
        }
    }
}

impl TileMap {
    /// Every room is as wide and as high as the configuration allows.
    pub open spec fn rooms_sized(self, config: LevelConfig) -> bool {
        forall|k: int|
            0 <= k < self.rooms.len() ==> {
                &&& config.min_size <= (#[trigger] self.rooms[k]).x2 - self.rooms[k].x1 <= config.max_size
                &&& config.min_size <= self.rooms[k].y2 - self.rooms[k].y1 <= config.max_size
            }
    }

    /// Some room encloses the cell `(x, y)`.
    pub open spec fn in_some_room(self, x: int, y: int) -> bool {
        exists|k: int| 0 <= k < self.rooms.len() && (#[trigger] self.rooms[k]).encloses(x, y)
    }

    /// The corridor from some room to the room placed after it runs over the
    /// cell `(x, y)`, where `legs[k]` tells whether the corridor to room `k`
    /// starts with its row.
    pub open spec fn on_some_corridor(self, legs: Seq<bool>, x: int, y: int) -> bool {
        exists|k: int|
            1 <= k < self.rooms.len() && on_corridor(
                self.rooms[k - 1].mid(),
                (#[trigger] self.rooms[k]).mid(),
                legs[k],
                x,
                y,
            )
    }

    /// The open ground is that of the rooms and of the corridors from each
    /// room to the next, and nothing else.
    pub open spec fn laid_out(self, legs: Seq<bool>) -> bool {
        &&& legs.len() == self.rooms.len()
        &&& forall|x: int, y: int| #![trigger self.tile(x, y)]
            self.contains(x, y) ==> (self.tile(x, y) == Tile::Floor) == (self.in_some_room(x, y)
                || self.on_some_corridor(legs, x, y))
    }

    /// The open ground is the interior of the grid without the cells picked.
    pub open spec fn scattered_by(self, picks: Seq<(int, int)>) -> bool {
        forall|x: int, y: int| #![trigger self.tile(x, y)]
            self.contains(x, y) ==> (self.tile(x, y) == Tile::Floor) == (self.interior(x, y)
                && !picks.contains((x, y)))
    }

    /// The cells are all on the grid.
    pub open spec fn holds_all(self, picks: Seq<(int, int)>) -> bool {
        forall|i: int| 0 <= i < picks.len() ==> self.contains((#[trigger] picks[i]).0, picks[i].1)
    }

    /// What holds of every level of rooms and corridors built from `config`,
    /// whatever was drawn at random: the level and its rooms are in order,
    /// nothing is seen yet, there is at least one room and no more than
    /// allowed, each of an allowed size, and the open ground is that of the
    /// rooms and of the corridors between them, for some choice of the first
    /// leg of each corridor.
    pub open spec fn built_from(self, config: LevelConfig) -> bool {
        &&& self.wf()
        &&& self.rooms_wf()
        &&& self.unseen()
        &&& self.width == config.width
        &&& self.height == config.height
        &&& 1 <= self.rooms.len() <= config.attempts
        &&& self.rooms.len() <= config.max_rooms
        &&& self.rooms_sized(config)
        &&& exists|legs: Seq<bool>| self.laid_out(legs)
        &&& exists|proposals: Seq<(Rect, bool)>| #[trigger] self.drawn_from(config, proposals)
    }

    /// The level is what going through `proposals` makes of a level of the
    /// same size on which the rooms of `before` stand and the ground of
    /// `before` is open.
    pub open spec fn placed_from(self, before: TileMap, proposals: Seq<(Rect, bool)>, max_rooms: int) -> bool {
        &&& self.rooms@ == rooms_after(
            before.width as int,
            before.height as int,
            before.rooms@,
            proposals,
            max_rooms,
        )
        &&& forall|x: int, y: int| #![trigger self.tile(x, y)]
            self.contains(x, y) ==> (self.tile(x, y) == Tile::Floor) == (before.tile(x, y) == Tile::Floor
                || opened_by(
                before.width as int,
                before.height as int,
                before.rooms@,
                proposals,
                max_rooms,
                x,
                y,
            ))
    }

    /// The level is what going through `proposals`, each of them one that the
    /// generator may propose, has made so far of the level `blank`, which is
    /// of the configured size and has no room and no open ground.
    #[verifier::opaque]
    pub open spec fn going(self, blank: TileMap, config: LevelConfig, proposals: Seq<(Rect, bool)>) -> bool {
        &&& blank.all_wall()
        &&& blank.rooms@ == Seq::<Rect>::empty()
        &&& blank.width == config.width
        &&& blank.height == config.height
        &&& self.width == config.width
        &&& self.height == config.height
        &&& forall|k: int| 0 <= k < proposals.len() ==> config.proposes((#[trigger] proposals[k]).0)
        &&& self.placed_from(blank, proposals, config.max_rooms as int)
    }

    /// The level is what the generator makes of `proposals`: a room was
    /// proposed for every attempt, or until as many rooms stood as are
    /// allowed; each was one that the generator may propose; and the rooms
    /// and the open ground are those that going through the proposals gives
    /// on a level without room or open ground.
    pub open spec fn drawn_from(self, config: LevelConfig, proposals: Seq<(Rect, bool)>) -> bool {
        &&& proposals.len() <= config.attempts
        &&& proposals.len() == config.attempts || self.rooms.len() == config.max_rooms
        &&& forall|k: int| 0 <= k < proposals.len() ==> config.proposes((#[trigger] proposals[k]).0)
        &&& self.rooms@ == rooms_after(
            self.width as int,
            self.height as int,
            Seq::empty(),
            proposals,
            config.max_rooms as int,
        )
        &&& forall|x: int, y: int| #![trigger self.tile(x, y)]
            self.contains(x, y) ==> (self.tile(x, y) == Tile::Floor) == opened_by(
                self.width as int,
                self.height as int,
                Seq::empty(),
                proposals,
                config.max_rooms as int,
                x,
                y,
            )
    }

    /// What holds of every scattered level built from `config`, whatever was
    /// drawn at random: the level is in order, nothing is seen yet, there is
    /// no room, and the open ground is the interior of the grid without
    /// `config.scatter_trials` cells picked on the grid, not all of them
    /// different.
    pub open spec fn scattered_from(self, config: LevelConfig) -> bool {
        &&& self.wf()
        &&& self.unseen()
        &&& self.width == config.width
        &&& self.height == config.height
        &&& self.rooms@ == Seq::<Rect>::empty()
        &&& exists|picks: Seq<(int, int)>|
            picks.len() == config.scatter_trials && self.holds_all(picks) && #[trigger] self.scattered_by(
                picks,
            )
    }

    /// Turns the cell `(x, y)` into wall.
    pub fn place_wall(&mut self, x: i32, y: i32)
        requires
            old(self).wf(),
            old(self).contains(x as int, y as int),
        ensures
            final(self).wf(),
            final(self).same_but_tiles(*old(self)),
            forall|u: int, v: int| #![trigger final(self).tile(u, v)]
                final(self).contains(u, v) ==> final(self).tile(u, v) == if u == x && v == y {
                    Tile::Wall
                } else {
                    old(self).tile(u, v)
                },
    {
        let idx: usize = self.xy_idx(x, y);
        let ghost before = *self;
        self.tiles.set(idx, Tile::Wall);
        proof {
            assert forall|u: int, v: int| #![trigger self.tile(u, v)]
                self.contains(u, v) implies self.tile(u, v) == if u == x && v == y {
                Tile::Wall
            } else {
                before.tile(u, v)
            } by {
                lemma_index_in_range(self.width as int, self.height as int, u, v);
                if self.index_of(u, v) == idx as int {
                    lemma_index_unique(self.width as int, u, v, x as int, y as int);
                }
            }
            assert forall|u: int, v: int| self.on_border(u, v) implies #[trigger] self.tile(u, v)
                == Tile::Wall by {
                assert(before.tile(u, v) == Tile::Wall);
            }
        }
    }

    /// Builds a level by the scatter strategy: an open hall inside the wall of
    /// the outer ring, into which `config.scatter_trials` cells, each drawn
    /// at random from the whole grid, are turned into wall. Nothing promises
    /// that every open cell can be walked to.
    ///
    /// Fails with `InvalidConfig` exactly where no grid of the configured
    /// size can be stored.
    pub fn new_map_scatter(rng: &mut RandomNumberGenerator, config: &LevelConfig) -> (r: Result<
        TileMap,
        GenerationError,
    >)
        ensures
            r.is_ok() == config.grid_ok(),
            r matches Ok(m) ==> m.scattered_from(*config),
            r matches Err(e) ==> e == GenerationError::InvalidConfig,
    {
        let mut map = match TileMap::new(config.width, config.height) {
            Some(m) => m,
            None => { return Err(GenerationError::InvalidConfig); },
        };
        map.carve(1, config.width - 2, 1, config.height - 2);
        let ghost mut picks: Seq<(int, int)> = Seq::empty();
        let mut i: u32 = 0;
        while i < config.scatter_trials
            invariant
                i <= config.scatter_trials,
                map.wf(),
                map.unseen(),
                map.width == config.width,
                map.height == config.height,
                map.rooms@ == Seq::<Rect>::empty(),
                picks.len() == i,
                map.holds_all(picks),
                map.scattered_by(picks),
            decreases config.scatter_trials - i,
        {
            let x: i32 = random_between(rng, 0, map.width);
            let y: i32 = random_between(rng, 0, map.height);
            let ghost before = map;
            let ghost earlier = picks;
            map.place_wall(x, y);
            proof {
                picks = earlier.push((x as int, y as int));
                assert forall|u: int, v: int| #![trigger map.tile(u, v)] map.contains(u, v) implies (map.tile(
                    u,
                    v,
                ) == Tile::Floor) == (map.interior(u, v) && !picks.contains((u, v))) by {
                    if earlier.contains((u, v)) {
                        let k = choose|k: int| 0 <= k < earlier.len() && earlier[k] == (u, v);
                        assert(picks[k] == (u, v));
                    }
                    if picks.contains((u, v)) && !(u == x && v == y) {
                        let k = choose|k: int| 0 <= k < picks.len() && picks[k] == (u, v);
                        assert(earlier[k] == (u, v));
                    }
                    if u == x && v == y {
                        assert(picks[earlier.len() as int] == (u, v));
                    }
                }
                assert forall|k: int| 0 <= k < picks.len() implies map.contains(
                    (#[trigger] picks[k]).0,
                    picks[k].1,
                ) by {
                    if k < earlier.len() {
                        assert(picks[k] == earlier[k]);
                    }
                }
            }
            i = i + 1;
        }
        Ok(map)
    }

    /// Builds a level by the rooms-and-corridors strategy. Up to
    /// `config.attempts` times, and until `config.max_rooms` rooms stand, a
    /// room of random size is proposed at a random place between the walls of
    /// the outer ring. It is accepted if it is free, that is if it keeps its
    /// distance from every room accepted before; an accepted room is opened
    /// and joined to the room accepted before it by a corridor whose first
    /// leg, row or column, a coin decides.
    ///
    /// Fails with `InvalidConfig` exactly where the configuration leaves no
    /// place for a room, and else with `NoRooms` exactly where it allows no
    /// attempt or no room: the first room proposed is always accepted.
    pub fn new_map_rooms_and_corridors(rng: &mut RandomNumberGenerator, config: &LevelConfig) -> (r:
        Result<TileMap, GenerationError>)
        ensures
            r.is_ok() == (config.rooms_ok() && config.attempts >= 1 && config.max_rooms >= 1),
            r matches Ok(m) ==> m.built_from(*config),
            r matches Err(e) ==> (e == GenerationError::InvalidConfig) == !config.rooms_ok(),
            r matches Err(e) ==> e == GenerationError::InvalidConfig || e == GenerationError::NoRooms,
    {
        if !config.has_room_for_rooms() {
            return Err(GenerationError::InvalidConfig);
        }
        let mut map = match TileMap::new(config.width, config.height) {
            Some(m) => m,
            None => { return Err(GenerationError::InvalidConfig); },
        };
        let ghost blank = map;
        let ghost mut legs: Seq<bool> = Seq::empty();
        let ghost mut proposals: Seq<(Rect, bool)> = Seq::empty();
        assert(map.going(blank, *config, proposals)) by {
            reveal(TileMap::going);
        }
        let mut i: u32 = 0;
        while i < config.attempts && map.rooms.len() < config.max_rooms as usize
            invariant
                config.rooms_ok(),
                proposals.len() == i,
                map.going(blank, *config, proposals),
                map.laid_out(legs),
                map.wf(),
                map.rooms_wf(),
                map.unseen(),
                map.width == config.width,
                map.height == config.height,
                i <= config.attempts,
                map.rooms.len() <= i,
                map.rooms.len() <= config.max_rooms,
                i >= 1 ==> map.rooms.len() >= 1,
                map.rooms_sized(*config),
            decreases config.attempts - i,
        {
            let w: i32 = random_between(rng, config.min_size, config.max_size + 1);
            let h: i32 = random_between(rng, config.min_size, config.max_size + 1);
            let x: i32 = roll_die(rng, map.width - w - 1) - 1;
            let y: i32 = roll_die(rng, map.height - h - 1) - 1;
            let room = Rect::new(x, y, w, h);
            let ghost before = map;
            let ghost mut leg = true;
            if map.room_is_free(&room) {
                let row_first: bool = map.rooms.len() == 0 || random_between(rng, 0, 2) == 1;
                map.add_room(room, row_first);
                proof {
                    leg = row_first;
                    lemma_room_added_lays_out(before, map, room, row_first, legs);
                    legs = legs.push(row_first);
                    assert forall|k: int| 0 <= k < map.rooms.len() implies {
                        &&& config.min_size <= (#[trigger] map.rooms[k]).x2 - map.rooms[k].x1
                            <= config.max_size
                        &&& config.min_size <= map.rooms[k].y2 - map.rooms[k].y1 <= config.max_size
                    } by {
                        if k < before.rooms.len() {
                            assert(map.rooms[k] == before.rooms[k]);
                        }
                    }
                }
            }
            proof {
                lemma_going_on(blank, before, map, *config, proposals, room, leg);
                proposals = proposals.push((room, leg));
            }
            i = i + 1;
        }
        if map.rooms.len() == 0 {
            Err(GenerationError::NoRooms)
        } else {
            proof {
                lemma_gone(blank, map, *config, proposals);
            }
            Ok(map)
        }
    }

    /// Goes through one proposal: places the room as `add_room` does if
    /// fewer than `max_rooms` rooms stand and the room is free, and passes
    /// it over if not.
    pub fn place_room(&mut self, room: Rect, row_first: bool, max_rooms: u32) -> (placed: bool)
        requires
            old(self).wf(),
            old(self).rooms_wf(),
        ensures
            final(self).wf(),
            final(self).rooms_wf(),
            final(self).width == old(self).width,
            final(self).height == old(self).height,
            final(self).revealed@ == old(self).revealed@,
            final(self).visible@ == old(self).visible@,
            placed == takes(
                old(self).width as int,
                old(self).height as int,
                old(self).rooms@,
                room,
                max_rooms as int,
            ),
            placed ==> final(self).rooms@ == old(self).rooms@.push(room) && final(self).room_added(
                *old(self),
                room,
                row_first,
            ),
            !placed ==> final(self).rooms@ == old(self).rooms@ && final(self).tiles@ == old(self).tiles@,
    {
        if self.rooms.len() < max_rooms as usize && self.room_is_free(&room) {
            self.add_room(room, row_first);
            true
        } else {
            false
        }
    }

    /// Goes through the proposals in their order, each a room and whether
    /// its corridor starts with the row: a room is placed as `add_room` does
    /// if fewer than `max_rooms` rooms stand and the room is free, and is
    /// passed over if not.
    pub fn place_rooms(&mut self, proposals: &Vec<(Rect, bool)>, max_rooms: u32)
        requires
            old(self).wf(),
            old(self).rooms_wf(),
        ensures
            final(self).wf(),
            final(self).rooms_wf(),
            final(self).width == old(self).width,
            final(self).height == old(self).height,
            final(self).revealed@ == old(self).revealed@,
            final(self).visible@ == old(self).visible@,
            final(self).placed_from(*old(self), proposals@, max_rooms as int),
    {
        let ghost start = *self;
        assert(proposals@.take(0) =~= Seq::<(Rect, bool)>::empty());
        let mut i: usize = 0;
        while i < proposals.len()
            invariant
                i <= proposals.len(),
                start.wf(),
                self.wf(),
                self.rooms_wf(),
                self.width == start.width,
                self.height == start.height,
                self.revealed@ == start.revealed@,
                self.visible@ == start.visible@,
                self.placed_from(start, proposals@.take(i as int), max_rooms as int),
            decreases proposals.len() - i,
        {
            let (room, row_first) = proposals[i];
            let ghost before = *self;
            let placed: bool = self.place_room(room, row_first, max_rooms);
            proof {
                lemma_place_step(
                    start,
                    before,
                    *self,
                    proposals@.take(i as int),
                    room,
                    row_first,
                    max_rooms as int,
                );
                assert(proposals@.take(i as int).push((room, row_first)) =~= proposals@.take(i + 1));
            }
            i = i + 1;
        }
        assert(proposals@.take(proposals.len() as int) =~= proposals@);
    }

    /// Builds a level by the strategy named.
    pub fn generate(strategy: Strategy, rng: &mut RandomNumberGenerator, config: &LevelConfig) -> (r:
        Result<TileMap, GenerationError>)
        ensures
            strategy == Strategy::Scatter ==> {
                &&& r.is_ok() == config.grid_ok()
                &&& r matches Ok(m) ==> m.scattered_from(*config)
                &&& r matches Err(e) ==> e == GenerationError::InvalidConfig
            },
            strategy == Strategy::RoomsAndCorridors ==> {
                &&& r.is_ok() == (config.rooms_ok() && config.attempts >= 1 && config.max_rooms >= 1)
                &&& r matches Ok(m) ==> m.built_from(*config)
                &&& r matches Err(e) ==> (e == GenerationError::InvalidConfig) == !config.rooms_ok()
                &&& r matches Err(e) ==> e == GenerationError::InvalidConfig || e
                    == GenerationError::NoRooms
            },
    {
        match strategy {
            Strategy::Scatter => Self::new_map_scatter(rng, config),
            Strategy::RoomsAndCorridors => Self::new_map_rooms_and_corridors(rng, config),
        }
    }
}

/// Going through one proposal more: if the level `mid` is what `earlier`
/// makes of `before`, and `after` is `mid` with the room placed where it is
/// taken and as it was where not, then `after` is what `earlier` followed by
/// the proposal makes of `before`.
pub proof fn lemma_place_step(
    before: TileMap,
    mid: TileMap,
    after: TileMap,
    earlier: Seq<(Rect, bool)>,
    room: Rect,
    row_first: bool,
    max_rooms: int,
)
    requires
        mid.width == before.width,
        mid.height == before.height,
        after.width == before.width,
        after.height == before.height,
        mid.placed_from(before, earlier, max_rooms),
        takes(mid.width as int, mid.height as int, mid.rooms@, room, max_rooms) ==> after.rooms@
            == mid.rooms@.push(room) && after.room_added(mid, room, row_first),
        !takes(mid.width as int, mid.height as int, mid.rooms@, room, max_rooms) ==> after.rooms@
            == mid.rooms@ && after.tiles@ == mid.tiles@,
    ensures
        after.placed_from(before, earlier.push((room, row_first)), max_rooms),
{
    let longer = earlier.push((room, row_first));
    assert(longer.drop_last() =~= earlier);
    assert(longer.last() == (room, row_first));
    assert forall|x: int, y: int| #![trigger after.tile(x, y)] after.contains(x, y) implies (after.tile(x, y)
        == Tile::Floor) == (before.tile(x, y) == Tile::Floor || opened_by(
        before.width as int,
        before.height as int,
        before.rooms@,
        longer,
        max_rooms,
        x,
        y,
    )) by {
        assert((mid.tile(x, y) == Tile::Floor) == (before.tile(x, y) == Tile::Floor || opened_by(
            before.width as int,
            before.height as int,
            before.rooms@,
            earlier,
            max_rooms,
            x,
            y,
        )));
    }
}

/// One attempt of the generator more: the level goes on being what the
/// proposals make of the blank level.
pub proof fn lemma_going_on(
    blank: TileMap,
    mid: TileMap,
    after: TileMap,
    config: LevelConfig,
    earlier: Seq<(Rect, bool)>,
    room: Rect,
    row_first: bool,
)
    requires
        mid.going(blank, config, earlier),
        config.proposes(room),
        after.width == mid.width,
        after.height == mid.height,
        takes(mid.width as int, mid.height as int, mid.rooms@, room, config.max_rooms as int)
            ==> after.rooms@ == mid.rooms@.push(room) && after.room_added(mid, room, row_first),
        !takes(mid.width as int, mid.height as int, mid.rooms@, room, config.max_rooms as int)
            ==> after.rooms@ == mid.rooms@ && after.tiles@ == mid.tiles@,
    ensures
        after.going(blank, config, earlier.push((room, row_first))),
{
    reveal(TileMap::going);
    lemma_place_step(blank, mid, after, earlier, room, row_first, config.max_rooms as int);
    let longer = earlier.push((room, row_first));
    assert forall|k: int| 0 <= k < longer.len() implies config.proposes((#[trigger] longer[k]).0) by {
        if k < earlier.len() {
            assert(longer[k] == earlier[k]);
        }
    }
}

/// At the end of the generator's attempts the level is what the generator
/// makes of its proposals.
pub proof fn lemma_gone(blank: TileMap, m: TileMap, config: LevelConfig, proposals: Seq<(Rect, bool)>)
    requires
        m.going(blank, config, proposals),
        proposals.len() <= config.attempts,
        proposals.len() == config.attempts || m.rooms.len() == config.max_rooms,
    ensures
        m.drawn_from(config, proposals),
{
    reveal(TileMap::going);
    assert forall|x: int, y: int| #![trigger m.tile(x, y)] m.contains(x, y) implies (m.tile(x, y)
        == Tile::Floor) == opened_by(
        m.width as int,
        m.height as int,
        Seq::empty(),
        proposals,
        config.max_rooms as int,
        x,
        y,
    ) by {
        assert(blank.tile(x, y) == Tile::Wall);
    }
}

/// Adding a free room keeps what holds of the rooms of a level.
pub proof fn lemma_room_added_keeps_rooms(before: TileMap, after: TileMap, room: Rect, row_first: bool)
    requires
        before.wf(),
        before.rooms_wf(),
        before.room_free(room),
        after.sized(),
        after.width == before.width,
        after.height == before.height,
        after.rooms@ == before.rooms@.push(room),
        after.room_added(before, room, row_first),
    ensures
        after.wf(),
        after.rooms_fit(),
        after.rooms_open(),
        after.rooms_apart(),
        after.rooms_linked(),
        before.opened_in(after),
{
    let n = before.rooms.len() as int;
    assert forall|x: int, y: int| after.on_border(x, y) implies #[trigger] after.tile(x, y)
        == Tile::Wall by {
        assert(before.on_border(x, y));
        assert(before.tile(x, y) == Tile::Wall);
    }
    assert(before.opened_in(after)) by {
        assert forall|x: int, y: int| #![trigger after.tile(x, y)]
            before.is_floor(x, y) implies after.is_floor(x, y) by {}
    }
    assert(after.rooms_fit()) by {
        assert forall|k: int| 0 <= k < after.rooms.len() implies after.room_fits(
            #[trigger] after.rooms[k],
        ) by {
            if k < n {
                assert(after.rooms[k] == before.rooms[k]);
            }
        }
    }
    assert(after.rooms_open()) by {
        assert forall|k: int, x: int, y: int|
            0 <= k < after.rooms.len() && (#[trigger] after.rooms[k]).encloses(x, y) implies #[trigger] after.is_floor(
            x,
            y,
        ) by {
            assert(after.room_fits(after.rooms[k]));
            if k < n {
                assert(after.rooms[k] == before.rooms[k]);
                assert(before.is_floor(x, y));
            } else {
                assert(after.tile(x, y) == Tile::Floor);
            }
        }
    }
    assert(after.rooms_apart()) by {
        assert forall|i: int, j: int|
            0 <= i < after.rooms.len() && 0 <= j < after.rooms.len() && i != j implies !(#[trigger] after.rooms[i]).crowds(
            #[trigger] after.rooms[j],
        ) by {
            if i < n && j < n {
                assert(after.rooms[i] == before.rooms[i] && after.rooms[j] == before.rooms[j]);
            } else if i == n {
                assert(after.rooms[j] == before.rooms[j]);
            } else {
                assert(after.rooms[i] == before.rooms[i]);
                lemma_overlap_symmetric(room, before.rooms[i]);
            }
        }
    }
    assert(after.rooms_linked()) by {
        lemma_mid_inside(room);
        assert(room.encloses(room.mid().0, room.mid().1));
        assert(after.tile(room.mid().0, room.mid().1) == Tile::Floor);
        assert forall|k: int| 0 <= k < after.rooms.len() implies after.linked(
            after.rooms[0].mid(),
            (#[trigger] after.rooms[k]).mid(),
        ) by {
            if k < n {
                assert(after.rooms[k] == before.rooms[k] && after.rooms[0] == before.rooms[0]);
                lemma_linked_stays(before, after, before.rooms[0].mid(), before.rooms[k].mid());
            } else if n == 0 {
                lemma_linked_self(after, room.mid());
            } else {
                let last = before.rooms[n - 1];
                let from = last.mid();
                let to = room.mid();
                assert(after.rooms[0] == before.rooms[0]);
                lemma_linked_stays(before, after, before.rooms[0].mid(), from);
                assert(before.room_fits(last));
                lemma_mid_inside(last);
                assert(last.encloses(from.0, from.1));
                assert forall|x: int, y: int| on_corridor(from, to, row_first, x, y) implies after.is_floor(
                    x,
                    y,
                ) by {
                    assert(after.interior(x, y));
                    assert(after.tile(x, y) == Tile::Floor);
                }
                if row_first {
                    assert forall|x: int| between(x, from.0, to.0) implies after.is_floor(x, from.1) by {
                        assert(on_corridor(from, to, row_first, x, from.1));
                    }
                    assert forall|y: int| between(y, from.1, to.1) implies after.is_floor(to.0, y) by {
                        assert(on_corridor(from, to, row_first, to.0, y));
                    }
                } else {
                    assert forall|y: int| between(y, from.1, to.1) implies after.is_floor(from.0, y) by {
                        assert(on_corridor(from, to, row_first, from.0, y));
                    }
                    assert forall|x: int| between(x, from.0, to.0) implies after.is_floor(x, to.1) by {
                        assert(on_corridor(from, to, row_first, x, to.1));
                    }
                }
                lemma_elbow_linked(after, from, to, row_first);
                lemma_linked_trans(after, before.rooms[0].mid(), from, to);
            }
        }
    }
}

/// Every cell of a corridor of open ground can be walked to from the end
/// that the corridor leaves.
pub proof fn lemma_corridor_linked(m: TileMap, from: (int, int), to: (int, int), row_first: bool, x: int, y: int)
    requires
        forall|u: int, v: int| on_corridor(from, to, row_first, u, v) ==> m.is_floor(u, v),
        on_corridor(from, to, row_first, x, y),
    ensures
        m.linked(from, (x, y)),
{
    if row_first {
        assert forall|u: int| between(u, from.0, to.0) implies m.is_floor(u, from.1) by {
            assert(on_corridor(from, to, row_first, u, from.1));
        }
        if !(y == from.1 && between(x, from.0, to.0)) {
            assert forall|v: int| between(v, from.1, y) implies m.is_floor(to.0, v) by {
                assert(on_corridor(from, to, row_first, to.0, v));
            }
        }
        lemma_elbow_linked(m, from, (x, y), true);
    } else {
        assert forall|v: int| between(v, from.1, to.1) implies m.is_floor(from.0, v) by {
            assert(on_corridor(from, to, row_first, from.0, v));
        }
        if !(x == from.0 && between(y, from.1, to.1)) {
            assert forall|u: int| between(u, from.0, x) implies m.is_floor(u, to.1) by {
                assert(on_corridor(from, to, row_first, u, to.1));
            }
        }
        lemma_elbow_linked(m, from, (x, y), false);
    }
}

/// Adding a free room leaves every cell of open ground within reach of the
/// first room.
pub proof fn lemma_room_added_keeps_ground(before: TileMap, after: TileMap, room: Rect, row_first: bool)
    requires
        before.wf(),
        before.rooms_wf(),
        before.room_free(room),
        after.sized(),
        after.width == before.width,
        after.height == before.height,
        after.rooms@ == before.rooms@.push(room),
        after.room_added(before, room, row_first),
        after.rooms_open(),
        after.rooms_linked(),
        before.opened_in(after),
    ensures
        after.ground_linked(),
{
    let n = before.rooms.len() as int;
    let first = after.rooms[0].mid();
    assert(after.rooms[n] == room);
    assert forall|x: int, y: int| #![trigger after.tile(x, y)] after.is_floor(x, y) implies after.linked(
        first,
        (x, y),
    ) by {
        assert(after.linked(first, after.rooms[n].mid()));
        if before.is_floor(x, y) {
            assert(before.tile(x, y) == Tile::Floor);
            assert(after.rooms[0] == before.rooms[0]);
            lemma_linked_stays(before, after, first, (x, y));
        } else if room.encloses(x, y) {
            assert forall|u: int, v: int|
                room.x1 + 1 <= u <= room.x2 && room.y1 + 1 <= v <= room.y2 implies after.is_floor(u, v) by {
                assert(after.rooms[n].encloses(u, v));
            }
            lemma_mid_inside(room);
            lemma_block_linked(
                after,
                room.x1 + 1,
                room.x2 as int,
                room.y1 + 1,
                room.y2 as int,
                room.mid(),
                (x, y),
            );
            lemma_linked_trans(after, first, room.mid(), (x, y));
        } else {
            let last = before.rooms[n - 1];
            let from = last.mid();
            let to = room.mid();
            assert(on_corridor(from, to, row_first, x, y));
            assert(before.room_fits(last));
            lemma_mid_inside(last);
            lemma_mid_inside(room);
            assert forall|u: int, v: int| on_corridor(from, to, row_first, u, v) implies after.is_floor(
                u,
                v,
            ) by {
                assert(after.interior(u, v));
                assert(after.tile(u, v) == Tile::Floor);
            }
            assert(after.rooms[0] == before.rooms[0]);
            assert(after.rooms[n - 1] == last);
            assert(after.linked(first, after.rooms[n - 1].mid()));
            lemma_corridor_linked(after, from, to, row_first, x, y);
            lemma_linked_trans(after, first, from, (x, y));
        }
    }
}

/// Adding a free room to a level whose open ground is that of its rooms and
/// corridors gives such a level again, with one leg more.
pub proof fn lemma_room_added_lays_out(
    before: TileMap,
    after: TileMap,
    room: Rect,
    row_first: bool,
    legs: Seq<bool>,
)
    requires
        before.wf(),
        before.rooms_wf(),
        before.room_free(room),
        before.laid_out(legs),
        after.sized(),
        after.width == before.width,
        after.height == before.height,
        after.rooms@ == before.rooms@.push(room),
        after.room_added(before, room, row_first),
    ensures
        after.laid_out(legs.push(row_first)),
{
    let n = before.rooms.len() as int;
    let longer = legs.push(row_first);
    assert(after.rooms[n] == room);
    lemma_mid_inside(room);
    if n > 0 {
        assert(before.room_fits(before.rooms[n - 1]));
        lemma_mid_inside(before.rooms[n - 1]);
        assert(after.rooms[n - 1] == before.rooms[n - 1]);
    }
    assert forall|x: int, y: int| #![trigger after.tile(x, y)] after.contains(x, y) implies (after.tile(x, y)
        == Tile::Floor) == (after.in_some_room(x, y) || after.on_some_corridor(longer, x, y)) by {
        let fresh = after.interior(x, y) && (room.encloses(x, y) || (n > 0 && on_corridor(
            before.rooms[n - 1].mid(),
            room.mid(),
            row_first,
            x,
            y,
        )));
        if before.in_some_room(x, y) {
            let k = choose|k: int| 0 <= k < before.rooms.len() && (#[trigger] before.rooms[k]).encloses(x, y);
            assert(after.rooms[k] == before.rooms[k]);
        }
        if before.on_some_corridor(legs, x, y) {
            let k = choose|k: int|
                1 <= k < before.rooms.len() && on_corridor(
                    before.rooms[k - 1].mid(),
                    (#[trigger] before.rooms[k]).mid(),
                    legs[k],
                    x,
                    y,
                );
            assert(after.rooms[k] == before.rooms[k] && after.rooms[k - 1] == before.rooms[k - 1]);
            assert(longer[k] == legs[k]);
        }
        if room.encloses(x, y) {
            assert(after.rooms[n].encloses(x, y));
        }
        if n > 0 && on_corridor(before.rooms[n - 1].mid(), room.mid(), row_first, x, y) {
            assert(longer[n] == row_first);
            assert(on_corridor(after.rooms[n - 1].mid(), after.rooms[n].mid(), longer[n], x, y));
            assert(after.interior(x, y));
        }
        if after.in_some_room(x, y) {
            let k = choose|k: int| 0 <= k < after.rooms.len() && (#[trigger] after.rooms[k]).encloses(x, y);
            if k < n {
                assert(after.rooms[k] == before.rooms[k]);
                assert(before.in_some_room(x, y));
            } else {
                assert(fresh);
            }
        }
        if after.on_some_corridor(longer, x, y) {
            let k = choose|k: int|
                1 <= k < after.rooms.len() && on_corridor(
                    after.rooms[k - 1].mid(),
                    (#[trigger] after.rooms[k]).mid(),
                    longer[k],
                    x,
                    y,
                );
            if k < n {
                assert(after.rooms[k] == before.rooms[k] && after.rooms[k - 1] == before.rooms[k - 1]);
                assert(longer[k] == legs[k]);
                assert(before.on_some_corridor(legs, x, y));
            } else {
                assert(fresh);
            }
        }
    }
}

/// Every cell that a room of a level encloses can be walked to from the
/// midpoint of the first room, over open ground alone.
pub proof fn lemma_rooms_reachable(m: TileMap, k: int, x: int, y: int)
    requires
        m.wf(),
        m.rooms_wf(),
        0 <= k < m.rooms.len(),
        m.rooms[k].encloses(x, y),
    ensures
        m.linked(m.rooms[0].mid(), (x, y)),
{
    let room = m.rooms[k];
    assert(m.room_fits(room));
    lemma_mid_inside(room);
    assert forall|u: int, v: int| room.x1 + 1 <= u <= room.x2 && room.y1 + 1 <= v <= room.y2 implies m.is_floor(
        u,
        v,
    ) by {
        assert(room.encloses(u, v));
    }
    lemma_block_linked(m, room.x1 + 1, room.x2 as int, room.y1 + 1, room.y2 as int, room.mid(), (x, y));
    lemma_linked_trans(m, m.rooms[0].mid(), room.mid(), (x, y));
}

/// The midpoint of the first room, where a game places its player, is open
/// ground.
pub proof fn lemma_entry_is_open(m: TileMap)
    requires
        m.rooms_wf(),
        m.rooms.len() > 0,
    ensures
        m.is_floor(m.rooms[0].mid().0, m.rooms[0].mid().1),
        m.rooms[0].mid().0 == m.rooms[0].mid().0 as i32,
        m.rooms[0].mid().1 == m.rooms[0].mid().1 as i32,
{
    assert(m.room_fits(m.rooms[0]));
    lemma_mid_inside(m.rooms[0]);
    assert(m.rooms[0].encloses(m.rooms[0].mid().0, m.rooms[0].mid().1));
}

/// On a level whose rooms are in order, any two cells of open ground can be
/// walked between.
pub proof fn lemma_ground_is_connected(m: TileMap, a: (int, int), b: (int, int))
    requires
        m.rooms_wf(),
        m.is_floor(a.0, a.1),
        m.is_floor(b.0, b.1),
    ensures
        m.linked(a, b),
{
    assert(m.tile(a.0, a.1) == Tile::Floor && m.tile(b.0, b.1) == Tile::Floor);
    lemma_linked_back(m, m.rooms[0].mid(), a);
    lemma_linked_trans(m, a, m.rooms[0].mid(), b);
}

/// The outer ring of a level is wall.
pub proof fn lemma_border_is_wall(m: TileMap, x: int, y: int)
    requires
        m.wf(),
        m.contains(x, y),
        x == 0 || x == m.width - 1 || y == 0 || y == m.height - 1,
    ensures
        m.is_wall(x, y),
{
    assert(m.on_border(x, y));
}

/// No two rooms of a level overlap, even when one is grown by one cell on
/// every side, and so no cell of one touches a cell of another.
pub proof fn lemma_rooms_do_not_overlap(m: TileMap, i: int, j: int)
    requires
        m.rooms_wf(),
        0 <= i < m.rooms.len(),
        0 <= j < m.rooms.len(),
        i != j,
    ensures
        !m.rooms[i].crowds(m.rooms[j]),
        !m.rooms[i].overlaps(m.rooms[j]),
{
}

} // verus!
