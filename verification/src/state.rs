use crate::builder::{lemma_entry_is_open, GenerationError, LevelConfig};
use crate::components::{Color, Player, Position, Renderable, Viewshed, ViewshedView};
use crate::map::{Tile, TileMap};
use crate::player::{after_input, player_input, Input};
use crate::render::{draw_entities, draw_map, sprites_of, Frame};
use crate::visibility_system::{all_refreshed, seen, VisibilitySystem};
use crate::world::{
    has_entity, maintain, new_world, snapshot, spawn, try_spawn, views_of, world_ready,
    world_records, EntityRecord, RecordView, MAX_ENTITIES,
};
use bracket_lib::prelude::RandomNumberGenerator;
use specs::Entity;
use specs::World;
use vstd::prelude::*;

verus! {

/// The glyph of the player.
pub const PLAYER_GLYPH: u16 = 2;

/// Whether the game goes on.
#[derive(Clone, Copy, Debug, PartialEq, Eq, Structural)]
pub enum RunState {
    /// Frames are played.
    Running,
    /// The game is over: no frame is played any more.
    Quit,
}

/// A game: the entities with their components, the level they live on, and
/// whether the game goes on.
pub struct State {
    pub ecs: World,
    pub map: TileMap,
    pub run_state: RunState,
}

impl State {
    /// The world is ready and the level is in order.
    pub open spec fn wf(self) -> bool {
        world_ready(self.ecs) && self.map.wf()
    }

    /// How a new game draws its player: the player's glyph, white on black.
    pub open spec fn player_look() -> Renderable {
        Renderable {
            glyph: PLAYER_GLYPH,
            fg: Color { r: 255, g: 255, b: 255 },
            bg: Color { r: 0, g: 0, b: 0 },
        }
    }

    /// The record of a player as a new game places it.
    pub open spec fn player_record(entity: Entity, x: i32, y: i32, range: i32) -> RecordView {
        RecordView {
            entity,
            position: Some(Position { x, y }),
            renderable: Some(Self::player_look()),
            player: true,
            viewshed: Some(ViewshedView { visible_tiles: Seq::empty(), range, dirty: true }),
        }
    }

    /// A game on the given level, with no entity yet.
    pub fn new(map: TileMap) -> (gs: State)
        requires
            map.wf(),
        ensures
            gs.wf(),
            gs.map == map,
            gs.run_state == RunState::Running,
            world_records(gs.ecs) == Seq::<RecordView>::empty(),
    {
        State { ecs: new_world(), map, run_state: RunState::Running }
    }

    /// Makes a new entity with the components given. It is not one of the
    /// entities that were there, which all stay as they are, and is listed
    /// after them. The game must hold fewer than `MAX_ENTITIES` entities.
    pub fn spawn(
        &mut self,
        position: Option<Position>,
        renderable: Option<Renderable>,
        player: Option<Player>,
        viewshed: Option<Viewshed>,
    ) -> (entity: Entity)
        requires
            old(self).wf(),
            world_records(old(self).ecs).len() < MAX_ENTITIES,
        ensures
            final(self).wf(),
            final(self).map == old(self).map,
            final(self).run_state == old(self).run_state,
            !has_entity(world_records(old(self).ecs), entity),
            world_records(final(self).ecs) == world_records(old(self).ecs).push(
                (EntityRecord { entity, position, renderable, player, viewshed })@,
            ),
    {
        spawn(&mut self.ecs, position, renderable, player, viewshed)
    }

    /// Makes a new entity with the components given, as `spawn` does, if the
    /// game holds fewer than `MAX_ENTITIES` entities. A game that is full is
    /// left as it is, and no entity is made.
    pub fn try_spawn(
        &mut self,
        position: Option<Position>,
        renderable: Option<Renderable>,
        player: Option<Player>,
        viewshed: Option<Viewshed>,
    ) -> (made: Option<Entity>)
        requires
            old(self).wf(),
        ensures
            final(self).wf(),
            final(self).map == old(self).map,
            final(self).run_state == old(self).run_state,
            made.is_some() == (world_records(old(self).ecs).len() < MAX_ENTITIES),
            made.is_none() ==> world_records(final(self).ecs) == world_records(old(self).ecs),
            made matches Some(entity) ==> {
                &&& !has_entity(world_records(old(self).ecs), entity)
                &&& world_records(final(self).ecs) == world_records(old(self).ecs).push(
                    (EntityRecord { entity, position, renderable, player, viewshed })@,
                )
            },
    {
        try_spawn(&mut self.ecs, position, renderable, player, viewshed)
    }

    /// The entities of the game with their components.
    pub fn entities(&self) -> (records: Vec<EntityRecord>)
        requires
            self.wf(),
        ensures
            views_of(records@) == world_records(self.ecs),
    {
        snapshot(&self.ecs)
    }

    /// A new game: a level of rooms and corridors built from `config`, and a
    /// player in the middle of its first room, who sees as far as
    /// `config.view_range` and has not looked yet.
    ///
    /// Fails where the level cannot be built, with the error of
    /// `TileMap::new_map_rooms_and_corridors`.
    pub fn new_game(rng: &mut RandomNumberGenerator, config: &LevelConfig) -> (r: Result<
        State,
        GenerationError,
    >)
        ensures
            r.is_ok() == (config.rooms_ok() && config.attempts >= 1 && config.max_rooms >= 1),
            r matches Err(e) ==> (e == GenerationError::InvalidConfig) == !config.rooms_ok(),
            r matches Err(e) ==> e == GenerationError::InvalidConfig || e == GenerationError::NoRooms,
            r matches Ok(gs) ==> {
                &&& gs.wf()
                &&& gs.map.built_from(*config)
                &&& gs.run_state == RunState::Running
                &&& world_records(gs.ecs).len() == 1
                &&& world_records(gs.ecs)[0] == Self::player_record(
                    world_records(gs.ecs)[0].entity,
                    gs.map.rooms[0].mid().0 as i32,
                    gs.map.rooms[0].mid().1 as i32,
                    config.view_range,
                )
                &&& gs.map.is_floor(gs.map.rooms[0].mid().0, gs.map.rooms[0].mid().1)
            },
    {
        let map = match TileMap::new_map_rooms_and_corridors(rng, config) {
            Ok(map) => map,
            Err(e) => { return Err(e); },
        };
        let (x, y) = map.rooms[0].center();
        proof {
            lemma_entry_is_open(map);
        }
        let mut gs = State::new(map);
        let entity = gs.spawn(
            Some(Position { x, y }),
            Some(
                Renderable {
                    glyph: PLAYER_GLYPH,
                    fg: Color { r: 255, g: 255, b: 255 },
                    bg: Color { r: 0, g: 0, b: 0 },
                },
            ),
            Some(Player {  }),
            Some(Viewshed::new(config.view_range)),
        );
        assert(world_records(gs.ecs)[0] == Self::player_record(entity, x, y, config.view_range));
        Ok(gs)
    }

    /// Runs the systems of one frame: the visibility system, and then the
    /// upkeep of the world, which has nothing to do.
    pub fn run_systems(&mut self)
        requires
            old(self).wf(),
        ensures
            final(self).wf(),
            final(self).run_state == old(self).run_state,
            all_refreshed(world_records(old(self).ecs), world_records(final(self).ecs), old(self).map),
            final(self).map.same_but_flags(old(self).map),
            final(self).map.remembers(old(self).map),
            forall|x: int, y: int| #![trigger final(self).map.is_visible(x, y)]
                final(self).map.contains(x, y) ==> final(self).map.is_visible(x, y) == seen(
                    world_records(final(self).ecs),
                    x,
                    y,
                ),
            forall|x: int, y: int| #![trigger final(self).map.is_revealed(x, y)]
                final(self).map.contains(x, y) ==> final(self).map.is_revealed(x, y) == (old(
                    self,
                ).map.is_revealed(x, y) || seen(world_records(final(self).ecs), x, y)),
    {
        VisibilitySystem::run(&mut self.ecs, &mut self.map);
        maintain(&mut self.ecs);
        proof {
            assert forall|x: int, y: int| self.map.on_border(x, y) implies #[trigger] self.map.tile(x, y)
                == Tile::Wall by {
                assert(old(self).map.on_border(x, y));
                assert(old(self).map.tile(x, y) == Tile::Wall);
            }
        }
    }

    /// Plays one frame. A game that is over stays as it is and gives no
    /// frame, and so does one that is asked to quit, which is then over.
    /// Else the input is applied, the systems run, and the frame tells a
    /// renderer what to draw: every cell of the level and, over them, every
    /// entity that has a place and a look.
    pub fn tick(&mut self, input: Input) -> (frame: Option<Frame>)
        requires
            old(self).wf(),
        ensures
            final(self).wf(),
            frame.is_some() == (old(self).run_state == RunState::Running && input != Input::Quit),
            frame.is_none() ==> {
                &&& final(self).run_state == RunState::Quit
                &&& final(self).map == old(self).map
                &&& world_records(final(self).ecs) == world_records(old(self).ecs)
            },
            frame matches Some(f) ==> {
                &&& final(self).run_state == RunState::Running
                &&& all_refreshed(
                    after_input(world_records(old(self).ecs), old(self).map, input),
                    world_records(final(self).ecs),
                    old(self).map,
                )
                &&& final(self).map.same_but_flags(old(self).map)
                &&& final(self).map.remembers(old(self).map)
                &&& forall|x: int, y: int| #![trigger final(self).map.is_visible(x, y)]
                    final(self).map.contains(x, y) ==> final(self).map.is_visible(x, y) == seen(
                        world_records(final(self).ecs),
                        x,
                        y,
                    )
                &&& forall|x: int, y: int| #![trigger final(self).map.is_revealed(x, y)]
                    final(self).map.contains(x, y) ==> final(self).map.is_revealed(x, y) == (old(
                        self,
                    ).map.is_revealed(x, y) || seen(world_records(final(self).ecs), x, y))
                &&& f.width == final(self).map.width
                &&& f.height == final(self).map.height
                &&& final(self).map.drawn_as(f.cells@)
                &&& f.sprites@ == sprites_of(world_records(final(self).ecs))
            },
    {
        match self.run_state {
            RunState::Quit => { return None; },
            RunState::Running => {},
        }
        match input {
            Input::Quit => {
                self.run_state = RunState::Quit;
                return None;
            },
            _ => {},
        }
        player_input(self, input);
        self.run_systems();
        let records = snapshot(&self.ecs);
        Some(
            Frame {
                width: self.map.width,
                height: self.map.height,
                cells: draw_map(&self.map),
                sprites: draw_entities(&records),
            },
        )
    }
}

} // verus!
