use crate::components::{Position, ViewshedView};
use crate::map::{Tile, TileMap};
use crate::state::State;
use crate::world::{
    distinct_entities, has_entity, snapshot, store_position, store_viewshed, views_of, world_ready,
    world_records, RecordView,
};
use specs::World;
use vstd::prelude::*;

verus! {

/// What the player asks for in one frame.
#[derive(Clone, Copy, Debug, PartialEq, Eq, Structural)]
pub enum Input {
    /// Nothing.
    Idle,
    /// One cell up.
    MoveUp,
    /// One cell down.
    MoveDown,
    /// One cell to the left.
    MoveLeft,
    /// One cell to the right.
    MoveRight,
    /// To end the game.
    Quit,
}

impl Input {
    /// The step that the input asks for, if it asks for one. Rows count
    /// downwards: up is towards row 0.
    pub open spec fn delta(self) -> Option<(int, int)> {
        match self {
            Input::MoveUp => Some((0int, -1int)),
            Input::MoveDown => Some((0int, 1int)),
            Input::MoveLeft => Some((-1int, 0int)),
            Input::MoveRight => Some((1int, 0int)),
            Input::Idle => None,
            Input::Quit => None,
        }
    }
}

/// The entity is a player with a place, and the cell `(dx, dy)` away from it
/// lies on the grid and is open ground.
pub open spec fn can_step(record: RecordView, map: TileMap, dx: int, dy: int) -> bool {
    &&& record.player
    &&& record.position.is_some()
    &&& map.is_floor(record.position.unwrap().x + dx, record.position.unwrap().y + dy)
}

/// The record after a step by `(dx, dy)` was tried. A player that can take
/// the step stands on the new cell, and its view, if it has one, is out of
/// date. Any other record is as it was.
pub open spec fn stepped(record: RecordView, map: TileMap, dx: int, dy: int) -> RecordView {
    if can_step(record, map, dx, dy) {
        RecordView {
            position: Some(
                Position {
                    x: (record.position.unwrap().x + dx) as i32,
                    y: (record.position.unwrap().y + dy) as i32,
                },
            ),
            viewshed: match record.viewshed {
                Some(v) => Some(ViewshedView { dirty: true, ..v }),
                None => None,
            },
            ..record
        }
    } else {
        record
    }
}

/// Every record after a step by `(dx, dy)` was tried.
pub open spec fn all_stepped(records: Seq<RecordView>, map: TileMap, dx: int, dy: int) -> Seq<RecordView> {
    Seq::new(records.len(), |i: int| stepped(records[i], map, dx, dy))
}

/// The records after the input was applied.
pub open spec fn after_input(records: Seq<RecordView>, map: TileMap, input: Input) -> Seq<RecordView> {
    match input.delta() {
        Some(d) => all_stepped(records, map, d.0, d.1),
        None => records,
    }
}

/// Tries to move every player by `(delta_x, delta_y)`. A player moves if the
/// cell it would come to lies on the grid and is open ground; its view is
/// then out of date. A step into a wall or off the grid changes nothing.
pub fn try_move_player(delta_x: i32, delta_y: i32, ecs: &mut World, map: &TileMap)
    requires
        world_ready(*old(ecs)),
        map.sized(),
    ensures
        world_ready(*final(ecs)),
        world_records(*final(ecs)) == all_stepped(
            world_records(*old(ecs)),
            *map,
            delta_x as int,
            delta_y as int,
        ),
{
    let records = snapshot(ecs);
    let ghost r0 = world_records(*ecs);
    let mut i: usize = 0;
    while i < records.len()
        invariant
            i <= records.len(),
            world_ready(*ecs),
            map.sized(),
            views_of(records@) == r0,
            distinct_entities(r0),
            world_records(*ecs).len() == r0.len(),
            forall|k: int|
                0 <= k < i ==> #[trigger] world_records(*ecs)[k] == stepped(
                    r0[k],
                    *map,
                    delta_x as int,
                    delta_y as int,
                ),
            forall|k: int| i <= k < r0.len() ==> #[trigger] world_records(*ecs)[k] == r0[k],
        decreases records.len() - i,
    {
        let ghost cur = world_records(*ecs);
        let record = &records[i];
        assert(record@ == r0[i as int]) by {
            assert(views_of(records@)[i as int] == records@[i as int]@);
        }
        assert(cur[i as int] == r0[i as int]);
        if record.player.is_some() {
            if let Some(position) = &record.position {
                let x: i64 = position.x as i64 + delta_x as i64;
                let y: i64 = position.y as i64 + delta_y as i64;
                if 0 <= x && x < map.width as i64 && 0 <= y && y < map.height as i64 {
                    match map.tile_at(x as i32, y as i32) {
                        Tile::Floor => {
                            assert(has_entity(cur, record.entity)) by {
                                assert(cur[i as int].entity == record.entity);
                            }
                            store_position(ecs, record.entity, Position { x: x as i32, y: y as i32 });
                            if let Some(viewshed) = &record.viewshed {
                                let ghost placed = world_records(*ecs);
                                assert(has_entity(placed, record.entity)) by {
                                    assert(placed[i as int].entity == record.entity);
                                }
                                store_viewshed(ecs, record.entity, viewshed.marked_dirty());
                            }
                        },
                        Tile::Wall => {},
                    }
                }
            }
        }
        proof {
            let now = world_records(*ecs);
            assert forall|k: int| 0 <= k < r0.len() && k != i implies #[trigger] now[k] == cur[k] by {
                assert(r0[k].entity != r0[i as int].entity);
            }
            assert(now[i as int] == stepped(r0[i as int], *map, delta_x as int, delta_y as int));
        }
        i = i + 1;
    }
    assert(world_records(*ecs) =~= all_stepped(r0, *map, delta_x as int, delta_y as int));
}

/// Applies the input of one frame to the game: a move is tried for every
/// player, anything else moves nobody.
pub fn player_input(gs: &mut State, input: Input)
    requires
        old(gs).wf(),
    ensures
        final(gs).wf(),
        final(gs).map == old(gs).map,
        final(gs).run_state == old(gs).run_state,
        world_records(final(gs).ecs) == after_input(world_records(old(gs).ecs), old(gs).map, input),
{
    match input {
        Input::MoveLeft => try_move_player(-1, 0, &mut gs.ecs, &gs.map),
        Input::MoveRight => try_move_player(1, 0, &mut gs.ecs, &gs.map),
        Input::MoveUp => try_move_player(0, -1, &mut gs.ecs, &gs.map),
        Input::MoveDown => try_move_player(0, 1, &mut gs.ecs, &gs.map),
        Input::Idle => {},
        Input::Quit => {},
    }
}

/// A step that would end on a wall or off the grid moves nobody: a player
/// stays where it is, and its view is not marked as out of date.
pub proof fn lemma_blocked_step_changes_nothing(record: RecordView, map: TileMap, dx: int, dy: int)
    requires
        record.position.is_some(),
        !map.is_floor(record.position.unwrap().x + dx, record.position.unwrap().y + dy),
    ensures
        stepped(record, map, dx, dy) == record,
{
}

/// Where every player is blocked, trying the step leaves every entity as it was.
pub proof fn lemma_blocked_players_stay(records: Seq<RecordView>, map: TileMap, dx: int, dy: int)
    requires
        forall|k: int|
            0 <= k < records.len() && (#[trigger] records[k]).player && records[k].position.is_some()
                ==> !map.is_floor(records[k].position.unwrap().x + dx, records[k].position.unwrap().y + dy),
    ensures
        all_stepped(records, map, dx, dy) == records,
{
    assert(all_stepped(records, map, dx, dy) =~= records);
}

} // verus!
