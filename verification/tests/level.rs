use roguelike::{glyph_for_wall, Rect, Tile, TileMap};

fn open_hall(width: i32, height: i32) -> TileMap {
    let mut map = TileMap::new(width, height).unwrap();
    map.carve(1, width - 2, 1, height - 2);
    map
}

fn on_ring(map: &TileMap, x: i32, y: i32) -> bool {
    x == 0 || y == 0 || x == map.width - 1 || y == map.height - 1
}

#[test]
fn new_level_is_wall_throughout() {
    let map = TileMap::new(80, 50).unwrap();
    assert_eq!(map.width, 80);
    assert_eq!(map.height, 50);
    assert_eq!(map.tiles.len(), 4000);
    assert_eq!(map.revealed.len(), 4000);
    assert_eq!(map.visible.len(), 4000);
    assert!(map.tiles.iter().all(|t| *t == Tile::Wall));
    assert!(map.revealed.iter().all(|b| !*b));
    assert!(map.visible.iter().all(|b| !*b));
    assert!(map.rooms.is_empty());
}

#[test]
fn new_level_needs_a_grid() {
    assert!(TileMap::new(0, 10).is_none());
    assert!(TileMap::new(10, 0).is_none());
    assert!(TileMap::new(-3, 10).is_none());
    assert!(TileMap::new(1, 1).is_some());
}

#[test]
fn new_level_needs_a_grid_that_can_be_indexed() {
    assert!(TileMap::new(65536, 32768).is_none());
    assert!(TileMap::new(i32::MAX, i32::MAX).is_none());
}

#[test]
fn xy_idx_counts_row_by_row() {
    let map = TileMap::new(80, 50).unwrap();
    assert_eq!(map.xy_idx(0, 0), 0);
    assert_eq!(map.xy_idx(79, 0), 79);
    assert_eq!(map.xy_idx(0, 1), 80);
    assert_eq!(map.xy_idx(3, 2), 163);
    assert_eq!(map.xy_idx(79, 49), 3999);
}

#[test]
fn xy_idx_stays_in_range_for_every_cell() {
    let map = TileMap::new(7, 5).unwrap();
    for y in 0..5 {
        for x in 0..7 {
            assert!(map.xy_idx(x, y) < map.tiles.len());
        }
    }
}

#[test]
fn in_bounds_is_the_grid() {
    let map = TileMap::new(7, 5).unwrap();
    assert!(map.in_bounds(0, 0));
    assert!(map.in_bounds(6, 4));
    assert!(!map.in_bounds(7, 4));
    assert!(!map.in_bounds(6, 5));
    assert!(!map.in_bounds(-1, 0));
    assert!(!map.in_bounds(0, -1));
}

#[test]
fn carve_opens_the_block_and_nothing_else() {
    let mut map = TileMap::new(10, 8).unwrap();
    map.carve(2, 4, 3, 5);
    for y in 0..8 {
        for x in 0..10 {
            let inside = 2 <= x && x <= 4 && 3 <= y && y <= 5;
            assert_eq!(map.tile_at(x, y) == Tile::Floor, inside);
        }
    }
}

#[test]
fn carve_leaves_the_outer_ring() {
    let mut map = TileMap::new(10, 8).unwrap();
    map.carve(-5, 50, -5, 50);
    for y in 0..8 {
        for x in 0..10 {
            assert_eq!(map.tile_at(x, y) == Tile::Wall, on_ring(&map, x, y));
        }
    }
}

#[test]
fn carve_of_an_empty_block_changes_nothing() {
    let mut map = TileMap::new(10, 8).unwrap();
    map.carve(5, 4, 1, 6);
    assert!(map.tiles.iter().all(|t| *t == Tile::Wall));
}

#[test]
fn room_opens_the_cells_past_its_corner() {
    let mut map = TileMap::new(20, 20).unwrap();
    let room = Rect::new(2, 3, 4, 5);
    map.apply_room_to_map(&room);
    for y in 0..20 {
        for x in 0..20 {
            let inside = 2 < x && x <= 6 && 3 < y && y <= 8;
            assert_eq!(map.tile_at(x, y) == Tile::Floor, inside);
        }
    }
}

#[test]
fn horizontal_tunnel_runs_either_way() {
    let mut a = TileMap::new(20, 10).unwrap();
    a.apply_horizontal_tunnel(3, 9, 4);
    let mut b = TileMap::new(20, 10).unwrap();
    b.apply_horizontal_tunnel(9, 3, 4);
    assert_eq!(a.tiles, b.tiles);
    for y in 0..10 {
        for x in 0..20 {
            assert_eq!(a.tile_at(x, y) == Tile::Floor, y == 4 && 3 <= x && x <= 9);
        }
    }
}

#[test]
fn vertical_tunnel_runs_either_way() {
    let mut a = TileMap::new(20, 10).unwrap();
    a.apply_vertical_tunnel(2, 7, 11);
    let mut b = TileMap::new(20, 10).unwrap();
    b.apply_vertical_tunnel(7, 2, 11);
    assert_eq!(a.tiles, b.tiles);
    for y in 0..10 {
        for x in 0..20 {
            assert_eq!(a.tile_at(x, y) == Tile::Floor, x == 11 && 2 <= y && y <= 7);
        }
    }
}

#[test]
fn tunnel_stops_at_the_outer_ring() {
    let mut map = TileMap::new(20, 10).unwrap();
    map.apply_horizontal_tunnel(-4, 40, 4);
    assert_eq!(map.tile_at(0, 4), Tile::Wall);
    assert_eq!(map.tile_at(19, 4), Tile::Wall);
    assert_eq!(map.tile_at(1, 4), Tile::Floor);
    assert_eq!(map.tile_at(18, 4), Tile::Floor);
    map.apply_horizontal_tunnel(2, 5, 0);
    assert_eq!(map.tile_at(3, 0), Tile::Wall);
}

#[test]
fn place_wall_closes_one_cell() {
    let mut map = open_hall(10, 8);
    map.place_wall(4, 4);
    for y in 1..7 {
        for x in 1..9 {
            assert_eq!(map.tile_at(x, y) == Tile::Wall, x == 4 && y == 4);
        }
    }
}

#[test]
fn has_wall_at_counts_off_grid_as_no_wall() {
    let map = TileMap::new(5, 5).unwrap();
    assert!(map.has_wall_at(0, 0));
    assert!(map.has_wall_at(4, 4));
    assert!(!map.has_wall_at(-1, 0));
    assert!(!map.has_wall_at(0, -1));
    assert!(!map.has_wall_at(5, 0));
    assert!(!map.has_wall_at(0, 5));
}

#[test]
fn lone_wall_is_a_pillar() {
    let mut map = open_hall(9, 9);
    map.place_wall(4, 4);
    assert_eq!(glyph_for_wall(&map, 4, 4), 9);
}

#[test]
fn wall_with_walls_all_around_is_a_cross() {
    let map = TileMap::new(9, 9).unwrap();
    assert_eq!(glyph_for_wall(&map, 4, 4), 206);
}

#[test]
fn glyph_is_the_same_when_asked_twice() {
    let mut map = open_hall(9, 9);
    map.place_wall(4, 4);
    map.place_wall(4, 3);
    let first = glyph_for_wall(&map, 4, 4);
    let tiles = map.tiles.clone();
    let second = glyph_for_wall(&map, 4, 4);
    assert_eq!(first, second);
    assert_eq!(map.tiles, tiles);
}

fn glyph_with(up: bool, down: bool, left: bool, right: bool) -> u16 {
    let mut map = open_hall(9, 9);
    map.place_wall(4, 4);
    if up {
        map.place_wall(4, 3);
    }
    if down {
        map.place_wall(4, 5);
    }
    if left {
        map.place_wall(3, 4);
    }
    if right {
        map.place_wall(5, 4);
    }
    glyph_for_wall(&map, 4, 4)
}

#[test]
fn straight_walls() {
    assert_eq!(glyph_with(true, false, false, false), 186);
    assert_eq!(glyph_with(false, true, false, false), 186);
    assert_eq!(glyph_with(true, true, false, false), 186);
    assert_eq!(glyph_with(false, false, true, false), 205);
    assert_eq!(glyph_with(false, false, false, true), 205);
    assert_eq!(glyph_with(false, false, true, true), 205);
}

#[test]
fn corners() {
    assert_eq!(glyph_with(true, false, true, false), 188);
    assert_eq!(glyph_with(false, true, true, false), 187);
    assert_eq!(glyph_with(true, false, false, true), 200);
    assert_eq!(glyph_with(false, true, false, true), 201);
}

#[test]
fn junctions() {
    assert_eq!(glyph_with(true, true, true, false), 185);
    assert_eq!(glyph_with(true, true, false, true), 204);
    assert_eq!(glyph_with(true, false, true, true), 202);
    assert_eq!(glyph_with(false, true, true, true), 203);
    assert_eq!(glyph_with(true, true, true, true), 206);
    assert_eq!(glyph_with(false, false, false, false), 9);
}

#[test]
fn glyph_depends_on_the_four_neighbours_only() {
    let mut a = open_hall(9, 9);
    a.place_wall(4, 4);
    a.place_wall(4, 3);
    a.place_wall(5, 4);
    let mut b = open_hall(12, 7);
    b.place_wall(8, 3);
    b.place_wall(8, 2);
    b.place_wall(9, 3);
    b.place_wall(2, 2);
    b.place_wall(7, 2);
    assert_eq!(glyph_for_wall(&a, 4, 4), glyph_for_wall(&b, 8, 3));
}

#[test]
fn glyph_at_the_corner_of_the_grid() {
    let map = TileMap::new(5, 5).unwrap();
    assert_eq!(glyph_for_wall(&map, 0, 0), 201);
    assert_eq!(glyph_for_wall(&map, 4, 0), 187);
    assert_eq!(glyph_for_wall(&map, 0, 4), 200);
    assert_eq!(glyph_for_wall(&map, 4, 4), 188);
    assert_eq!(glyph_for_wall(&map, 2, 0), 203);
}

#[test]
fn room_is_free_on_an_empty_level() {
    let map = TileMap::new(30, 20).unwrap();
    assert!(map.room_is_free(&Rect::new(0, 0, 6, 6)));
    assert!(map.room_is_free(&Rect::new(22, 12, 6, 6)));
}

#[test]
fn room_must_lie_between_the_walls_of_the_outer_ring() {
    let map = TileMap::new(30, 20).unwrap();
    assert!(!map.room_is_free(&Rect::new(23, 12, 6, 6)));
    assert!(!map.room_is_free(&Rect::new(22, 13, 6, 6)));
    assert!(!map.room_is_free(&Rect::new(-1, 0, 6, 6)));
    assert!(!map.room_is_free(&Rect::new(0, -1, 6, 6)));
}

#[test]
fn room_must_be_two_cells_wide_and_high() {
    let map = TileMap::new(30, 20).unwrap();
    assert!(!map.room_is_free(&Rect::new(3, 3, 1, 6)));
    assert!(!map.room_is_free(&Rect::new(3, 3, 6, 1)));
    assert!(map.room_is_free(&Rect::new(3, 3, 2, 2)));
}

#[test]
fn room_must_keep_its_distance() {
    let mut map = TileMap::new(40, 20).unwrap();
    map.add_room(Rect::new(2, 2, 6, 6), true);
    assert!(!map.room_is_free(&Rect::new(5, 5, 6, 6)));
    assert!(!map.room_is_free(&Rect::new(8, 2, 6, 6)));
    assert!(!map.room_is_free(&Rect::new(9, 2, 6, 6)));
    assert!(map.room_is_free(&Rect::new(10, 2, 6, 6)));
}

#[test]
fn first_room_gets_no_corridor() {
    let mut map = TileMap::new(40, 20).unwrap();
    let room = Rect::new(2, 2, 6, 6);
    map.add_room(room, true);
    assert_eq!(map.rooms, vec![room]);
    for y in 0..20 {
        for x in 0..40 {
            let inside = 2 < x && x <= 8 && 2 < y && y <= 8;
            assert_eq!(map.tile_at(x, y) == Tile::Floor, inside);
        }
    }
}

#[test]
fn second_room_is_joined_row_first() {
    let mut map = TileMap::new(40, 20).unwrap();
    let first = Rect::new(2, 2, 6, 6);
    let second = Rect::new(20, 10, 6, 6);
    map.add_room(first, true);
    map.add_room(second, true);
    assert_eq!(map.rooms, vec![first, second]);
    assert_eq!(first.center(), (5, 5));
    assert_eq!(second.center(), (23, 13));
    for y in 0..20 {
        for x in 0..40 {
            let in_first = 2 < x && x <= 8 && 2 < y && y <= 8;
            let in_second = 20 < x && x <= 26 && 10 < y && y <= 16;
            let on_row = y == 5 && 5 <= x && x <= 23;
            let on_column = x == 23 && 5 <= y && y <= 13;
            assert_eq!(map.tile_at(x, y) == Tile::Floor, in_first || in_second || on_row || on_column);
        }
    }
}

#[test]
fn second_room_is_joined_column_first() {
    let mut map = TileMap::new(40, 20).unwrap();
    let first = Rect::new(2, 2, 6, 6);
    let second = Rect::new(20, 10, 6, 6);
    map.add_room(first, false);
    map.add_room(second, false);
    for y in 0..20 {
        for x in 0..40 {
            let in_first = 2 < x && x <= 8 && 2 < y && y <= 8;
            let in_second = 20 < x && x <= 26 && 10 < y && y <= 16;
            let on_column = x == 5 && 5 <= y && y <= 13;
            let on_row = y == 13 && 5 <= x && x <= 23;
            assert_eq!(map.tile_at(x, y) == Tile::Floor, in_first || in_second || on_row || on_column);
        }
    }
}

#[test]
fn corridor_runs_back_to_a_room_up_and_left() {
    let mut map = TileMap::new(40, 20).unwrap();
    map.add_room(Rect::new(20, 10, 6, 6), true);
    map.add_room(Rect::new(2, 2, 6, 6), true);
    for x in 5..=23 {
        assert_eq!(map.tile_at(x, 13), Tile::Floor);
    }
    for y in 5..=13 {
        assert_eq!(map.tile_at(5, y), Tile::Floor);
    }
    assert_eq!(map.tile_at(23, 9), Tile::Wall);
}

#[test]
fn adding_a_room_sees_nothing() {
    let mut map = TileMap::new(40, 20).unwrap();
    map.add_room(Rect::new(2, 2, 6, 6), true);
    assert!(map.revealed.iter().all(|b| !*b));
    assert!(map.visible.iter().all(|b| !*b));
}

#[test]
fn levels_that_are_in_order() {
    assert!(TileMap::new(1, 1).unwrap().is_in_order());
    assert!(TileMap::new(80, 50).unwrap().is_in_order());
    assert!(open_hall(12, 7).is_in_order());
}

#[test]
fn level_with_a_hole_in_the_outer_ring_is_not_in_order() {
    for (x, y) in [(0, 0), (5, 0), (11, 0), (0, 3), (11, 3), (0, 6), (7, 6), (11, 6)] {
        let mut map = open_hall(12, 7);
        let idx = map.xy_idx(x, y);
        map.tiles[idx] = Tile::Floor;
        assert!(!map.is_in_order());
    }
}

#[test]
fn level_with_a_vector_of_the_wrong_length_is_not_in_order() {
    let mut map = open_hall(12, 7);
    map.tiles.push(Tile::Wall);
    assert!(!map.is_in_order());
    let mut map = open_hall(12, 7);
    map.revealed.pop();
    assert!(!map.is_in_order());
    let mut map = open_hall(12, 7);
    map.visible.clear();
    assert!(!map.is_in_order());
    let mut map = open_hall(12, 7);
    map.width = 0;
    assert!(!map.is_in_order());
    let mut map = open_hall(12, 7);
    map.height = 6;
    assert!(!map.is_in_order());
}

#[test]
fn place_room_takes_a_free_room() {
    let mut map = TileMap::new(40, 20).unwrap();
    let first = Rect::new(2, 2, 6, 6);
    assert!(map.place_room(first, true, 30));
    assert_eq!(map.rooms, vec![first]);
    let second = Rect::new(20, 10, 6, 6);
    assert!(map.place_room(second, false, 30));
    assert_eq!(map.rooms, vec![first, second]);
    let mut by_hand = TileMap::new(40, 20).unwrap();
    by_hand.add_room(first, true);
    by_hand.add_room(second, false);
    assert_eq!(map.tiles, by_hand.tiles);
}

#[test]
fn place_room_passes_over_a_room_that_is_not_free() {
    let mut map = TileMap::new(40, 20).unwrap();
    map.add_room(Rect::new(2, 2, 6, 6), true);
    let tiles = map.tiles.clone();
    assert!(!map.place_room(Rect::new(5, 5, 6, 6), true, 30));
    assert!(!map.place_room(Rect::new(9, 2, 6, 6), true, 30));
    assert!(!map.place_room(Rect::new(33, 2, 6, 6), true, 30));
    assert!(!map.place_room(Rect::new(20, 10, 1, 6), true, 30));
    assert_eq!(map.rooms.len(), 1);
    assert_eq!(map.tiles, tiles);
}

#[test]
fn place_room_passes_over_when_enough_rooms_stand() {
    let mut map = TileMap::new(40, 20).unwrap();
    assert!(!map.place_room(Rect::new(2, 2, 6, 6), true, 0));
    assert!(map.rooms.is_empty());
    assert!(map.place_room(Rect::new(2, 2, 6, 6), true, 1));
    let tiles = map.tiles.clone();
    assert!(!map.place_room(Rect::new(20, 10, 6, 6), true, 1));
    assert_eq!(map.rooms.len(), 1);
    assert_eq!(map.tiles, tiles);
    assert!(map.place_room(Rect::new(20, 10, 6, 6), true, 2));
    assert_eq!(map.rooms.len(), 2);
}

#[test]
fn place_rooms_goes_through_every_proposal() {
    let first = Rect::new(2, 2, 6, 6);
    let crowding = Rect::new(8, 4, 6, 6);
    let second = Rect::new(20, 10, 6, 6);
    let off_grid = Rect::new(34, 2, 6, 6);
    let third = Rect::new(30, 1, 6, 6);
    let proposals = vec![(first, true), (crowding, true), (second, false), (off_grid, true), (third, true)];
    let mut map = TileMap::new(40, 20).unwrap();
    map.place_rooms(&proposals, 30);
    assert_eq!(map.rooms, vec![first, second, third]);
    let mut by_hand = TileMap::new(40, 20).unwrap();
    by_hand.add_room(first, true);
    by_hand.add_room(second, false);
    by_hand.add_room(third, true);
    assert_eq!(map.tiles, by_hand.tiles);
    assert_eq!(map.tile_at(5, 9), Tile::Floor);
    assert_eq!(map.tile_at(12, 13), Tile::Floor);
    assert_eq!(map.tile_at(12, 5), Tile::Wall);
    assert_eq!(map.tile_at(28, 13), Tile::Floor);
    assert_eq!(map.tile_at(33, 10), Tile::Floor);
}

#[test]
fn place_rooms_stops_placing_at_max_rooms() {
    let first = Rect::new(2, 2, 6, 6);
    let second = Rect::new(20, 10, 6, 6);
    let third = Rect::new(30, 1, 6, 6);
    let proposals = vec![(first, true), (second, true), (third, true)];
    let mut map = TileMap::new(40, 20).unwrap();
    map.place_rooms(&proposals, 2);
    assert_eq!(map.rooms, vec![first, second]);
    assert_eq!(map.tile_at(33, 4), Tile::Wall);
    let mut none = TileMap::new(40, 20).unwrap();
    none.place_rooms(&proposals, 0);
    assert!(none.rooms.is_empty());
    assert!(none.tiles.iter().all(|t| *t == Tile::Wall));
}

#[test]
fn place_rooms_of_no_proposal_changes_nothing() {
    let mut map = TileMap::new(40, 20).unwrap();
    map.add_room(Rect::new(2, 2, 6, 6), true);
    let tiles = map.tiles.clone();
    map.place_rooms(&Vec::new(), 30);
    assert_eq!(map.rooms.len(), 1);
    assert_eq!(map.tiles, tiles);
}

#[test]
fn place_rooms_goes_on_from_the_rooms_that_stand() {
    let first = Rect::new(2, 2, 6, 6);
    let second = Rect::new(20, 10, 6, 6);
    let mut map = TileMap::new(40, 20).unwrap();
    map.add_room(first, true);
    map.place_rooms(&vec![(Rect::new(4, 4, 6, 6), true), (second, true)], 30);
    assert_eq!(map.rooms, vec![first, second]);
    for x in 5..=23 {
        assert_eq!(map.tile_at(x, 5), Tile::Floor);
    }
    for y in 5..=13 {
        assert_eq!(map.tile_at(23, y), Tile::Floor);
    }
}
