use bracket_lib::prelude::RandomNumberGenerator;
use roguelike::{GenerationError, LevelConfig, Strategy, Tile, TileMap};

fn ring_is_wall(map: &TileMap) -> bool {
    for y in 0..map.height {
        for x in 0..map.width {
            let ring = x == 0 || y == 0 || x == map.width - 1 || y == map.height - 1;
            if ring && map.tile_at(x, y) != Tile::Wall {
                return false;
            }
        }
    }
    true
}

fn walk_from(map: &TileMap, start: (i32, i32)) -> Vec<bool> {
    let mut reached = vec![false; map.tiles.len()];
    let mut pending = vec![start];
    while let Some((x, y)) = pending.pop() {
        if !map.in_bounds(x, y) || map.tile_at(x, y) != Tile::Floor {
            continue;
        }
        let idx = map.xy_idx(x, y);
        if reached[idx] {
            continue;
        }
        reached[idx] = true;
        pending.push((x + 1, y));
        pending.push((x - 1, y));
        pending.push((x, y + 1));
        pending.push((x, y - 1));
    }
    reached
}

#[test]
fn standard_config() {
    let c = LevelConfig::standard();
    assert_eq!((c.width, c.height), (80, 50));
    assert_eq!((c.attempts, c.max_rooms), (30, 30));
    assert_eq!((c.min_size, c.max_size), (6, 10));
    assert_eq!(c.scatter_trials, 400);
    assert_eq!(c.view_range, 8);
    assert!(c.has_grid());
    assert!(c.has_room_for_rooms());
}

#[test]
fn config_without_a_grid() {
    let mut c = LevelConfig::standard();
    c.width = 0;
    assert!(!c.has_grid());
    assert!(!c.has_room_for_rooms());
    c.width = 65536;
    c.height = 32768;
    assert!(!c.has_grid());
}

#[test]
fn config_without_room_for_rooms() {
    let mut c = LevelConfig::standard();
    c.width = 11;
    assert!(c.has_grid());
    assert!(!c.has_room_for_rooms());
    c.width = 12;
    assert!(c.has_room_for_rooms());
    c.height = 11;
    assert!(!c.has_room_for_rooms());
    c.height = 50;
    c.min_size = 1;
    assert!(!c.has_room_for_rooms());
    c.min_size = 11;
    assert!(!c.has_room_for_rooms());
    c.min_size = 10;
    assert!(c.has_room_for_rooms());
}

#[test]
fn rooms_level_has_a_wall_all_around() {
    for seed in 0..20 {
        let mut rng = RandomNumberGenerator::seeded(seed);
        let map = TileMap::new_map_rooms_and_corridors(&mut rng, &LevelConfig::standard()).unwrap();
        assert!(ring_is_wall(&map));
    }
}

#[test]
fn rooms_keep_their_distance() {
    for seed in 0..20 {
        let mut rng = RandomNumberGenerator::seeded(seed);
        let map = TileMap::new_map_rooms_and_corridors(&mut rng, &LevelConfig::standard()).unwrap();
        for i in 0..map.rooms.len() {
            for j in 0..map.rooms.len() {
                if i != j {
                    assert!(!map.rooms[i].intersects_with_margin(&map.rooms[j]));
                    assert!(!map.rooms[i].intersects(&map.rooms[j]));
                }
            }
        }
    }
}

#[test]
fn every_room_can_be_walked_to_from_the_first() {
    for seed in 0..20 {
        let mut rng = RandomNumberGenerator::seeded(seed);
        let map = TileMap::new_map_rooms_and_corridors(&mut rng, &LevelConfig::standard()).unwrap();
        let reached = walk_from(&map, map.rooms[0].center());
        for room in map.rooms.iter() {
            for y in room.y1 + 1..=room.y2 {
                for x in room.x1 + 1..=room.x2 {
                    assert_eq!(map.tile_at(x, y), Tile::Floor);
                    assert!(reached[map.xy_idx(x, y)]);
                }
            }
        }
    }
}

#[test]
fn every_open_cell_can_be_walked_to_from_the_first_room() {
    for seed in 0..20 {
        let mut rng = RandomNumberGenerator::seeded(seed);
        let map = TileMap::new_map_rooms_and_corridors(&mut rng, &LevelConfig::standard()).unwrap();
        let reached = walk_from(&map, map.rooms[0].center());
        for idx in 0..map.tiles.len() {
            assert_eq!(map.tiles[idx] == Tile::Floor, reached[idx]);
        }
    }
}

#[test]
fn rooms_have_the_configured_size_and_place() {
    let config = LevelConfig::standard();
    let mut widths = Vec::new();
    for seed in 0..40 {
        let mut rng = RandomNumberGenerator::seeded(seed);
        let map = TileMap::new_map_rooms_and_corridors(&mut rng, &config).unwrap();
        assert!(1 <= map.rooms.len() && map.rooms.len() <= 30);
        for room in map.rooms.iter() {
            let (w, h) = (room.x2 - room.x1, room.y2 - room.y1);
            assert!(6 <= w && w <= 10);
            assert!(6 <= h && h <= 10);
            assert!(0 <= room.x1 && room.x2 <= 78);
            assert!(0 <= room.y1 && room.y2 <= 48);
            widths.push(w);
        }
    }
    assert!(widths.iter().any(|w| *w != widths[0]));
}

#[test]
fn rooms_are_placed_all_over_the_grid() {
    let config = LevelConfig::standard();
    let mut corners = Vec::new();
    for seed in 0..40 {
        let mut rng = RandomNumberGenerator::seeded(seed);
        let map = TileMap::new_map_rooms_and_corridors(&mut rng, &config).unwrap();
        for room in map.rooms.iter() {
            corners.push((room.x1, room.y1));
        }
    }
    assert!(corners.iter().any(|c| c.0 < 20));
    assert!(corners.iter().any(|c| c.0 > 50));
    assert!(corners.iter().any(|c| c.1 < 10));
    assert!(corners.iter().any(|c| c.1 > 30));
    assert!(corners.iter().any(|c| c.0 + 10 < 78 && c.1 + 10 < 48));
}

#[test]
fn open_ground_is_rooms_and_corridors() {
    for seed in 0..20 {
        let mut rng = RandomNumberGenerator::seeded(seed);
        let map = TileMap::new_map_rooms_and_corridors(&mut rng, &LevelConfig::standard()).unwrap();
        for y in 0..map.height {
            for x in 0..map.width {
                let in_room = map.rooms.iter().any(|r| r.x1 < x && x <= r.x2 && r.y1 < y && y <= r.y2);
                let mut on_corridor = false;
                for k in 1..map.rooms.len() {
                    let (ax, ay) = map.rooms[k - 1].center();
                    let (bx, by) = map.rooms[k].center();
                    let in_x = ax.min(bx) <= x && x <= ax.max(bx);
                    let in_y = ay.min(by) <= y && y <= ay.max(by);
                    on_corridor = on_corridor || (in_x && (y == ay || y == by)) || (in_y && (x == ax || x == bx));
                }
                if map.tile_at(x, y) == Tile::Floor {
                    assert!(in_room || on_corridor);
                }
                if in_room {
                    assert_eq!(map.tile_at(x, y), Tile::Floor);
                }
            }
        }
    }
}

#[test]
fn rooms_level_starts_unseen() {
    let mut rng = RandomNumberGenerator::seeded(7);
    let map = TileMap::new_map_rooms_and_corridors(&mut rng, &LevelConfig::standard()).unwrap();
    assert_eq!((map.width, map.height), (80, 50));
    assert_eq!(map.tiles.len(), 4000);
    assert!(map.revealed.iter().all(|b| !*b));
    assert!(map.visible.iter().all(|b| !*b));
}

#[test]
fn same_seed_builds_the_same_level() {
    let mut a = RandomNumberGenerator::seeded(99);
    let mut b = RandomNumberGenerator::seeded(99);
    let first = TileMap::new_map_rooms_and_corridors(&mut a, &LevelConfig::standard()).unwrap();
    let second = TileMap::new_map_rooms_and_corridors(&mut b, &LevelConfig::standard()).unwrap();
    assert_eq!(first.tiles, second.tiles);
    assert_eq!(first.rooms, second.rooms);
}

#[test]
fn room_count_stops_at_max_rooms() {
    let mut config = LevelConfig::standard();
    config.max_rooms = 3;
    for seed in 0..10 {
        let mut rng = RandomNumberGenerator::seeded(seed);
        let map = TileMap::new_map_rooms_and_corridors(&mut rng, &config).unwrap();
        assert!(1 <= map.rooms.len() && map.rooms.len() <= 3);
    }
}

#[test]
fn one_attempt_gives_one_room() {
    let mut config = LevelConfig::standard();
    config.attempts = 1;
    for seed in 0..10 {
        let mut rng = RandomNumberGenerator::seeded(seed);
        let map = TileMap::new_map_rooms_and_corridors(&mut rng, &config).unwrap();
        assert_eq!(map.rooms.len(), 1);
    }
}

#[test]
fn rooms_of_one_size_on_the_smallest_grid() {
    let config = LevelConfig {
        width: 4,
        height: 4,
        attempts: 5,
        max_rooms: 5,
        min_size: 2,
        max_size: 2,
        scatter_trials: 0,
        view_range: 8,
    };
    let mut rng = RandomNumberGenerator::seeded(1);
    let map = TileMap::new_map_rooms_and_corridors(&mut rng, &config).unwrap();
    assert_eq!(map.rooms.len(), 1);
    assert_eq!((map.rooms[0].x1, map.rooms[0].y1, map.rooms[0].x2, map.rooms[0].y2), (0, 0, 2, 2));
    assert_eq!(map.tile_at(1, 1), Tile::Floor);
    assert_eq!(map.tile_at(2, 2), Tile::Floor);
    assert!(ring_is_wall(&map));
}

#[test]
fn no_attempt_is_a_generation_failure() {
    let mut config = LevelConfig::standard();
    config.attempts = 0;
    let mut rng = RandomNumberGenerator::seeded(1);
    assert_eq!(
        TileMap::new_map_rooms_and_corridors(&mut rng, &config).err(),
        Some(GenerationError::NoRooms)
    );
}

#[test]
fn no_room_allowed_is_a_generation_failure() {
    let mut config = LevelConfig::standard();
    config.max_rooms = 0;
    let mut rng = RandomNumberGenerator::seeded(1);
    assert_eq!(
        TileMap::new_map_rooms_and_corridors(&mut rng, &config).err(),
        Some(GenerationError::NoRooms)
    );
}

#[test]
fn grid_too_small_for_rooms_is_an_invalid_config() {
    let mut config = LevelConfig::standard();
    config.width = 11;
    let mut rng = RandomNumberGenerator::seeded(1);
    assert_eq!(
        TileMap::new_map_rooms_and_corridors(&mut rng, &config).err(),
        Some(GenerationError::InvalidConfig)
    );
    config.attempts = 0;
    assert_eq!(
        TileMap::new_map_rooms_and_corridors(&mut rng, &config).err(),
        Some(GenerationError::InvalidConfig)
    );
}

#[test]
fn scatter_level_has_a_wall_all_around() {
    for seed in 0..10 {
        let mut rng = RandomNumberGenerator::seeded(seed);
        let map = TileMap::new_map_scatter(&mut rng, &LevelConfig::standard()).unwrap();
        assert!(ring_is_wall(&map));
        assert!(map.rooms.is_empty());
        assert!(map.revealed.iter().all(|b| !*b));
        assert!(map.visible.iter().all(|b| !*b));
    }
}

#[test]
fn scatter_throws_at_most_its_trials() {
    let mut config = LevelConfig::standard();
    for trials in [0u32, 1, 400, 1000] {
        config.scatter_trials = trials;
        let mut rng = RandomNumberGenerator::seeded(5);
        let map = TileMap::new_map_scatter(&mut rng, &config).unwrap();
        let mut inner_walls = 0;
        for y in 1..49 {
            for x in 1..79 {
                if map.tile_at(x, y) == Tile::Wall {
                    inner_walls += 1;
                }
            }
        }
        assert!(inner_walls <= trials);
        if trials == 0 {
            assert_eq!(inner_walls, 0);
        }
        if trials >= 400 {
            assert!(inner_walls > 100);
        }
    }
}

#[test]
fn scatter_without_a_grid_is_an_invalid_config() {
    let mut config = LevelConfig::standard();
    config.height = 0;
    let mut rng = RandomNumberGenerator::seeded(1);
    assert_eq!(TileMap::new_map_scatter(&mut rng, &config).err(), Some(GenerationError::InvalidConfig));
}

#[test]
fn scatter_on_a_single_cell() {
    let mut config = LevelConfig::standard();
    config.width = 1;
    config.height = 1;
    let mut rng = RandomNumberGenerator::seeded(1);
    let map = TileMap::new_map_scatter(&mut rng, &config).unwrap();
    assert_eq!(map.tiles, vec![Tile::Wall]);
}

#[test]
fn generate_goes_by_the_strategy() {
    let config = LevelConfig::standard();
    let mut rng = RandomNumberGenerator::seeded(3);
    let scattered = TileMap::generate(Strategy::Scatter, &mut rng, &config).unwrap();
    assert!(scattered.rooms.is_empty());
    let built = TileMap::generate(Strategy::RoomsAndCorridors, &mut rng, &config).unwrap();
    assert!(!built.rooms.is_empty());
    let mut none = config;
    none.attempts = 0;
    assert_eq!(
        TileMap::generate(Strategy::RoomsAndCorridors, &mut rng, &none).err(),
        Some(GenerationError::NoRooms)
    );
    assert!(TileMap::generate(Strategy::Scatter, &mut rng, &none).is_ok());
}

#[test]
fn rooms_are_proposed_until_the_attempts_are_used_up() {
    let config = LevelConfig::standard();
    let mut most = 0;
    for seed in 0..20 {
        let mut rng = RandomNumberGenerator::seeded(seed);
        let map = TileMap::new_map_rooms_and_corridors(&mut rng, &config).unwrap();
        assert!(map.rooms.len() >= 3);
        most = most.max(map.rooms.len());
    }
    assert!(most >= 8);
}

#[test]
fn rooms_are_proposed_until_enough_stand() {
    let mut config = LevelConfig::standard();
    config.attempts = 1000;
    config.max_rooms = 4;
    for seed in 0..20 {
        let mut rng = RandomNumberGenerator::seeded(seed);
        let map = TileMap::new_map_rooms_and_corridors(&mut rng, &config).unwrap();
        assert_eq!(map.rooms.len(), 4);
    }
}
