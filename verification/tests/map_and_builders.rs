//! The spatial map and the level builders, exercised with the real random
//! number generator: index arithmetic, carving, exits, glyphs, and the
//! structural guarantees of generated levels.

use dungeon_core::components::Position;
use dungeon_core::connectivity::all_walkable_connected;
use dungeon_core::map::{GameMap, TileType, DIAG_COST, MAPCOUNT, MAPHEIGHT, MAPWIDTH, STEP_COST};
use dungeon_core::map_builders::{
    apply_horizontal_tunnel, apply_room_to_map, apply_vertical_tunnel, random_builder,
};
use dungeon_core::bsp_map::BspMapBuilder;
use dungeon_core::map::wall_glyph;
use dungeon_core::rect::Rect;
use dungeon_core::simple_map::SimpleMapBuilder;

fn idx(x: i32, y: i32) -> usize {
    (y as usize) * MAPWIDTH + (x as usize)
}

#[test]
fn index_round_trip_is_exact_for_all_coordinates() {
    let map = GameMap::new(1);
    for y in 0..MAPHEIGHT as i32 {
        for x in 0..MAPWIDTH as i32 {
            let i = map.xy_idx(x, y);
            assert_eq!(i, idx(x, y));
            assert_eq!((i % MAPWIDTH) as i32, x);
            assert_eq!((i / MAPWIDTH) as i32, y);
        }
    }
    assert_eq!(map.xy_idx(0, 0), 0);
    assert_eq!(map.xy_idx(79, 42), MAPCOUNT - 1);
    assert_eq!(map.xy_idx(5, 5), 405);
}

#[test]
fn new_map_is_all_walls_and_unrevealed() {
    let map = GameMap::new(3);
    assert_eq!(map.depth, 3);
    assert_eq!(map.tiles.len(), MAPCOUNT);
    for i in 0..MAPCOUNT {
        assert!(matches!(map.tiles[i], TileType::Wall));
        assert!(!map.revealed_tiles[i]);
        assert!(!map.visible_tiles[i]);
        assert!(!map.blocked[i]);
        assert!(map.tile_content[i].is_empty());
    }
}

#[test]
fn populate_blocked_marks_exactly_the_walls() {
    let mut map = GameMap::new(1);
    let room = Rect::with_size(10, 10, 6, 6);
    apply_room_to_map(&mut map, &room);
    map.populate_blocked();
    for i in 0..MAPCOUNT {
        assert_eq!(map.blocked[i], matches!(map.tiles[i], TileType::Wall));
    }
}

#[test]
fn carved_corridor_between_room_centers_is_all_floor() {
    // Two accepted, non-overlapping rooms whose centres are (5, 5) and
    // (20, 5), connected by an L-shaped corridor.
    let mut map = GameMap::new(1);
    let room_a = Rect::with_size(2, 2, 6, 6);
    let room_b = Rect::with_size(17, 2, 6, 6);
    assert!(!room_a.intersect(&room_b));
    let ca = room_a.center();
    let cb = room_b.center();
    assert_eq!((ca.x, ca.y), (5, 5));
    assert_eq!((cb.x, cb.y), (20, 5));

    apply_room_to_map(&mut map, &room_a);
    apply_room_to_map(&mut map, &room_b);
    apply_horizontal_tunnel(&mut map, ca.x, cb.x, ca.y);
    apply_vertical_tunnel(&mut map, ca.y, cb.y, cb.x);

    for x in 5..=20 {
        assert!(matches!(map.tiles[idx(x, 5)], TileType::Floor));
    }
}

#[test]
fn available_exits_use_the_fixed_costs() {
    let mut map = GameMap::new(1);
    let room = Rect::with_size(9, 9, 6, 6);
    apply_room_to_map(&mut map, &room);
    map.populate_blocked();
    // (12, 12) sits inside the carved interior with all eight
    // neighbours open.
    let exits = map.get_available_exits(idx(12, 12));
    assert_eq!(exits.len(), 8);
    assert_eq!(exits[0], (idx(11, 12), STEP_COST));
    assert_eq!(exits[1], (idx(13, 12), STEP_COST));
    assert_eq!(exits[2], (idx(12, 11), STEP_COST));
    assert_eq!(exits[3], (idx(12, 13), STEP_COST));
    assert_eq!(exits[4], (idx(11, 11), DIAG_COST));
    assert_eq!(exits[5], (idx(13, 11), DIAG_COST));
    assert_eq!(exits[6], (idx(11, 13), DIAG_COST));
    assert_eq!(exits[7], (idx(13, 13), DIAG_COST));

    // A corner of the interior has three exits: east, south, south-east.
    let exits = map.get_available_exits(idx(10, 10));
    assert_eq!(exits.len(), 3);
    assert_eq!(exits[0], (idx(11, 10), STEP_COST));
    assert_eq!(exits[1], (idx(10, 11), STEP_COST));
    assert_eq!(exits[2], (idx(11, 11), DIAG_COST));
}

#[test]
fn is_opaque_follows_the_tiles_alone() {
    let mut map = GameMap::new(1);
    let room = Rect::with_size(9, 9, 6, 6);
    apply_room_to_map(&mut map, &room);
    assert!(map.is_opaque(idx(0, 0)));
    assert!(!map.is_opaque(idx(12, 12)));
}

#[test]
fn wall_glyph_joins_revealed_neighbours() {
    let mut map = GameMap::new(1);
    for i in 0..MAPCOUNT {
        map.revealed_tiles[i] = true;
    }
    // Fully surrounded by revealed walls: the four-way join.
    assert_eq!(wall_glyph(&map, 10, 10), 206);
    // Borders fall back to plain bars.
    assert_eq!(wall_glyph(&map, 0, 10), 186);
    assert_eq!(wall_glyph(&map, 10, 0), 205);
    // Carve east and west neighbours: wall runs north-south.
    map.tiles[idx(9, 10)] = TileType::Floor;
    map.tiles[idx(11, 10)] = TileType::Floor;
    assert_eq!(wall_glyph(&map, 10, 10), 186);
}

fn assert_level_structure(map: &GameMap, start: Position) {
    // The verified checker accepts only levels whose walkable tiles all
    // connect to the start.
    assert!(all_walkable_connected(map, start));

    // Exactly one down-stairs tile.
    let stairs: Vec<usize> = (0..MAPCOUNT)
        .filter(|&i| matches!(map.tiles[i], TileType::DownStairs))
        .collect();
    assert_eq!(stairs.len(), 1);

    // Every walkable tile is reachable from the start (8-connected).
    let start_idx = map.xy_idx(start.x, start.y);
    assert!(!matches!(map.tiles[start_idx], TileType::Wall));
    let mut seen = vec![false; MAPCOUNT];
    let mut queue = vec![start_idx];
    seen[start_idx] = true;
    while let Some(i) = queue.pop() {
        let x = (i % MAPWIDTH) as i32;
        let y = (i / MAPWIDTH) as i32;
        for dy in -1..=1 {
            for dx in -1..=1 {
                if dx == 0 && dy == 0 {
                    continue;
                }
                let nx = x + dx;
                let ny = y + dy;
                if nx < 0 || nx >= MAPWIDTH as i32 || ny < 0 || ny >= MAPHEIGHT as i32 {
                    continue;
                }
                let ni = map.xy_idx(nx, ny);
                if !seen[ni] && !matches!(map.tiles[ni], TileType::Wall) {
                    seen[ni] = true;
                    queue.push(ni);
                }
            }
        }
    }
    for i in 0..MAPCOUNT {
        if !matches!(map.tiles[i], TileType::Wall) {
            assert!(seen[i], "walkable tile {} unreachable from the start", i);
        }
    }
}

#[test]
fn simple_builder_levels_are_connected_with_one_stairs() {
    for depth in 1..6 {
        let mut builder = SimpleMapBuilder::new(depth);
        builder.build_map();
        let map = builder.get_map();
        let start = builder.get_starting_position();
        assert_eq!(map.depth, depth);
        assert_level_structure(&map, start);

        // The stairs sit in the last accepted room; with at least two
        // rooms that is not the start room.
        let stairs_i = (0..MAPCOUNT)
            .find(|&i| matches!(map.tiles[i], TileType::DownStairs))
            .unwrap();
        let last = builder.rooms[builder.rooms.len() - 1];
        let sx = (stairs_i % MAPWIDTH) as i32;
        let sy = (stairs_i / MAPWIDTH) as i32;
        assert!(last.x1 + 1 <= sx && sx <= last.x2 && last.y1 + 1 <= sy && sy <= last.y2);
        if builder.rooms.len() >= 2 {
            let first = builder.rooms[0];
            assert!(!(first.x1 + 1 <= sx && sx <= first.x2 && first.y1 + 1 <= sy && sy
                <= first.y2));
        }
    }
}

#[test]
fn bsp_builder_levels_are_connected_with_one_stairs() {
    for depth in 1..6 {
        let mut builder = BspMapBuilder::new(depth);
        builder.build_map();
        let map = builder.get_map();
        let start = builder.get_starting_position();
        assert_eq!(map.depth, depth);
        assert_level_structure(&map, start);
    }
}

#[test]
fn bsp_stairs_avoid_the_start_room_when_rooms_allow() {
    for depth in 1..8 {
        let mut builder = BspMapBuilder::new(depth);
        builder.build_map();
        let map = builder.get_map();
        let start = builder.get_starting_position();
        if builder.rooms.len() >= 2 {
            // The start tile stays plain floor and the stairs sit in a
            // different room from the one whose centre the player starts on.
            let si = map.xy_idx(start.x, start.y);
            assert!(matches!(map.tiles[si], TileType::Floor));
            let stairs_i = (0..MAPCOUNT)
                .find(|&i| matches!(map.tiles[i], TileType::DownStairs))
                .unwrap();
            let sx = (stairs_i % MAPWIDTH) as i32;
            let sy = (stairs_i / MAPWIDTH) as i32;
            let start_room = builder
                .rooms
                .iter()
                .find(|r| {
                    let c = r.center();
                    c.x == start.x && c.y == start.y
                })
                .unwrap();
            assert!(!(start_room.x1 + 1 <= sx && sx <= start_room.x2 && start_room.y1 + 1 <= sy
                && sy <= start_room.y2));
        }
    }
}

#[test]
fn random_builder_generates_a_sound_level_either_way() {
    for depth in 1..4 {
        let mut builder = random_builder(depth);
        builder.build_map();
        let map = builder.get_map();
        let start = builder.get_starting_position();
        assert_level_structure(&map, start);
        let history = builder.get_snapshot_history();
        for snap in history.iter() {
            for i in 0..MAPCOUNT {
                assert!(snap.revealed_tiles[i]);
            }
        }
    }
}

#[test]
fn snapshot_history_records_the_generation() {
    let mut builder = SimpleMapBuilder::new(1);
    builder.build_map();
    let history = builder.get_snapshot_history();
    assert!(history.len() >= builder.rooms.len());
    let map = builder.get_map();
    let last = &history[history.len() - 1];
    // The last snapshot shows at most the finished floor plan (the stairs
    // are written after the final snapshot).
    let floors_last = (0..MAPCOUNT)
        .filter(|&i| !matches!(last.tiles[i], TileType::Wall))
        .count();
    let floors_map = (0..MAPCOUNT)
        .filter(|&i| !matches!(map.tiles[i], TileType::Wall))
        .count();
    assert!(floors_last <= floors_map);
}
