use rand::rngs::StdRng;
use rand::SeedableRng;
use roguelike::basic_builders::{create_room, dig_horizontal, dig_vertical, SimpleMapBuilder};
use roguelike::builders::{drunk_builder, random_builder, shop_builder, BuiltMap, MapBuilder, MapStrategy};
use roguelike::component::{Entity, Position, TileBlocker};
use roguelike::drunkard::DrunkardsWalkBuilder;
use roguelike::geom::{Point, Rect, Size, Vector};
use roguelike::index_system::index_system;
use roguelike::map::{GameMap, TileType};
use roguelike::world::EntityRecord;

fn index(map: &GameMap, x: i32, y: i32) -> usize {
    (y * map.size.x + x) as usize
}

fn assert_blocked_matches_tiles(map: &GameMap) {
    for i in 0..map.tiles.len() {
        assert_eq!(map.blocked[i], map.tiles[i] == TileType::Wall);
    }
}

fn overlaps(a: &Rect, b: &Rect) -> bool {
    a.origin.x < b.origin.x + b.size.width
        && a.origin.x + a.size.width > b.origin.x
        && a.origin.y < b.origin.y + b.size.height
        && a.origin.y + a.size.height > b.origin.y
}

#[test]
fn new_map_is_all_wall() {
    let map = GameMap::new((4, 3), 2);
    assert_eq!(map.tiles.len(), 12);
    assert_eq!(map.depth, 2);
    assert!(map.tiles.iter().all(|t| *t == TileType::Wall));
    assert!(map.blocked.iter().all(|b| *b));
    assert!(map.tile_content.iter().all(|c| c.is_none()));
    assert_eq!(map.coord_to_index(3, 2), 11);
    assert_eq!(map.coord_to_index(1, 1), 5);
}

#[test]
fn create_room_carves_exactly_the_rectangle() {
    let mut map = GameMap::new((6, 5), 0);
    create_room(&mut map, &Rect::new(Point::new(1, 1), Size { width: 3, height: 2 }));
    for y in 0..5 {
        for x in 0..6 {
            let inside = (1..4).contains(&x) && (1..3).contains(&y);
            let i = index(&map, x, y);
            assert_eq!(map.tiles[i] == TileType::Floor, inside);
            assert_eq!(map.blocked[i], !inside);
        }
    }
}

#[test]
fn corridors_dig_in_either_direction() {
    let mut map = GameMap::new((6, 6), 0);
    dig_horizontal(&mut map, 4, 1, 2);
    dig_vertical(&mut map, 5, 3, 0);
    for x in 1..=4 {
        assert_eq!(map.tiles[index(&map, x, 2)], TileType::Floor);
    }
    for y in 3..=5 {
        assert_eq!(map.tiles[index(&map, 0, y)], TileType::Floor);
        assert!(!map.blocked[index(&map, 0, y)]);
    }
    let floors = map.tiles.iter().filter(|t| **t == TileType::Floor).count();
    assert_eq!(floors, 7);
}

#[test]
fn rooms_do_not_overlap_and_are_open() {
    for seed in 0..20u64 {
        let mut rng = StdRng::seed_from_u64(seed);
        let built = random_builder(Vector::new(80, 50), 1, &mut rng);
        let rooms = built.rooms.clone().unwrap();
        assert!(!rooms.is_empty());
        for (j, a) in rooms.iter().enumerate() {
            assert!(a.origin.x >= 1 && a.origin.y >= 1);
            assert!(a.origin.x + a.size.width <= 78 && a.origin.y + a.size.height <= 48);
            assert!((6..10).contains(&a.size.width) && (6..10).contains(&a.size.height));
            for (k, b) in rooms.iter().enumerate() {
                if j != k {
                    assert!(!overlaps(a, b));
                }
            }
            for y in a.origin.y..a.origin.y + a.size.height {
                for x in a.origin.x..a.origin.x + a.size.width {
                    let i = index(&built.map, x, y);
                    assert_eq!(built.map.tiles[i], TileType::Floor);
                    assert!(!built.map.blocked[i]);
                }
            }
        }
        assert_blocked_matches_tiles(&built.map);
    }
}

#[test]
fn start_is_centre_of_first_room() {
    let mut rng = StdRng::seed_from_u64(11);
    let built = random_builder(Vector::new(60, 40), 3, &mut rng);
    let first = built.rooms.as_ref().unwrap()[0];
    let start = built.starting_position.unwrap();
    assert_eq!(start.x, first.origin.x + first.size.width / 2);
    assert_eq!(start.y, first.origin.y + first.size.height / 2);
    assert_eq!(built.map.depth, 3);
}

#[test]
fn end_to_end_rooms_then_index() {
    let mut rng = StdRng::seed_from_u64(42);
    let mut built = random_builder(Vector::new(20, 10), 1, &mut rng);
    let start = built.starting_position.unwrap();
    let rooms = built.rooms.clone().unwrap();
    let first = rooms.first().expect("a 20 by 10 map always gets a room");
    assert!(start.x >= first.origin.x && start.x < first.origin.x + first.size.width);
    assert!(start.y >= first.origin.y && start.y < first.origin.y + first.size.height);
    let hero = Entity { id: 1 };
    let mut record = EntityRecord::new(hero);
    record.position = Some(Position { x: start.x, y: start.y });
    record.blocker = Some(TileBlocker);
    let entities = vec![record];
    index_system(&mut built.map, &entities);
    let i = built.map.coord_to_index(start.x, start.y);
    assert_eq!(built.map.tile_content[i], Some(hero));
    assert!(!built.map.blocked[i]);
}

#[test]
fn small_map_still_gets_a_start() {
    let mut rng = StdRng::seed_from_u64(3);
    let built = random_builder(Vector::new(8, 8), 0, &mut rng);
    assert!(built.rooms.as_ref().unwrap().is_empty());
    assert_eq!(built.starting_position, Some(Point::new(4, 4)));
    assert!(built.map.tiles.iter().all(|t| *t == TileType::Wall));
}

#[test]
fn drunkards_walk_reaches_its_floor_share() {
    for seed in 0..5u64 {
        let mut rng = StdRng::seed_from_u64(seed);
        let built = drunk_builder(Vector::new(40, 30), 2, &mut rng);
        let floors = built.map.tiles.iter().filter(|t| **t == TileType::Floor).count();
        assert!(floors * 100 >= 60 * 40 * 30);
        assert!(built.map.tiles.iter().all(|t| *t != TileType::Digging));
        assert_eq!(built.starting_position, Some(Point::new(20, 15)));
        assert_blocked_matches_tiles(&built.map);
    }
}

#[test]
fn drunkard_build_reports_target() {
    let mut rng = StdRng::seed_from_u64(9);
    let mut data = BuiltMap::new(Vector::new(10, 10), 0);
    let walker = DrunkardsWalkBuilder {
        lifetime: 50,
        floor_percent: 30,
        brush_size: 1,
    };
    assert!(walker.build(&mut rng, &mut data));
    let floors = data.map.tiles.iter().filter(|t| **t == TileType::Floor).count();
    assert!(floors >= 30);
    // the walker never digs the outer ring
    for x in 0..10 {
        assert_eq!(data.map.tiles[index(&data.map, x, 0)], TileType::Wall);
        assert_eq!(data.map.tiles[index(&data.map, x, 9)], TileType::Wall);
    }
}

#[test]
fn shop_is_one_inset_room() {
    let mut rng = StdRng::seed_from_u64(0);
    let built = shop_builder(Vector::new(20, 20), &mut rng);
    assert_eq!(built.starting_position, Some(Point::new(10, 10)));
    assert_eq!(built.map.depth, 0);
    let floors = built.map.tiles.iter().filter(|t| **t == TileType::Floor).count();
    assert_eq!(floors, 18 * 18);
    assert_blocked_matches_tiles(&built.map);
}

#[test]
fn history_ends_with_final_tiles() {
    let mut rng = StdRng::seed_from_u64(5);
    let built = MapBuilder::new(
        Vector::new(50, 30),
        1,
        MapStrategy::RoomsAndCorridors(SimpleMapBuilder),
    )
    .keep_history()
    .build(&mut rng);
    assert!(built.with_history);
    assert!(built.history.len() >= 2);
    let last = built.history.last().unwrap();
    assert_eq!(last.tiles, built.map.tiles);
    assert!(last.revealed_tiles.iter().all(|r| *r));
}

#[test]
fn no_history_unless_asked() {
    let mut rng = StdRng::seed_from_u64(5);
    let built = MapBuilder::new(
        Vector::new(50, 30),
        1,
        MapStrategy::RoomsAndCorridors(SimpleMapBuilder),
    )
    .build(&mut rng);
    assert!(built.history.is_empty());
}

#[test]
fn modifier_runs_after_base() {
    let mut rng = StdRng::seed_from_u64(1);
    let built = MapBuilder::new(
        Vector::new(30, 20),
        1,
        MapStrategy::RoomsAndCorridors(SimpleMapBuilder),
    )
    .with(MapStrategy::Shop(roguelike::basic_builders::ShopBuilder))
    .build(&mut rng);
    let floors = built.map.tiles.iter().filter(|t| **t == TileType::Floor).count();
    assert_eq!(floors, 28 * 18);
    assert_eq!(built.starting_position, Some(Point::new(15, 10)));
    assert_blocked_matches_tiles(&built.map);
}

#[test]
fn short_maps_get_rooms_every_time() {
    for seed in 0..30u64 {
        let mut rng = StdRng::seed_from_u64(seed);
        let built = random_builder(Vector::new(20, 10), 1, &mut rng);
        let rooms = built.rooms.unwrap();
        assert!(!rooms.is_empty());
        for r in &rooms {
            assert!(r.origin.y + r.size.height <= 8);
        }
        let s = built.starting_position.unwrap();
        assert_eq!(built.map.tiles[index(&built.map, s.x, s.y)], TileType::Floor);
    }
}

#[test]
fn corridors_join_consecutive_rooms() {
    let mut rng = StdRng::seed_from_u64(21);
    let built = random_builder(Vector::new(80, 50), 1, &mut rng);
    let rooms = built.rooms.clone().unwrap();
    let floor = |x: i32, y: i32| built.map.tiles[index(&built.map, x, y)] == TileType::Floor;
    for pair in rooms.windows(2) {
        let a = Point::new(pair[0].origin.x + pair[0].size.width / 2, pair[0].origin.y + pair[0].size.height / 2);
        let b = Point::new(pair[1].origin.x + pair[1].size.width / 2, pair[1].origin.y + pair[1].size.height / 2);
        let xs = a.x.min(b.x)..=a.x.max(b.x);
        let ys = a.y.min(b.y)..=a.y.max(b.y);
        let row_first = xs.clone().all(|x| floor(x, a.y)) && ys.clone().all(|y| floor(b.x, y));
        let col_first = xs.clone().all(|x| floor(x, b.y)) && ys.clone().all(|y| floor(a.x, y));
        assert!(row_first || col_first);
    }
}

#[test]
fn drunkards_walk_keeps_the_ring_and_digs_the_centre() {
    let mut rng = StdRng::seed_from_u64(12);
    let built = drunk_builder(Vector::new(30, 20), 1, &mut rng);
    assert!(built.complete);
    for x in 0..30 {
        assert_eq!(built.map.tiles[index(&built.map, x, 0)], TileType::Wall);
        assert_eq!(built.map.tiles[index(&built.map, x, 19)], TileType::Wall);
    }
    for y in 0..20 {
        assert_eq!(built.map.tiles[index(&built.map, 0, y)], TileType::Wall);
        assert_eq!(built.map.tiles[index(&built.map, 29, y)], TileType::Wall);
    }
    assert_eq!(built.map.tiles[index(&built.map, 15, 10)], TileType::Floor);
}

#[test]
fn every_snapshot_is_revealed() {
    let mut rng = StdRng::seed_from_u64(8);
    let built = MapBuilder::new(
        Vector::new(40, 30),
        1,
        MapStrategy::DrunkardsWalk(DrunkardsWalkBuilder {
            lifetime: 100,
            floor_percent: 40,
            brush_size: 1,
        }),
    )
    .keep_history()
    .build(&mut rng);
    assert!(!built.history.is_empty());
    for snap in &built.history {
        assert!(snap.revealed_tiles.iter().all(|r| *r));
    }
    assert_eq!(built.history.last().unwrap().tiles, built.map.tiles);
}

#[test]
fn empty_grid_is_allowed() {
    let map = GameMap::new((0, 5), 1);
    assert!(map.tiles.is_empty() && map.blocked.is_empty() && map.tile_content.is_empty());
    let mut rng = StdRng::seed_from_u64(2);
    let built = random_builder(Vector::new(0, 0), 0, &mut rng);
    assert!(built.rooms.unwrap().is_empty());
    assert_eq!(built.starting_position, Some(Point::new(0, 0)));
    assert!(built.map.tiles.is_empty());
}
