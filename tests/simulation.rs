use roguelike::basic_builders::create_room;
use rand::rngs::StdRng;
use rand::SeedableRng;
use roguelike::component::{ActiveTurn, Entity, Killed, Monster, Player, Position, Priority, TileBlocker, TurnState};
use roguelike::fov::{calculate_fov, update_viewshed, vision_system, FieldOfView, RayTable};
use roguelike::geom::{Point, Rect, Size};
use roguelike::index_system::index_system;
use roguelike::map::{GameMap, TilePos, TileType};
use roguelike::message::{Color, Message, MessageQueue};
use roguelike::movement::{ai_system, apply_monster_steps, monster_step, resolve_move, try_move_player, MoveOutcome};
use roguelike::turn_system::{turn_system, PendingMoves};
use roguelike::world::EntityRecord;

fn open_map(w: i32, h: i32) -> GameMap {
    let mut map = GameMap::new((w, h), 1);
    create_room(&mut map, &Rect::new(Point::new(1, 1), Size { width: w - 2, height: h - 2 }));
    map
}

fn blocker(id: u64, x: i32, y: i32) -> EntityRecord {
    let mut r = EntityRecord::new(Entity { id });
    r.position = Some(Position { x, y });
    r.blocker = Some(TileBlocker);
    r
}

fn actor(id: u64, priority: u8) -> EntityRecord {
    let mut r = EntityRecord::new(Entity { id });
    r.priority = Some(Priority { value: priority });
    r
}

/// Rays at each whole degree from 0 to 360, stepped as unit vectors from the
/// centre of the viewer's tile.
fn rays(range: u32) -> RayTable {
    let mut all = vec![];
    for i in 0..361 {
        let (dx, dy) = ((i as f32).to_radians().cos(), (i as f32).to_radians().sin());
        let (mut ox, mut oy) = (0.5f32, 0.5f32);
        let mut ray = vec![];
        for _ in 0..range {
            ray.push(Point::new(ox.floor() as i32, oy.floor() as i32));
            ox += dx;
            oy += dy;
        }
        all.push(ray);
    }
    RayTable::new(all).unwrap()
}

fn finish_turn(entities: &mut Vec<EntityRecord>) {
    for e in entities.iter_mut() {
        if let Some(t) = e.active_turn.as_mut() {
            t.state = TurnState::DONE;
        }
    }
}

fn holders(entities: &[EntityRecord]) -> Vec<u64> {
    entities
        .iter()
        .filter(|e| e.active_turn.is_some())
        .map(|e| e.entity.id)
        .collect()
}

#[test]
fn index_marks_walls_and_occupants() {
    let mut map = open_map(5, 5);
    map.blocked[12] = true;
    map.tile_content[0] = Some(Entity { id: 9 });
    let mut loose = EntityRecord::new(Entity { id: 3 });
    loose.position = Some(Position { x: 1, y: 1 });
    let entities = vec![blocker(1, 2, 2), blocker(2, 3, 1), loose];
    index_system(&mut map, &entities);
    for i in 0..25 {
        assert_eq!(map.blocked[i], map.tiles[i] == TileType::Wall);
    }
    assert_eq!(map.tile_content[12], Some(Entity { id: 1 }));
    assert_eq!(map.tile_content[8], Some(Entity { id: 2 }));
    assert_eq!(map.tile_content[6], None);
    assert_eq!(map.tile_content[0], None);
}

#[test]
fn index_later_blocker_wins_a_shared_tile() {
    let mut map = open_map(4, 4);
    let entities = vec![blocker(1, 1, 1), blocker(2, 1, 1)];
    index_system(&mut map, &entities);
    assert_eq!(map.tile_content[5], Some(Entity { id: 2 }));
}

#[test]
fn index_twice_is_idempotent() {
    let mut map = open_map(6, 6);
    let entities = vec![blocker(1, 2, 2), blocker(2, 4, 3)];
    index_system(&mut map, &entities);
    let (blocked, content) = (map.blocked.clone(), map.tile_content.clone());
    index_system(&mut map, &entities);
    assert_eq!(map.blocked, blocked);
    assert_eq!(map.tile_content, content);
}

#[test]
fn higher_priority_takes_the_first_turn() {
    let mut entities = vec![actor(1, 1), actor(2, 100)];
    let mut pending = PendingMoves::new();
    let granted = turn_system(&mut pending, &mut entities);
    assert_eq!(granted, Some(Entity { id: 2 }));
    assert_eq!(holders(&entities), vec![2]);
    assert_eq!(entities[1].active_turn, Some(ActiveTurn { state: TurnState::PENDING }));
}

#[test]
fn queue_is_sorted_whatever_the_record_order() {
    let mut entities = vec![actor(1, 100), actor(2, 1), actor(3, 50)];
    let mut pending = PendingMoves::new();
    let mut order = vec![];
    for _ in 0..3 {
        order.push(turn_system(&mut pending, &mut entities).unwrap().id);
        finish_turn(&mut entities);
    }
    assert_eq!(order, vec![1, 3, 2]);
}

#[test]
fn each_entity_acts_once_per_pass() {
    let mut entities = vec![actor(1, 5), actor(2, 9), actor(3, 1), actor(4, 7)];
    let mut pending = PendingMoves::new();
    let mut order = vec![];
    for _ in 0..8 {
        order.push(turn_system(&mut pending, &mut entities).unwrap().id);
        assert_eq!(holders(&entities).len(), 1);
        finish_turn(&mut entities);
    }
    assert_eq!(order, vec![2, 4, 1, 3, 2, 4, 1, 3]);
}

#[test]
fn unfinished_turn_is_not_preempted() {
    let mut entities = vec![actor(1, 1), actor(2, 2)];
    let mut pending = PendingMoves::new();
    assert_eq!(turn_system(&mut pending, &mut entities), Some(Entity { id: 2 }));
    assert_eq!(turn_system(&mut pending, &mut entities), None);
    assert_eq!(holders(&entities), vec![2]);
    finish_turn(&mut entities);
    assert_eq!(turn_system(&mut pending, &mut entities), Some(Entity { id: 1 }));
    assert_eq!(holders(&entities), vec![1]);
}

#[test]
fn ray_table_rejects_a_far_step() {
    assert!(RayTable::new(vec![vec![Point::new(0, 0), Point::new(3, 0)]]).is_none());
    assert!(RayTable::new(vec![vec![Point::new(0, 0), Point::new(2, -2)]]).is_some());
}

#[test]
fn ray_table_needs_rays_from_the_viewer() {
    assert!(RayTable::new(vec![]).is_none());
    assert!(RayTable::new(vec![vec![]]).is_none());
    assert!(RayTable::new(vec![vec![Point::new(1, 0), Point::new(2, 0)]]).is_none());
}

#[test]
fn zero_radius_sees_nothing_and_one_sees_own_tile() {
    let map = open_map(7, 7);
    let table = rays(4);
    assert!(calculate_fov(Point::new(3, 3), 0, &map, &table).is_empty());
    assert_eq!(calculate_fov(Point::new(3, 3), 1, &map, &table), vec![Point::new(3, 3)]);
}

#[test]
fn open_floor_sight_stays_within_range() {
    let map = open_map(31, 31);
    let table = rays(6);
    let pos = Point::new(15, 15);
    let seen = calculate_fov(pos, 6, &map, &table);
    assert!(seen.contains(&pos));
    assert!(seen.contains(&Point::new(20, 15)));
    assert!(!seen.contains(&Point::new(21, 15)));
    for p in &seen {
        assert!((p.x - pos.x).abs() <= 6 && (p.y - pos.y).abs() <= 6);
    }
    let mut sorted = seen.clone();
    sorted.sort_by_key(|p| (p.x, p.y));
    sorted.dedup();
    assert_eq!(sorted.len(), seen.len());
}

#[test]
fn sight_stops_at_a_wall_and_includes_it() {
    let mut map = open_map(11, 5);
    map.tiles[2 * 11 + 5] = TileType::Wall;
    map.blocked[2 * 11 + 5] = true;
    let table = RayTable::new(vec![(0..8).map(|k| Point::new(k, 0)).collect()]).unwrap();
    let seen = calculate_fov(Point::new(2, 2), 8, &map, &table);
    assert_eq!(
        seen,
        vec![Point::new(2, 2), Point::new(3, 2), Point::new(4, 2), Point::new(5, 2)]
    );
}

#[test]
fn sight_stops_at_the_map_edge() {
    let map = open_map(6, 3);
    let table = RayTable::new(vec![(0..8).map(|k| Point::new(k, 0)).collect()]).unwrap();
    let seen = calculate_fov(Point::new(1, 1), 8, &map, &table);
    // (5, 1) is the wall border: seen, and it ends the ray
    assert_eq!(seen.len(), 5);
    assert_eq!(seen.last(), Some(&Point::new(5, 1)));
}

#[test]
fn unmoved_viewer_is_not_recomputed() {
    let map = open_map(21, 21);
    let table = rays(4);
    let mut fov = FieldOfView {
        visible_tiles: vec![],
        range: 4,
        previous_position: Point::new(-1, -1),
    };
    assert!(update_viewshed(&map, Point::new(10, 10), &mut fov, &table));
    let first = fov.visible_tiles.clone();
    assert!(!first.is_empty());
    assert!(!update_viewshed(&map, Point::new(10, 10), &mut fov, &table));
    assert_eq!(fov.visible_tiles, first);
    assert_eq!(fov.previous_position, Point::new(10, 10));
}

#[test]
fn vision_counts_recomputations_and_reveals_for_the_player() {
    let mut map = open_map(21, 21);
    let table = rays(4);
    let mut player = EntityRecord::new(Entity { id: 1 });
    player.position = Some(Position { x: 5, y: 5 });
    player.player = Some(Player);
    player.fov = Some(FieldOfView {
        visible_tiles: vec![],
        range: 4,
        previous_position: Point::new(-1, -1),
    });
    let mut monster = EntityRecord::new(Entity { id: 2 });
    monster.position = Some(Position { x: 15, y: 15 });
    monster.fov = Some(FieldOfView {
        visible_tiles: vec![],
        range: 4,
        previous_position: Point::new(-1, -1),
    });
    let mut entities = vec![player, monster];
    assert_eq!(vision_system(&mut map, &mut entities, &table), 2);
    let here = map.coord_to_index(5, 5);
    let far = map.coord_to_index(15, 15);
    assert!(map.visible_tiles[here] && map.revealed_tiles[here]);
    assert!(!map.visible_tiles[far] && !map.revealed_tiles[far]);
    assert_eq!(vision_system(&mut map, &mut entities, &table), 0);
    entities[0].position = Some(Position { x: 12, y: 12 });
    assert_eq!(vision_system(&mut map, &mut entities, &table), 1);
    assert!(!map.visible_tiles[here]);
    assert!(map.revealed_tiles[here]);
    assert!(map.visible_tiles[map.coord_to_index(12, 12)]);
}

#[test]
fn moves_are_clamped_and_resolved() {
    let mut map = open_map(6, 6);
    map.tile_content[2 * 6 + 3] = Some(Entity { id: 7 });
    assert_eq!(resolve_move(&map, Position { x: 1, y: 1 }, -1, 0), MoveOutcome::HitWall);
    assert_eq!(resolve_move(&map, Position { x: 2, y: 2 }, 1, 0), MoveOutcome::Bumped(Entity { id: 7 }));
    assert_eq!(
        resolve_move(&map, Position { x: 2, y: 2 }, 0, 1),
        MoveOutcome::Moved(Position { x: 2, y: 3 })
    );
    assert_eq!(resolve_move(&map, Position { x: 4, y: 4 }, 50, 50), MoveOutcome::HitWall);
    assert_eq!(
        resolve_move(&map, Position { x: 3, y: 4 }, i32::MAX, i32::MIN),
        MoveOutcome::HitWall
    );
}

#[test]
fn player_move_ends_the_turn() {
    let map = open_map(6, 6);
    let mut hero = EntityRecord::new(Entity { id: 1 });
    hero.player = Some(Player);
    hero.position = Some(Position { x: 1, y: 1 });
    hero.active_turn = Some(ActiveTurn { state: TurnState::PENDING });
    let mut entities = vec![hero];
    let mut queue = MessageQueue::new();
    assert!(!try_move_player(&map, &mut entities, 0, -1, &mut queue));
    assert_eq!(entities[0].active_turn, Some(ActiveTurn { state: TurnState::DONE }));
    assert_eq!(entities[0].position, Some(Position { x: 1, y: 1 }));
    let red = Color { r: 255, g: 0, b: 0, a: 255 };
    assert_eq!(
        queue.messages(),
        vec![Message::GameEvent("Ouch, you hit a wall!".to_string(), Some(red), None)]
    );
    entities[0].active_turn = Some(ActiveTurn { state: TurnState::PENDING });
    assert!(try_move_player(&map, &mut entities, 1, 0, &mut queue));
    assert_eq!(entities[0].position, Some(Position { x: 2, y: 1 }));
    assert!(queue.messages().is_empty());
}

#[test]
fn player_bump_kills_the_occupant() {
    let mut map = open_map(6, 6);
    let mut hero = EntityRecord::new(Entity { id: 1 });
    hero.player = Some(Player);
    hero.position = Some(Position { x: 1, y: 1 });
    hero.active_turn = Some(ActiveTurn { state: TurnState::PENDING });
    let rat = blocker(2, 2, 1);
    let mut entities = vec![hero, rat];
    index_system(&mut map, &entities);
    let mut queue = MessageQueue::new();
    assert!(!try_move_player(&map, &mut entities, 1, 0, &mut queue));
    assert_eq!(entities[1].killed, Some(Killed));
    assert_eq!(entities[0].killed, None);
    assert_eq!(entities[0].position, Some(Position { x: 1, y: 1 }));
}

#[test]
fn player_without_the_turn_does_not_move() {
    let map = open_map(6, 6);
    let mut hero = EntityRecord::new(Entity { id: 1 });
    hero.player = Some(Player);
    hero.position = Some(Position { x: 1, y: 1 });
    let mut entities = vec![hero];
    let mut queue = MessageQueue::new();
    assert!(!try_move_player(&map, &mut entities, 1, 0, &mut queue));
    assert_eq!(entities[0].position, Some(Position { x: 1, y: 1 }));
}

fn goblin(id: u64, x: i32, y: i32) -> EntityRecord {
    let mut r = blocker(id, x, y);
    r.monster = Some(Monster);
    r.active_turn = Some(ActiveTurn { state: TurnState::PENDING });
    r
}

#[test]
fn monster_step_moves_attacks_or_waits() {
    let mut map = open_map(6, 6);
    map.tile_content[2 * 6 + 3] = Some(Entity { id: 9 });
    let mut entities = vec![goblin(1, 2, 2)];
    assert_eq!(monster_step(&map, &mut entities, 0, 1, 0), Some((Entity { id: 1 }, Entity { id: 9 })));
    assert_eq!(entities[0].position, Some(Position { x: 2, y: 2 }));
    assert_eq!(entities[0].active_turn, Some(ActiveTurn { state: TurnState::DONE }));
    entities[0].active_turn = Some(ActiveTurn { state: TurnState::PENDING });
    assert_eq!(monster_step(&map, &mut entities, 0, 1, -1), None);
    assert_eq!(entities[0].active_turn, Some(ActiveTurn { state: TurnState::PENDING }));
    assert_eq!(monster_step(&map, &mut entities, 0, 0, 1), None);
    assert_eq!(entities[0].position, Some(Position { x: 2, y: 3 }));
    assert_eq!(entities[0].active_turn, Some(ActiveTurn { state: TurnState::DONE }));
}

#[test]
fn ai_moves_only_monsters_holding_the_turn() {
    let map = open_map(9, 9);
    let mut idle = goblin(2, 6, 6);
    idle.active_turn = None;
    let mut entities = vec![goblin(1, 4, 4), idle];
    let mut rng = StdRng::seed_from_u64(4);
    for _ in 0..20 {
        entities[0].active_turn = Some(ActiveTurn { state: TurnState::PENDING });
        let before = entities[0].position.unwrap();
        let attacks = ai_system(&map, &mut entities, &mut rng);
        assert!(attacks.is_empty());
        let after = entities[0].position.unwrap();
        assert!((after.x - before.x).abs() <= 1 && (after.y - before.y).abs() <= 1);
        assert_eq!(entities[1].position, Some(Position { x: 6, y: 6 }));
        assert_eq!(entities[1].active_turn, None);
    }
}

#[test]
fn successors_are_open_neighbours_within_cost() {
    let mut map = open_map(5, 5);
    map.blocked[2 * 5 + 3] = true;
    let succ = TilePos(2, 2, 0).successors(&map, 5);
    assert_eq!(
        succ,
        vec![(TilePos(2, 3, 1), 1), (TilePos(2, 1, 1), 1), (TilePos(1, 2, 1), 1)]
    );
    assert!(TilePos(2, 2, 5).successors(&map, 5).is_empty());
    let corner = TilePos(1, 1, 0).successors(&map, 5);
    assert_eq!(corner, vec![(TilePos(1, 2, 1), 1), (TilePos(2, 1, 1), 1)]);
}

#[test]
fn message_queue_hands_out_events_in_order() {
    let mut queue = MessageQueue::new();
    let red = Color { r: 255, g: 0, b: 0, a: 255 };
    queue.push(Message::GameEvent("Ouch, you hit a wall!".to_string(), Some(red), None));
    queue.push(Message::GameEvent("killed goblin".to_string(), None, None));
    let out = queue.messages();
    assert_eq!(out.len(), 2);
    assert_eq!(out[0], Message::GameEvent("Ouch, you hit a wall!".to_string(), Some(red), None));
    assert!(queue.messages().is_empty());
}

#[test]
fn monster_attacks_are_reported_and_victims_killed() {
    let mut map = open_map(7, 7);
    let mut hero = blocker(1, 3, 3);
    hero.player = Some(Player);
    let mut entities = vec![goblin(2, 2, 3), hero, goblin(3, 5, 5)];
    index_system(&mut map, &entities);
    let deltas = vec![(1, 0), (0, 0), (0, 1)];
    let attacks = apply_monster_steps(&map, &mut entities, &deltas);
    assert_eq!(attacks, vec![(Entity { id: 2 }, Entity { id: 1 })]);
    assert_eq!(entities[1].killed, Some(Killed));
    assert_eq!(entities[0].killed, None);
    assert_eq!(entities[2].position, Some(Position { x: 5, y: 5 }));
    assert_eq!(entities[2].active_turn, Some(ActiveTurn { state: TurnState::DONE }));
}
