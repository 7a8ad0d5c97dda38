use vstd::prelude::*;

use crate::component::{ActiveTurn, Entity, Killed, Position, TurnState};
use crate::map::GameMap;
use crate::message::{Color, Message, MessageQueue};
use crate::random::random_range;
use crate::world::EntityRecord;

verus! {

/// How a request to step onto a tile was resolved.
#[derive(Clone, Copy, Debug, PartialEq, Eq, Structural)]
pub enum MoveOutcome {
    /// The target tile is blocked terrain.
    HitWall,
    /// The target tile is held by this entity.
    Bumped(Entity),
    /// The mover now stands on this tile.
    Moved(Position),
}

/// `v` clamped into `0 .. n`.
pub open spec fn clamp(v: int, n: int) -> int {
    if v < 0 {
        0
    } else if v > n - 1 {
        n - 1
    } else {
        v
    }
}

/// The tile that a step by `(dx, dy)` from `pos` aims at, kept on the map.
pub open spec fn move_target(map: &GameMap, pos: Position, dx: i32, dy: i32) -> Position {
    Position {
        x: clamp(pos.x + dx, map.width()) as i32,
        y: clamp(pos.y + dy, map.height()) as i32,
    }
}

pub open spec fn move_outcome(map: &GameMap, pos: Position, dx: i32, dy: i32) -> MoveOutcome {
    let t = move_target(map, pos, dx, dy);
    let i = map.index_of(t.x as int, t.y as int);
    if map.blocked@[i] {
        MoveOutcome::HitWall
    } else if map.tile_content@[i] is Some {
        MoveOutcome::Bumped(map.tile_content@[i].unwrap())
    } else {
        MoveOutcome::Moved(t)
    }
}

/// Resolves a step by `(dx, dy)` from `pos`: the target is clamped onto the
/// map; blocked terrain stops the step; an occupied tile is bumped into;
/// otherwise the mover steps onto it.
pub fn resolve_move(map: &GameMap, pos: Position, dx: i32, dy: i32) -> (outcome: MoveOutcome)
    requires
        map.wf(),
        map.size.x > 0,
        map.size.y > 0,
    ensures
        outcome == move_outcome(map, pos, dx, dy),
{
    let wx: i64 = pos.x as i64 + dx as i64;
    let wy: i64 = pos.y as i64 + dy as i64;
    let x: i32 = if wx < 0 {
        0
    } else if wx > map.size.x as i64 - 1 {
        map.size.x - 1
    } else {
        wx as i32
    };
    let y: i32 = if wy < 0 {
        0
    } else if wy > map.size.y as i64 - 1 {
        map.size.y - 1
    } else {
        wy as i32
    };
    let index = map.coord_to_index(x, y);
    if map.blocked[index] {
        MoveOutcome::HitWall
    } else {
        match map.tile_content[index] {
            Some(other) => MoveOutcome::Bumped(other),
            None => MoveOutcome::Moved(Position { x, y }),
        }
    }
}

/// The record is the player and holds the turn.
pub open spec fn is_acting_player(e: EntityRecord) -> bool {
    e.player is Some && e.position is Some && e.active_turn is Some
}

/// The record after the player's step: it moved if the step was free, and
/// its turn is done either way.
pub open spec fn player_step_result(map: &GameMap, dx: i32, dy: i32, e: EntityRecord) -> EntityRecord {
    if is_acting_player(e) {
        EntityRecord {
            position: Some(
                match move_outcome(map, e.position.unwrap(), dx, dy) {
                    MoveOutcome::Moved(t) => t,
                    _ => e.position.unwrap(),
                },
            ),
            active_turn: Some(ActiveTurn { state: TurnState::DONE }),
            ..e
        }
    } else {
        e
    }
}

/// The entity that the player's step runs into, if any.
pub open spec fn player_victim(map: &GameMap, dx: i32, dy: i32, e: EntityRecord) -> Option<Entity> {
    if is_acting_player(e) {
        match move_outcome(map, e.position.unwrap(), dx, dy) {
            MoveOutcome::Bumped(v) => Some(v),
            _ => None,
        }
    } else {
        None
    }
}

/// The player's step runs into a wall.
pub open spec fn player_hits_wall(map: &GameMap, dx: i32, dy: i32, e: EntityRecord) -> bool {
    is_acting_player(e) && move_outcome(map, e.position.unwrap(), dx, dy) is HitWall
}

/// The entities that the players' steps run into, in record order.
pub open spec fn player_victims(map: &GameMap, dx: i32, dy: i32, es: Seq<EntityRecord>) -> Seq<Entity>
    decreases es.len(),
{
    if es.len() == 0 {
        Seq::empty()
    } else {
        let rest = player_victims(map, dx, dy, es.drop_last());
        match player_victim(map, dx, dy, es.last()) {
            Some(v) => rest.push(v),
            None => rest,
        }
    }
}

/// How many players' steps run into a wall.
pub open spec fn wall_hits(map: &GameMap, dx: i32, dy: i32, es: Seq<EntityRecord>) -> nat
    decreases es.len(),
{
    if es.len() == 0 {
        0
    } else {
        wall_hits(map, dx, dy, es.drop_last()) + if player_hits_wall(map, dx, dy, es.last()) {
            1nat
        } else {
            0nat
        }
    }
}

/// The record, marked killed when it is one of the victims.
pub open spec fn marked(e: EntityRecord, victims: Seq<Entity>) -> EntityRecord {
    if victims.contains(e.entity) {
        EntityRecord { killed: Some(Killed), ..e }
    } else {
        e
    }
}

pub open spec fn red() -> Color {
    Color { r: 255, g: 0, b: 0, a: 255 }
}

/// The event logged when the player walks into a wall.
pub open spec fn is_wall_message(m: Message) -> bool {
    m matches Message::GameEvent(text, fg, bg) && text@ == "Ouch, you hit a wall!"@ && fg == Some(
        red(),
    ) && bg is None
}

/// Marks every record of an entity among `victims` as killed.
pub fn mark_killed(entities: &mut Vec<EntityRecord>, victims: &Vec<Entity>)
    ensures
        final(entities)@.len() == old(entities)@.len(),
        forall|j: int|
            0 <= j < old(entities)@.len() ==> #[trigger] final(entities)@[j] == marked(
                old(entities)@[j],
                victims@,
            ),
{
    let mut q: usize = 0;
    while q < victims.len()
        invariant
            q <= victims@.len(),
            entities@.len() == old(entities)@.len(),
            forall|j: int|
                0 <= j < old(entities)@.len() ==> #[trigger] entities@[j] == marked(
                    old(entities)@[j],
                    victims@.take(q as int),
                ),
        decreases victims@.len() - q,
    {
        let v = victims[q];
        let mut j: usize = 0;
        while j < entities.len()
            invariant
                q < victims@.len(),
                v == victims@[q as int],
                j <= entities@.len(),
                entities@.len() == old(entities)@.len(),
                forall|j2: int|
                    0 <= j2 < j ==> #[trigger] entities@[j2] == marked(
                        old(entities)@[j2],
                        victims@.take(q + 1),
                    ),
                forall|j2: int|
                    j <= j2 < entities@.len() ==> #[trigger] entities@[j2] == marked(
                        old(entities)@[j2],
                        victims@.take(q as int),
                    ),
            decreases entities@.len() - j,
        {
            proof {
                let e = old(entities)@[j as int];
                let pre = victims@.take(q as int);
                let next = victims@.take(q + 1);
                assert(next =~= pre.push(v));
                assert(next.contains(e.entity) == (pre.contains(e.entity) || e.entity == v)) by {
                    if next.contains(e.entity) && e.entity != v {
                        let i = choose|i: int| 0 <= i < next.len() && #[trigger] next[i] == e.entity;
                        assert(pre[i] == e.entity);
                    }
                    if pre.contains(e.entity) {
                        let i = choose|i: int| 0 <= i < pre.len() && #[trigger] pre[i] == e.entity;
                        assert(next[i] == e.entity);
                    }
                    if e.entity == v {
                        assert(next[q as int] == v);
                    }
                }
            }
            if entities[j].entity == v {
                entities[j].killed = Some(Killed);
            }
            j = j + 1;
        }
        q = q + 1;
    }
    proof {
        assert(victims@.take(victims@.len() as int) =~= victims@);
    }
}

/// Resolves a player step by `(dx, dy)` for every player entity holding the
/// turn and ends its turn. A player that bumps into an entity kills it; one
/// that walks into a wall logs the event. Returns whether any player moved.
pub fn try_move_player(
    map: &GameMap,
    entities: &mut Vec<EntityRecord>,
    dx: i32,
    dy: i32,
    queue: &mut MessageQueue,
) -> (moved: bool)
    requires
        map.wf(),
        map.size.x > 0,
        map.size.y > 0,
    ensures
        final(entities)@.len() == old(entities)@.len(),
        forall|k: int|
            0 <= k < old(entities)@.len() ==> #[trigger] final(entities)@[k] == marked(
                player_step_result(map, dx, dy, old(entities)@[k]),
                player_victims(map, dx, dy, old(entities)@),
            ),
        moved == exists|k: int|
            0 <= k < old(entities)@.len() && is_acting_player(#[trigger] old(entities)@[k])
                && move_outcome(map, old(entities)@[k].position.unwrap(), dx, dy) is Moved,
        final(queue)@.len() == old(queue)@.len() + wall_hits(map, dx, dy, old(entities)@),
        final(queue)@.subrange(0, old(queue)@.len() as int) == old(queue)@,
        forall|i: int|
            old(queue)@.len() <= i < final(queue)@.len() ==> is_wall_message(#[trigger] final(queue)@[i]),
{
    let mut moved = false;
    let mut victims: Vec<Entity> = Vec::new();
    let mut k: usize = 0;
    while k < entities.len()
        invariant
            map.wf(),
            map.size.x > 0,
            map.size.y > 0,
            k <= entities@.len(),
            entities@.len() == old(entities)@.len(),
            forall|k2: int|
                0 <= k2 < k ==> #[trigger] entities@[k2] == player_step_result(map, dx, dy, old(entities)@[k2]),
            forall|k2: int| k <= k2 < entities@.len() ==> #[trigger] entities@[k2] == old(entities)@[k2],
            victims@ == player_victims(map, dx, dy, old(entities)@.take(k as int)),
            queue@.len() == old(queue)@.len() + wall_hits(map, dx, dy, old(entities)@.take(k as int)),
            queue@.subrange(0, old(queue)@.len() as int) == old(queue)@,
            forall|i: int| old(queue)@.len() <= i < queue@.len() ==> is_wall_message(#[trigger] queue@[i]),
            moved == exists|k2: int|
                0 <= k2 < k && is_acting_player(#[trigger] old(entities)@[k2]) && move_outcome(
                    map,
                    old(entities)@[k2].position.unwrap(),
                    dx,
                    dy,
                ) is Moved,
        decreases entities@.len() - k,
    {
        proof {
            assert(old(entities)@.take(k + 1).drop_last() =~= old(entities)@.take(k as int));
        }
        let ghost q0 = queue@;
        if entities[k].player.is_some() && entities[k].active_turn.is_some() {
            match entities[k].position {
                Some(pos) => {
                    match resolve_move(map, pos, dx, dy) {
                        MoveOutcome::Moved(target) => {
                            entities[k].position = Some(target);
                            moved = true;
                        },
                        MoveOutcome::Bumped(victim) => {
                            victims.push(victim);
                        },
                        MoveOutcome::HitWall => {
                            let text = "Ouch, you hit a wall!".to_string();
                            proof {
                                broadcast use vstd::string::to_string_from_display_ensures_for_str;
                                reveal_strlit("Ouch, you hit a wall!");
                            }
                            let red = Color { r: 255, g: 0, b: 0, a: 255 };
                            queue.push(Message::GameEvent(text, Some(red), None));
                            proof {
                                assert(is_wall_message(queue@[queue@.len() - 1]));
                            }
                        },
                    }
                    entities[k].active_turn = Some(ActiveTurn { state: TurnState::DONE });
                },
                None => {},
            }
        }
        proof {
            assert(queue@.subrange(0, old(queue)@.len() as int) =~= old(queue)@) by {
                assert(queue@.subrange(0, q0.len() as int) =~= q0);
            }
            if is_acting_player(old(entities)@[k as int]) && move_outcome(
                map,
                old(entities)@[k as int].position.unwrap(),
                dx,
                dy,
            ) is Moved {
                assert(is_acting_player(old(entities)@[k as int]));
            }
        }
        k = k + 1;
    }
    proof {
        assert(old(entities)@.take(old(entities)@.len() as int) =~= old(entities)@);
    }
    mark_killed(entities, &victims);
    moved
}

/// The record is a monster holding the turn.
pub open spec fn is_acting_monster(e: EntityRecord) -> bool {
    e.monster is Some && e.position is Some && e.active_turn is Some
}

/// The record after a monster's step by `(dx, dy)`: a step whose two parts
/// cancel out is not taken and the turn stays open; otherwise the monster
/// moves if the step was free and its turn is done.
pub open spec fn monster_step_result(map: &GameMap, dx: i32, dy: i32, e: EntityRecord) -> EntityRecord {
    if is_acting_monster(e) && dx + dy != 0 {
        EntityRecord {
            position: Some(
                match move_outcome(map, e.position.unwrap(), dx, dy) {
                    MoveOutcome::Moved(t) => t,
                    _ => e.position.unwrap(),
                },
            ),
            active_turn: Some(ActiveTurn { state: TurnState::DONE }),
            ..e
        }
    } else {
        e
    }
}

/// The attack a monster's step makes: the entity it bumps into, if any.
pub open spec fn monster_attack(map: &GameMap, dx: i32, dy: i32, e: EntityRecord) -> Option<(Entity, Entity)> {
    if is_acting_monster(e) && dx + dy != 0 {
        match move_outcome(map, e.position.unwrap(), dx, dy) {
            MoveOutcome::Bumped(victim) => Some((e.entity, victim)),
            _ => None,
        }
    } else {
        None
    }
}

/// The attacks of the steps `deltas[k]` taken by the monsters of `es`, in
/// record order.
pub open spec fn monster_attacks(map: &GameMap, es: Seq<EntityRecord>, deltas: Seq<(i32, i32)>) -> Seq<(Entity, Entity)>
    decreases es.len(),
{
    if es.len() == 0 {
        Seq::empty()
    } else {
        let rest = monster_attacks(map, es.drop_last(), deltas);
        let k = es.len() - 1;
        match monster_attack(map, deltas[k].0, deltas[k].1, es.last()) {
            Some(a) => rest.push(a),
            None => rest,
        }
    }
}

pub open spec fn victims_of(attacks: Seq<(Entity, Entity)>) -> Seq<Entity> {
    attacks.map_values(|a: (Entity, Entity)| a.1)
}

/// Carries out the step `(dx, dy)` chosen for the monster in record `k` and
/// returns the attack it made, if any.
pub fn monster_step(map: &GameMap, entities: &mut Vec<EntityRecord>, k: usize, dx: i32, dy: i32) -> (attack: Option<(Entity, Entity)>)
    requires
        map.wf(),
        map.size.x > 0,
        map.size.y > 0,
        k < old(entities)@.len(),
    ensures
        final(entities)@ == old(entities)@.update(
            k as int,
            monster_step_result(map, dx, dy, old(entities)@[k as int]),
        ),
        attack == monster_attack(map, dx, dy, old(entities)@[k as int]),
{
    let mut attack = None;
    if entities[k].monster.is_some() && entities[k].active_turn.is_some() && dx as i64 + dy as i64 != 0 {
        match entities[k].position {
            Some(pos) => {
                match resolve_move(map, pos, dx, dy) {
                    MoveOutcome::Moved(target) => {
                        entities[k].position = Some(target);
                    },
                    MoveOutcome::Bumped(victim) => {
                        attack = Some((entities[k].entity, victim));
                    },
                    MoveOutcome::HitWall => {},
                }
                entities[k].active_turn = Some(ActiveTurn { state: TurnState::DONE });
            },
            None => {},
        }
    }
    proof {
        assert(entities@ =~= old(entities)@.update(
            k as int,
            monster_step_result(map, dx, dy, old(entities)@[k as int]),
        ));
    }
    attack
}

/// Each monster holding the turn takes the step `deltas[k]` chosen for its
/// record; the entities they bump into are killed. Returns the attacks as
/// (attacker, victim) pairs in record order.
pub fn apply_monster_steps(map: &GameMap, entities: &mut Vec<EntityRecord>, deltas: &Vec<(i32, i32)>) -> (attacks: Vec<(Entity, Entity)>)
    requires
        map.wf(),
        map.size.x > 0,
        map.size.y > 0,
        deltas@.len() == old(entities)@.len(),
    ensures
        final(entities)@.len() == old(entities)@.len(),
        attacks@ == monster_attacks(map, old(entities)@, deltas@),
        forall|k: int|
            0 <= k < old(entities)@.len() ==> #[trigger] final(entities)@[k] == marked(
                monster_step_result(map, deltas@[k].0, deltas@[k].1, old(entities)@[k]),
                victims_of(attacks@),
            ),
{
    let mut attacks: Vec<(Entity, Entity)> = Vec::new();
    let mut k: usize = 0;
    while k < entities.len()
        invariant
            map.wf(),
            map.size.x > 0,
            map.size.y > 0,
            k <= entities@.len(),
            entities@.len() == old(entities)@.len(),
            deltas@.len() == old(entities)@.len(),
            forall|k2: int|
                0 <= k2 < k ==> #[trigger] entities@[k2] == monster_step_result(
                    map,
                    deltas@[k2].0,
                    deltas@[k2].1,
                    old(entities)@[k2],
                ),
            forall|k2: int| k <= k2 < entities@.len() ==> #[trigger] entities@[k2] == old(entities)@[k2],
            attacks@ == monster_attacks(map, old(entities)@.take(k as int), deltas@),
        decreases entities@.len() - k,
    {
        proof {
            assert(old(entities)@.take(k + 1).drop_last() =~= old(entities)@.take(k as int));
        }
        let (dx, dy) = deltas[k];
        let attack = monster_step(map, entities, k, dx, dy);
        match attack {
            Some(pair) => attacks.push(pair),
            None => {},
        }
        k = k + 1;
    }
    proof {
        assert(old(entities)@.take(old(entities)@.len() as int) =~= old(entities)@);
    }
    let mut victims: Vec<Entity> = Vec::new();
    let mut q: usize = 0;
    while q < attacks.len()
        invariant
            q <= attacks@.len(),
            victims@ == victims_of(attacks@.take(q as int)),
        decreases attacks@.len() - q,
    {
        victims.push(attacks[q].1);
        q = q + 1;
        proof {
            assert(victims@ =~= victims_of(attacks@.take(q as int)));
        }
    }
    proof {
        assert(attacks@.take(attacks@.len() as int) =~= attacks@);
    }
    mark_killed(entities, &victims);
    attacks
}

/// Every monster holding the turn takes a random step of at most one tile on
/// each axis, and the entities they bump into are killed. Returns the
/// attacks, as (attacker, victim) pairs in record order.
pub fn ai_system(map: &GameMap, entities: &mut Vec<EntityRecord>, rng: &mut rand::rngs::StdRng) -> (attacks: Vec<(Entity, Entity)>)
    requires
        map.wf(),
        map.size.x > 0,
        map.size.y > 0,
    ensures
        exists|deltas: Seq<(i32, i32)>|
            deltas.len() == old(entities)@.len() && (forall|k: int|
                0 <= k < deltas.len() ==> -1 <= (#[trigger] deltas[k]).0 <= 1 && -1 <= deltas[k].1
                    <= 1) && attacks@ == monster_attacks(map, old(entities)@, deltas)
                && final(entities)@.len() == old(entities)@.len() && forall|k: int|
                0 <= k < old(entities)@.len() ==> #[trigger] final(entities)@[k] == marked(
                    monster_step_result(map, deltas[k].0, deltas[k].1, old(entities)@[k]),
                    victims_of(attacks@),
                ),
{
    let mut deltas: Vec<(i32, i32)> = Vec::new();
    let mut k: usize = 0;
    while k < entities.len()
        invariant
            k <= entities@.len(),
            deltas@.len() == k,
            forall|k2: int| 0 <= k2 < k ==> -1 <= (#[trigger] deltas@[k2]).0 <= 1 && -1 <= deltas@[k2].1 <= 1,
        decreases entities@.len() - k,
    {
        if entities[k].monster.is_some() && entities[k].active_turn.is_some() && entities[k].position.is_some() {
            let dx = random_range(rng, -1, 2);
            let dy = random_range(rng, -1, 2);
            deltas.push((dx, dy));
        } else {
            deltas.push((0, 0));
        }
        k = k + 1;
    }
    let attacks = apply_monster_steps(map, entities, &deltas);
    proof {
        assert(deltas@.len() == old(entities)@.len());
    }
    attacks
}

} // verus!
