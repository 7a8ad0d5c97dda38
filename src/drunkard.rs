use vstd::prelude::*;

use crate::builders::BuiltMap;
use crate::geom::{Point, Vector};
use crate::map::{GameMap, TileType};
use crate::random::random_range;

verus! {

/// Digs the map with random walkers until a share of it is floor.
///
/// The first walker starts at the map's centre, later ones at random tiles
/// away from the border. Each takes `lifetime` unit steps, never entering
/// the outermost ring of tiles, and marks the tiles it visits as `Digging`;
/// when it is done these become `Floor`. Digging stops once at least
/// `floor_percent` percent of all tiles are floor.
#[derive(Clone, Copy, Debug)]
pub struct DrunkardsWalkBuilder {
    pub lifetime: u32,
    pub floor_percent: u32,
    pub brush_size: i32,
}

/// No tile is left half-dug.
pub open spec fn no_digging(tiles: Seq<TileType>) -> bool {
    forall|i: int| 0 <= i < tiles.len() ==> #[trigger] tiles[i] != TileType::Digging
}

/// The number of floor tiles of the map.
fn count_floor(tiles: &Vec<TileType>) -> (count: u64)
    requires
        tiles@.len() <= i32::MAX,
    ensures
        count == GameMap::floor_count(tiles@),
        count <= tiles@.len(),
{
    let mut count: u64 = 0;
    let mut i: usize = 0;
    while i < tiles.len()
        invariant
            i <= tiles@.len() <= i32::MAX,
            count == GameMap::floor_count_upto(tiles@, i as int),
            count <= i,
        decreases tiles@.len() - i,
    {
        if tiles[i] == TileType::Floor {
            count = count + 1;
        }
        i = i + 1;
    }
    count
}

/// Turns every `Digging` tile into `Floor`; nothing else changes.
fn settle_digging(map: &mut GameMap)
    requires
        old(map).wf(),
    ensures
        final(map).wf(),
        final(map).tiles@.len() == old(map).tiles@.len(),
        forall|i: int|
            0 <= i < old(map).tiles@.len() ==> #[trigger] final(map).tiles@[i] == if old(map).tiles@[i] == TileType::Digging {
                TileType::Floor
            } else {
                old(map).tiles@[i]
            },
        final(map).size == old(map).size,
        final(map).depth == old(map).depth,
        final(map).blocked == old(map).blocked,
        final(map).revealed_tiles == old(map).revealed_tiles,
        final(map).visible_tiles == old(map).visible_tiles,
        final(map).tile_content == old(map).tile_content,
{
    let n = map.tiles.len();
    let mut i: usize = 0;
    while i < n
        invariant
            map.wf(),
            n == map.tiles@.len(),
            n == old(map).tiles@.len(),
            i <= n,
            forall|j: int|
                0 <= j < i ==> #[trigger] map.tiles@[j] == if old(map).tiles@[j]
                    == TileType::Digging {
                    TileType::Floor
                } else {
                    old(map).tiles@[j]
                },
            forall|j: int| i <= j < n ==> #[trigger] map.tiles@[j] == old(map).tiles@[j],
            map.size == old(map).size,
            map.depth == old(map).depth,
            map.blocked == old(map).blocked,
            map.revealed_tiles == old(map).revealed_tiles,
            map.visible_tiles == old(map).visible_tiles,
            map.tile_content == old(map).tile_content,
        decreases n - i,
    {
        if map.tiles[i] == TileType::Digging {
            map.tiles[i] = TileType::Floor;
        }
        i = i + 1;
    }
}

/// The position after one step of a walker: `stagger` 0, 1, 2 and anything
/// else move left, right, up and down, except onto the outermost ring.
pub open spec fn staggered(position: Point, stagger: i32, size: Vector) -> Point {
    if stagger == 0 {
        if position.x > 1 { Point { x: (position.x - 1) as i32, ..position } } else { position }
    } else if stagger == 1 {
        if position.x < size.x - 2 { Point { x: (position.x + 1) as i32, ..position } } else { position }
    } else if stagger == 2 {
        if position.y > 1 { Point { y: (position.y - 1) as i32, ..position } } else { position }
    } else {
        if position.y < size.y - 2 { Point { y: (position.y + 1) as i32, ..position } } else { position }
    }
}

/// One step of a walker in the direction `stagger` chose.
pub fn stagger_step(position: Point, stagger: i32, size: Vector) -> (next: Point)
    requires
        1 <= position.x <= size.x - 2,
        1 <= position.y <= size.y - 2,
    ensures
        next == staggered(position, stagger, size),
        1 <= next.x <= size.x - 2,
        1 <= next.y <= size.y - 2,
{
    let mut next = position;
    if stagger == 0 {
        if next.x > 1 {
            next.x = next.x - 1;
        }
    } else if stagger == 1 {
        if next.x < size.x - 2 {
            next.x = next.x + 1;
        }
    } else if stagger == 2 {
        if next.y > 1 {
            next.y = next.y - 1;
        }
    } else {
        if next.y < size.y - 2 {
            next.y = next.y + 1;
        }
    }
    next
}

/// The tile with index `i` lies on the outermost ring of the map.
pub open spec fn on_ring(map: &GameMap, i: int) -> bool {
    map.tile_x(i) == 0 || map.tile_y(i) == 0 || map.tile_x(i) == map.width() - 1 || map.tile_y(i)
        == map.height() - 1
}

impl DrunkardsWalkBuilder {
    /// At least `floor_percent` percent of the map's tiles are floor.
    pub open spec fn target_met(&self, map: &GameMap, tiles: Seq<TileType>) -> bool {
        GameMap::floor_count(tiles) * 100 >= self.floor_percent * map.area()
    }

    /// Digs until the floor target is met and returns whether it was. (The
    /// walk gives up only after 2^64 - 1 walkers, so in practice an
    /// unreachable target does not return.) Only the tiles off the outermost
    /// ring are dug, and `blocked` is brought in line with the tiles.
    pub fn build(&self, rng: &mut rand::rngs::StdRng, build_data: &mut BuiltMap) -> (reached:
        bool)
        requires
            old(build_data).wf(),
            old(build_data).map.size.x >= 5,
            old(build_data).map.size.y >= 5,
        ensures
            final(build_data).wf(),
            final(build_data).map.size == old(build_data).map.size,
            final(build_data).map.depth == old(build_data).map.depth,
            final(build_data).map.blocked_matches_tiles(),
            final(build_data).with_history == old(build_data).with_history,
            final(build_data).rooms == old(build_data).rooms,
            final(build_data).complete == reached,
            final(build_data).starting_position == Some(old(build_data).map.center()),
            no_digging(final(build_data).map.tiles@),
            reached == self.target_met(&old(build_data).map, final(build_data).map.tiles@),
            forall|i: int|
                0 <= i < old(build_data).map.area() ==> #[trigger] final(build_data).map.tiles@[i]
                    == old(build_data).map.tiles@[i] || final(build_data).map.tiles@[i]
                    == TileType::Floor,
            forall|i: int|
                0 <= i < old(build_data).map.area() && on_ring(&old(build_data).map, i) && old(
                    build_data,
                ).map.tiles@[i] != TileType::Digging ==> #[trigger] final(build_data).map.tiles@[i]
                    == old(build_data).map.tiles@[i],
            self.lifetime > 0 && no_digging(old(build_data).map.tiles@) && !self.target_met(
                &old(build_data).map,
                old(build_data).map.tiles@,
            ) ==> final(build_data).map.tiles@[old(build_data).map.index_of(
                old(build_data).map.center().x as int,
                old(build_data).map.center().y as int,
            )] == TileType::Floor,
    {
        let size = build_data.map.size;
        let starting_position = Point::new(size.x / 2, size.y / 2);
        let total_tiles = size.x * size.y;
        assert(0 < total_tiles) by (nonlinear_arith)
            requires
                size.x > 0,
                size.y > 0,
                total_tiles == size.x * size.y,
        ;
        assert((self.floor_percent as u64) * (total_tiles as u64) <= u32::MAX * i32::MAX)
            by (nonlinear_arith)
            requires
                0 < total_tiles <= i32::MAX,
                self.floor_percent <= u32::MAX,
        ;
        let wanted: u64 = (self.floor_percent as u64) * (total_tiles as u64);
        let ghost w = size.x as int;
        let ghost h = size.y as int;
        let ghost centre = build_data.map.index_of(size.x as int / 2, size.y as int / 2);
        proof {
            crate::map::lemma_index_coords(size.x as int / 2, size.y as int / 2, w, h);
        }
        let mut digger_count: u64 = 0;
        settle_digging(&mut build_data.map);
        let ghost t0 = build_data.map.tiles@;
        let mut floor_tile_count = count_floor(&build_data.map.tiles);
        build_data.starting_position = Some(starting_position);
        while floor_tile_count * 100 < wanted && digger_count < u64::MAX
            invariant
                build_data.wf(),
                build_data.map.size == size,
                size == old(build_data).map.size,
                size.x >= 5,
                size.y >= 5,
                w == size.x,
                h == size.y,
                total_tiles == size.x * size.y,
                wanted == self.floor_percent * old(build_data).map.area(),
                0 <= centre < old(build_data).map.area(),
                centre == old(build_data).map.index_of(size.x as int / 2, size.y as int / 2),
                build_data.map.tile_x(centre) == size.x / 2,
                build_data.map.tile_y(centre) == size.y / 2,
                build_data.map.depth == old(build_data).map.depth,
                build_data.with_history == old(build_data).with_history,
                build_data.rooms == old(build_data).rooms,
                build_data.complete == old(build_data).complete,
                build_data.starting_position == Some(old(build_data).map.center()),
                starting_position == old(build_data).map.center(),
                no_digging(build_data.map.tiles@),
                floor_tile_count == GameMap::floor_count(build_data.map.tiles@),
                floor_tile_count <= i32::MAX,
                t0.len() == old(build_data).map.area(),
                forall|i: int|
                    0 <= i < t0.len() ==> #[trigger] t0[i] == if old(build_data).map.tiles@[i]
                        == TileType::Digging {
                        TileType::Floor
                    } else {
                        old(build_data).map.tiles@[i]
                    },
                forall|i: int|
                    0 <= i < t0.len() ==> #[trigger] build_data.map.tiles@[i] == t0[i]
                        || build_data.map.tiles@[i] == TileType::Floor,
                forall|i: int|
                    0 <= i < t0.len() && on_ring(&old(build_data).map, i)
                        ==> #[trigger] build_data.map.tiles@[i] == t0[i],
                digger_count > 0 && self.lifetime > 0 ==> build_data.map.tiles@[centre]
                    == TileType::Floor,
                digger_count == 0 ==> build_data.map.tiles@ == t0,
            decreases u64::MAX - digger_count,
        {
            let mut did_something = false;
            let mut position = if digger_count == 0 {
                starting_position
            } else {
                let x = random_range(rng, 1, size.x - 3) + 1;
                let y = random_range(rng, 1, size.y - 3) + 1;
                Point::new(x, y)
            };
            let mut current_life = self.lifetime;
            while current_life > 0
                invariant
                    build_data.wf(),
                    build_data.map.size == size,
                    size == old(build_data).map.size,
                    size.x >= 5,
                    size.y >= 5,
                    w == size.x,
                    h == size.y,
                    1 <= position.x <= size.x - 2,
                    1 <= position.y <= size.y - 2,
                    current_life <= self.lifetime,
                    digger_count == 0 && current_life == self.lifetime ==> position
                        == starting_position,
                    starting_position == old(build_data).map.center(),
                    0 <= centre < old(build_data).map.area(),
                    centre == old(build_data).map.index_of(size.x as int / 2, size.y as int / 2),
                    build_data.map.tile_x(centre) == size.x / 2,
                    build_data.map.tile_y(centre) == size.y / 2,
                    build_data.map.depth == old(build_data).map.depth,
                    build_data.with_history == old(build_data).with_history,
                    build_data.rooms == old(build_data).rooms,
                    build_data.complete == old(build_data).complete,
                    build_data.starting_position == Some(old(build_data).map.center()),
                    t0.len() == old(build_data).map.area(),
                    forall|i: int|
                        0 <= i < t0.len() ==> #[trigger] build_data.map.tiles@[i] == t0[i]
                            || build_data.map.tiles@[i] == TileType::Floor
                            || build_data.map.tiles@[i] == TileType::Digging,
                    forall|i: int|
                        0 <= i < t0.len() && on_ring(&old(build_data).map, i)
                            ==> #[trigger] build_data.map.tiles@[i] == t0[i],
                    digger_count > 0 && self.lifetime > 0 ==> build_data.map.tiles@[centre]
                        == TileType::Floor || build_data.map.tiles@[centre] == TileType::Digging,
                    digger_count == 0 && current_life < self.lifetime
                        ==> build_data.map.tiles@[centre] == TileType::Digging,
                decreases current_life,
            {
                if build_data.map.get_type(position) == TileType::Wall {
                    did_something = true;
                }
                let ghost before = build_data.map.tiles@;
                build_data.map.set_type(position, TileType::Digging);
                proof {
                    crate::map::lemma_index_coords(position.x as int, position.y as int, w, h);
                    let idx = build_data.map.index_of(position.x as int, position.y as int);
                    assert forall|i: int|
                        0 <= i < t0.len() && on_ring(&old(build_data).map, i) implies #[trigger] build_data.map.tiles@[i]
                            == t0[i] by {
                        assert(i != idx);
                        assert(build_data.map.tiles@[i] == before[i]);
                    }
                    if position == starting_position {
                        assert(idx == centre);
                    }
                }
                let stagger = random_range(rng, 0, 4);
                position = stagger_step(position, stagger, size);
                current_life = current_life - 1;
            }
            if did_something {
                build_data.take_snapshot();
            }
            digger_count = digger_count + 1;
            settle_digging(&mut build_data.map);
            floor_tile_count = count_floor(&build_data.map.tiles);
        }
        proof {
            if no_digging(old(build_data).map.tiles@) {
                assert(t0 =~= old(build_data).map.tiles@);
            }
        }
        build_data.map.refresh_blocked();
        let reached = floor_tile_count * 100 >= wanted;
        build_data.complete = reached;
        reached
    }
}

} // verus!
