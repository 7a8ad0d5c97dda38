use vstd::math::{max, min};
use vstd::prelude::*;

use crate::builders::BuiltMap;
use crate::geom::{rect_center, rects_intersect, Point, Rect, Size};
use crate::map::{GameMap, TileType};
use crate::random::random_range;

verus! {

/// The room lies on the map (its far edges may touch the map's far edges).
pub open spec fn room_on_map(map: &GameMap, room: Rect) -> bool {
    &&& room.fits()
    &&& 0 <= room.origin.x
    &&& 0 <= room.origin.y
    &&& room.max_x() <= map.width()
    &&& room.max_y() <= map.height()
}

/// Every tile of `room` is unblocked floor.
pub open spec fn room_is_open(map: &GameMap, room: Rect) -> bool {
    forall|i: int|
        0 <= i < map.area() && room.contains(map.tile_x(i), map.tile_y(i)) ==> #[trigger] map.tiles@[i]
            == TileType::Floor && !map.blocked@[i]
}

/// Carving never closes a tile that was open.
pub proof fn lemma_carving_keeps_open(
    after: &GameMap,
    before: &GameMap,
    dug: spec_fn(int, int) -> bool,
    room: Rect,
)
    requires
        before.wf(),
        after.is_carved_from(before, dug),
        room_is_open(before, room),
    ensures
        room_is_open(after, room),
{
    assert forall|i: int|
        0 <= i < after.area() && room.contains(
            after.tile_x(i),
            after.tile_y(i),
        ) implies #[trigger] after.tiles@[i] == TileType::Floor && !after.blocked@[i] by {
        assert(before.tiles@[i] == before.tiles@[i]);
    }
}

/// Turns every tile of `room` into unblocked floor and leaves the rest alone.
pub fn create_room(map: &mut GameMap, room: &Rect)
    requires
        old(map).wf(),
        room_on_map(old(map), *room),
    ensures
        final(map).wf(),
        final(map).is_carved_from(old(map), |a: int, b: int| room.contains(a, b)),
{
    let x_start = room.origin.x;
    let y_start = room.origin.y;
    let x_end = room.origin.x + room.size.width;
    let y_end = room.origin.y + room.size.height;
    let mut x: i32 = x_start;
    while x < x_end
        invariant
            map.wf(),
            room_on_map(old(map), *room),
            x_start == room.origin.x,
            y_start == room.origin.y,
            x_end == room.max_x(),
            y_end == room.max_y(),
            x_start <= x <= x_end,
            map.is_carved_from(old(map), |a: int, b: int| room.contains(a, b) && a < x),
        decreases x_end - x,
    {
        let mut y: i32 = y_start;
        while y < y_end
            invariant
                map.wf(),
                room_on_map(old(map), *room),
                x_start == room.origin.x,
                y_start == room.origin.y,
                x_end == room.max_x(),
                y_end == room.max_y(),
                x_start <= x < x_end,
                y_start <= y <= y_end,
                map.is_carved_from(
                    old(map),
                    |a: int, b: int| room.contains(a, b) && (a < x || (a == x && b < y)),
                ),
            decreases y_end - y,
        {
            let ghost before = *map;
            map.dig(x, y);
            proof {
                GameMap::lemma_carved_trans(
                    old(map),
                    &before,
                    map,
                    |a: int, b: int| room.contains(a, b) && (a < x || (a == x && b < y)),
                    |a: int, b: int| a == x && b == y,
                );
                GameMap::lemma_carved_equiv(
                    map,
                    old(map),
                    |a: int, b: int|
                        (room.contains(a, b) && (a < x || (a == x && b < y))) || (a == x && b
                            == y),
                    |a: int, b: int| room.contains(a, b) && (a < x || (a == x && b < y + 1)),
                );
            }
            y = y + 1;
        }
        proof {
            GameMap::lemma_carved_equiv(
                map,
                old(map),
                |a: int, b: int| room.contains(a, b) && (a < x || (a == x && b < y)),
                |a: int, b: int| room.contains(a, b) && a < x + 1,
            );
        }
        x = x + 1;
    }
    proof {
        GameMap::lemma_carved_equiv(
            map,
            old(map),
            |a: int, b: int| room.contains(a, b) && a < x,
            |a: int, b: int| room.contains(a, b),
        );
    }
}

/// Turns the row `y` between columns `start` and `end` (both included, in
/// either order) into unblocked floor.
pub fn dig_horizontal(map: &mut GameMap, start: i32, end: i32, y: i32)
    requires
        old(map).wf(),
        old(map).in_bounds(start as int, y as int),
        old(map).in_bounds(end as int, y as int),
    ensures
        final(map).wf(),
        final(map).is_carved_from(
            old(map),
            |a: int, b: int| b == y && min(start as int, end as int) <= a <= max(start as int, end as int),
        ),
{
    let lo = if start < end { start } else { end };
    let hi = if start < end { end } else { start };
    let mut x: i32 = lo;
    while x <= hi
        invariant
            map.wf(),
            old(map).in_bounds(lo as int, y as int),
            old(map).in_bounds(hi as int, y as int),
            lo == min(start as int, end as int),
            hi == max(start as int, end as int),
            lo <= x <= hi + 1,
            map.size == old(map).size,
            map.is_carved_from(old(map), |a: int, b: int| b == y && lo <= a < x),
        decreases hi + 1 - x,
    {
        let ghost before = *map;
        map.dig(x, y);
        proof {
            GameMap::lemma_carved_trans(
                old(map),
                &before,
                map,
                |a: int, b: int| b == y && lo <= a < x,
                |a: int, b: int| a == x && b == y,
            );
            GameMap::lemma_carved_equiv(
                map,
                old(map),
                |a: int, b: int| (b == y && lo <= a < x) || (a == x && b == y),
                |a: int, b: int| b == y && lo <= a < x + 1,
            );
        }
        x = x + 1;
    }
    proof {
        GameMap::lemma_carved_equiv(
            map,
            old(map),
            |a: int, b: int| b == y && lo <= a < x,
            |a: int, b: int| b == y && min(start as int, end as int) <= a <= max(start as int, end as int),
        );
    }
}

/// Turns the column `x` between rows `start` and `end` (both included, in
/// either order) into unblocked floor.
pub fn dig_vertical(map: &mut GameMap, start: i32, end: i32, x: i32)
    requires
        old(map).wf(),
        old(map).in_bounds(x as int, start as int),
        old(map).in_bounds(x as int, end as int),
    ensures
        final(map).wf(),
        final(map).is_carved_from(
            old(map),
            |a: int, b: int| a == x && min(start as int, end as int) <= b <= max(start as int, end as int),
        ),
{
    let lo = if start < end { start } else { end };
    let hi = if start < end { end } else { start };
    let mut y: i32 = lo;
    while y <= hi
        invariant
            map.wf(),
            old(map).in_bounds(x as int, lo as int),
            old(map).in_bounds(x as int, hi as int),
            lo == min(start as int, end as int),
            hi == max(start as int, end as int),
            lo <= y <= hi + 1,
            map.size == old(map).size,
            map.is_carved_from(old(map), |a: int, b: int| a == x && lo <= b < y),
        decreases hi + 1 - y,
    {
        let ghost before = *map;
        map.dig(x, y);
        proof {
            GameMap::lemma_carved_trans(
                old(map),
                &before,
                map,
                |a: int, b: int| a == x && lo <= b < y,
                |a: int, b: int| a == x && b == y,
            );
            GameMap::lemma_carved_equiv(
                map,
                old(map),
                |a: int, b: int| (a == x && lo <= b < y) || (a == x && b == y),
                |a: int, b: int| a == x && lo <= b < y + 1,
            );
        }
        y = y + 1;
    }
    proof {
        GameMap::lemma_carved_equiv(
            map,
            old(map),
            |a: int, b: int| a == x && lo <= b < y,
            |a: int, b: int| a == x && min(start as int, end as int) <= b <= max(start as int, end as int),
        );
    }
}

pub const MAX_ROOMS: i32 = 30;

pub const MIN_SIZE: i32 = 6;

pub const MAX_SIZE: i32 = 10;

/// The room starts at least one tile from the near edges and ends at least
/// two tiles before the far edges of the map.
pub open spec fn room_inside_border(map: &GameMap, room: Rect) -> bool {
    &&& room.fits()
    &&& 1 <= room.origin.x
    &&& 1 <= room.origin.y
    &&& room.max_x() <= map.width() - 2
    &&& room.max_y() <= map.height() - 2
}

/// The tile `(x, y)` lies on the L-shaped corridor from `a` to `b`: along
/// `a`'s row then `b`'s column when `row_first`, else along `b`'s row and
/// `a`'s column.
pub open spec fn on_corridor(a: Point, b: Point, row_first: bool, x: int, y: int) -> bool {
    let row = if row_first { a.y as int } else { b.y as int };
    let col = if row_first { b.x as int } else { a.x as int };
    (y == row && min(a.x as int, b.x as int) <= x <= max(a.x as int, b.x as int)) || (x == col && min(
        a.y as int,
        b.y as int,
    ) <= y <= max(a.y as int, b.y as int))
}

/// The tile `(x, y)` is dug by the layout: inside one of its rooms, or on
/// the corridor from a room to the next, turned the way its flag says.
pub open spec fn in_layout(layout: Seq<(Rect, bool)>, x: int, y: int) -> bool
    decreases layout.len(),
{
    if layout.len() == 0 {
        false
    } else {
        let k = layout.len() - 1;
        in_layout(layout.drop_last(), x, y) || layout[k].0.contains(x, y) || (k >= 1 && on_corridor(
            layout[k - 1].0.center(),
            layout[k].0.center(),
            layout[k].1,
            x,
            y,
        ))
    }
}

/// The rooms of the layout are `rooms`, in order.
pub open spec fn layout_of(layout: Seq<(Rect, bool)>, rooms: Seq<Rect>) -> bool {
    layout.len() == rooms.len() && forall|k: int| 0 <= k < rooms.len() ==> (#[trigger] layout[k]).0 == rooms[k]
}

/// No two rooms of the sequence overlap.
pub open spec fn rooms_disjoint(rooms: Seq<Rect>) -> bool {
    forall|j: int, k: int|
        0 <= j < rooms.len() && 0 <= k < rooms.len() && j != k ==> !(#[trigger] rooms[j]).intersects(
            #[trigger] rooms[k],
        )
}

/// Carving keeps every room of the sequence open.
pub proof fn lemma_carving_keeps_rooms_open(
    after: &GameMap,
    before: &GameMap,
    dug: spec_fn(int, int) -> bool,
    rooms: Seq<Rect>,
)
    requires
        before.wf(),
        after.is_carved_from(before, dug),
        forall|k: int| 0 <= k < rooms.len() ==> room_is_open(before, #[trigger] rooms[k]),
    ensures
        forall|k: int| 0 <= k < rooms.len() ==> room_is_open(after, #[trigger] rooms[k]),
{
    assert forall|k: int| 0 <= k < rooms.len() implies room_is_open(after, #[trigger] rooms[k]) by {
        lemma_carving_keeps_open(after, before, dug, rooms[k]);
    }
}

/// Carves the whole map but its border into one room; the start is the map's centre.
#[derive(Clone, Copy, Debug)]
pub struct RoomMapBuilder;

/// Proposes up to thirty random rooms, keeps those that overlap no earlier
/// one, and joins each kept room to the previous one with an L-shaped corridor.
#[derive(Clone, Copy, Debug)]
pub struct SimpleMapBuilder;

/// A single room inset by one tile from the border, as for a shop level.
#[derive(Clone, Copy, Debug)]
pub struct ShopBuilder;

/// Carves the single room inside the border and starts at the map's centre.
fn single_room(build_data: &mut BuiltMap)
    requires
        old(build_data).wf(),
    ensures
        final(build_data).wf(),
        final(build_data).map.is_carved_from(
            &old(build_data).map,
            |a: int, b: int|
                1 <= a < old(build_data).map.width() - 1 && 1 <= b < old(build_data).map.height()
                    - 1,
        ),
        final(build_data).starting_position == Some(
            old(build_data).map.center(),
        ),
        final(build_data).rooms == old(build_data).rooms,
        final(build_data).history == old(build_data).history,
        final(build_data).with_history == old(build_data).with_history,
        final(build_data).complete == old(build_data).complete,
{
    let size = build_data.map.size;
    let (ox, width) = if size.x >= 2 { (1, size.x - 2) } else { (0, 0) };
    let (oy, height) = if size.y >= 2 { (1, size.y - 2) } else { (0, 0) };
    let room = Rect::new(Point::new(ox, oy), Size { width, height });
    create_room(&mut build_data.map, &room);
    proof {
        GameMap::lemma_carved_equiv(
            &build_data.map,
            &old(build_data).map,
            |a: int, b: int| room.contains(a, b),
            |a: int, b: int| 1 <= a < size.x - 1 && 1 <= b < size.y - 1,
        );
    }
    build_data.starting_position = Some(Point::new(size.x / 2, size.y / 2));
}

impl RoomMapBuilder {
    pub fn build(&mut self, _rng: &mut rand::rngs::StdRng, build_data: &mut BuiltMap)
        requires
            old(build_data).wf(),
        ensures
            final(build_data).wf(),
            final(build_data).map.is_carved_from(
                &old(build_data).map,
                |a: int, b: int|
                    1 <= a < old(build_data).map.width() - 1 && 1 <= b < old(build_data).map.height() - 1,
            ),
            final(build_data).starting_position == Some(
                old(build_data).map.center(),
            ),
            final(build_data).rooms == old(build_data).rooms,
            final(build_data).history == old(build_data).history,
            final(build_data).with_history == old(build_data).with_history,
            final(build_data).complete == old(build_data).complete,
    {
        single_room(build_data);
    }
}

impl ShopBuilder {
    pub fn build(&mut self, _rng: &mut rand::rngs::StdRng, build_data: &mut BuiltMap)
        requires
            old(build_data).wf(),
        ensures
            final(build_data).wf(),
            final(build_data).map.is_carved_from(
                &old(build_data).map,
                |a: int, b: int|
                    1 <= a < old(build_data).map.width() - 1 && 1 <= b < old(build_data).map.height() - 1,
            ),
            final(build_data).starting_position == Some(
                old(build_data).map.center(),
            ),
            final(build_data).rooms == old(build_data).rooms,
            final(build_data).history == old(build_data).history,
            final(build_data).with_history == old(build_data).with_history,
            final(build_data).complete == old(build_data).complete,
    {
        single_room(build_data);
    }
}

impl SimpleMapBuilder {
    pub fn build(&mut self, rng: &mut rand::rngs::StdRng, build_data: &mut BuiltMap)
        requires
            old(build_data).wf(),
        ensures
            SimpleMapBuilder::generated(old(build_data), final(build_data)),
            final(build_data).complete == old(build_data).complete,
    {
        SimpleMapBuilder::rooms_and_corridors(rng, build_data);
    }

    /// What rooms-and-corridors generation guarantees of its result.
    pub open spec fn generated(before: &BuiltMap, after: &BuiltMap) -> bool {
        &&& after.wf()
        &&& after.map.size == before.map.size
        &&& after.map.depth == before.map.depth
        &&& after.with_history == before.with_history
        &&& after.rooms is Some
        &&& SimpleMapBuilder::rooms_valid(&after.map, after.rooms.unwrap()@)
        &&& after.starting_position == if after.rooms.unwrap()@.len() > 0 {
            Some(after.rooms.unwrap()@[0].center())
        } else {
            Some(before.map.center())
        }
        &&& after.rooms.unwrap()@.len() > 0 ==> after.rooms.unwrap()@[0].contains(
            after.starting_position.unwrap().x as int,
            after.starting_position.unwrap().y as int,
        )
        &&& before.map.size.x >= 9 && before.map.size.y >= 9 ==> after.rooms.unwrap()@.len() >= 1
        &&& exists|layout: Seq<(Rect, bool)>|
            #[trigger] layout_of(layout, after.rooms.unwrap()@) && after.map.is_carved_from(
                &before.map,
                |x: int, y: int| in_layout(layout, x, y),
            )
        &&& before.map.blocked_matches_tiles() ==> after.map.blocked_matches_tiles()
    }

    /// At most thirty rooms, each between six and nine tiles on a side,
    /// inside the border, open, and overlapping no other.
    /// (Rooms are shrunk to fit a map too small for them, down to six tiles.)
    pub open spec fn rooms_valid(map: &GameMap, rooms: Seq<Rect>) -> bool {
        &&& rooms.len() <= MAX_ROOMS
        &&& rooms_disjoint(rooms)
        &&& forall|k: int|
            0 <= k < rooms.len() ==> room_inside_border(map, #[trigger] rooms[k]) && MIN_SIZE
                <= rooms[k].size.width < MAX_SIZE && MIN_SIZE <= rooms[k].size.height < MAX_SIZE
        &&& forall|k: int| 0 <= k < rooms.len() ==> room_is_open(map, #[trigger] rooms[k])
    }

    pub fn rooms_and_corridors(rng: &mut rand::rngs::StdRng, build_data: &mut BuiltMap)
        requires
            old(build_data).wf(),
        ensures
            SimpleMapBuilder::generated(old(build_data), final(build_data)),
            final(build_data).complete == old(build_data).complete,
    {
        let mut rooms: Vec<Rect> = Vec::new();
        let ghost mut layout: Seq<(Rect, bool)> = Seq::empty();
        let size = build_data.map.size;
        proof {
            GameMap::lemma_carved_equiv(
                &build_data.map,
                &build_data.map,
                |x: int, y: int| false,
                |x: int, y: int| in_layout(layout, x, y),
            );
        }
        let mut i: i32 = 0;
        while i < MAX_ROOMS
            invariant
                build_data.wf(),
                build_data.map.size == size,
                size == old(build_data).map.size,
                build_data.map.depth == old(build_data).map.depth,
                build_data.with_history == old(build_data).with_history,
                build_data.complete == old(build_data).complete,
                0 <= i <= MAX_ROOMS,
                rooms@.len() <= i,
                SimpleMapBuilder::rooms_valid(&build_data.map, rooms@),
                i > 0 && size.x >= 9 && size.y >= 9 ==> rooms@.len() >= 1,
                layout_of(layout, rooms@),
                build_data.map.is_carved_from(&old(build_data).map, |x: int, y: int| in_layout(layout, x, y)),
            decreases MAX_ROOMS - i,
        {
            let drawn_w = random_range(rng, MIN_SIZE, MAX_SIZE);
            let drawn_h = random_range(rng, MIN_SIZE, MAX_SIZE);
            let w = if drawn_w > size.x - 3 { size.x - 3 } else { drawn_w };
            let h = if drawn_h > size.y - 3 { size.y - 3 } else { drawn_h };
            if w >= MIN_SIZE && h >= MIN_SIZE {
                let x = random_range(rng, 1, size.x - w - 1);
                let y = random_range(rng, 1, size.y - h - 1);
                let new_room = Rect::new(Point::new(x, y), Size { width: w, height: h });
                let mut ok = true;
                let mut k: usize = 0;
                while k < rooms.len() && ok
                    invariant
                        k <= rooms@.len(),
                        new_room.fits(),
                        forall|j: int| 0 <= j < rooms@.len() ==> (#[trigger] rooms@[j]).fits(),
                        ok == (forall|j: int|
                            0 <= j < k ==> !new_room.intersects(#[trigger] rooms@[j])),
                    decreases rooms@.len() - k,
                {
                    if rects_intersect(&new_room, &rooms[k]) {
                        ok = false;
                    }
                    k = k + 1;
                }
                if ok {
                    let ghost start = old(build_data).map;
                    let ghost before = build_data.map;
                    create_room(&mut build_data.map, &new_room);
                    proof {
                        lemma_carving_keeps_rooms_open(
                            &build_data.map,
                            &before,
                            |a: int, b: int| new_room.contains(a, b),
                            rooms@,
                        );
                        GameMap::lemma_carved_trans(
                            &start,
                            &before,
                            &build_data.map,
                            |x: int, y: int| in_layout(layout, x, y),
                            |a: int, b: int| new_room.contains(a, b),
                        );
                    }
                    build_data.take_snapshot();
                    let ghost mut turn = false;
                    if rooms.len() > 0 {
                        let center = rect_center(&new_room);
                        let prev = rect_center(&rooms[rooms.len() - 1]);
                        let ghost m0 = build_data.map;
                        let ghost d0 = |x: int, y: int| in_layout(layout, x, y) || new_room.contains(x, y);
                        if random_range(rng, 0, 2) == 1 {
                            proof {
                                turn = true;
                            }
                            dig_horizontal(&mut build_data.map, prev.x, center.x, prev.y);
                            let ghost m1 = build_data.map;
                            dig_vertical(&mut build_data.map, prev.y, center.y, center.x);
                            proof {
                                let dh = |a: int, b: int|
                                    b == prev.y && min(prev.x as int, center.x as int) <= a <= max(
                                        prev.x as int,
                                        center.x as int,
                                    );
                                let dv = |a: int, b: int|
                                    a == center.x && min(prev.y as int, center.y as int) <= b <= max(
                                        prev.y as int,
                                        center.y as int,
                                    );
                                lemma_carving_keeps_rooms_open(&m1, &m0, dh, rooms@.push(new_room));
                                lemma_carving_keeps_rooms_open(&build_data.map, &m1, dv, rooms@.push(new_room));
                                GameMap::lemma_carved_trans(&start, &m0, &m1, d0, dh);
                                GameMap::lemma_carved_trans(
                                    &start,
                                    &m1,
                                    &build_data.map,
                                    |x: int, y: int| d0(x, y) || dh(x, y),
                                    dv,
                                );
                                GameMap::lemma_carved_equiv(
                                    &build_data.map,
                                    &start,
                                    |x: int, y: int| (d0(x, y) || dh(x, y)) || dv(x, y),
                                    |x: int, y: int| d0(x, y) || on_corridor(prev, center, true, x, y),
                                );
                            }
                        } else {
                            dig_horizontal(&mut build_data.map, prev.x, center.x, center.y);
                            let ghost m1 = build_data.map;
                            dig_vertical(&mut build_data.map, prev.y, center.y, prev.x);
                            proof {
                                let dh = |a: int, b: int|
                                    b == center.y && min(prev.x as int, center.x as int) <= a <= max(
                                        prev.x as int,
                                        center.x as int,
                                    );
                                let dv = |a: int, b: int|
                                    a == prev.x && min(prev.y as int, center.y as int) <= b <= max(
                                        prev.y as int,
                                        center.y as int,
                                    );
                                lemma_carving_keeps_rooms_open(&m1, &m0, dh, rooms@.push(new_room));
                                lemma_carving_keeps_rooms_open(&build_data.map, &m1, dv, rooms@.push(new_room));
                                GameMap::lemma_carved_trans(&start, &m0, &m1, d0, dh);
                                GameMap::lemma_carved_trans(
                                    &start,
                                    &m1,
                                    &build_data.map,
                                    |x: int, y: int| d0(x, y) || dh(x, y),
                                    dv,
                                );
                                GameMap::lemma_carved_equiv(
                                    &build_data.map,
                                    &start,
                                    |x: int, y: int| (d0(x, y) || dh(x, y)) || dv(x, y),
                                    |x: int, y: int| d0(x, y) || on_corridor(prev, center, false, x, y),
                                );
                            }
                        }
                        proof {
                            let nl = layout.push((new_room, turn));
                            assert(nl.drop_last() =~= layout);
                            assert(layout[layout.len() - 1].0 == rooms@[rooms@.len() - 1]);
                            GameMap::lemma_carved_equiv(
                                &build_data.map,
                                &start,
                                |x: int, y: int| d0(x, y) || on_corridor(prev, center, turn, x, y),
                                |x: int, y: int| in_layout(nl, x, y),
                            );
                        }
                    } else {
                        proof {
                            let nl = layout.push((new_room, turn));
                            assert(nl.drop_last() =~= layout);
                            GameMap::lemma_carved_equiv(
                                &build_data.map,
                                &start,
                                |x: int, y: int| in_layout(layout, x, y) || new_room.contains(x, y),
                                |x: int, y: int| in_layout(nl, x, y),
                            );
                        }
                    }
                    rooms.push(new_room);
                    proof {
                        layout = layout.push((new_room, turn));
                    }
                    build_data.take_snapshot();
                }
            }
            i = i + 1;
        }
        if rooms.len() > 0 {
            let center = rect_center(&rooms[0]);
            build_data.starting_position = Some(center);
        } else {
            build_data.starting_position = Some(Point::new(size.x / 2, size.y / 2));
        }
        build_data.rooms = Some(rooms);
        proof {
            assert(layout_of(layout, build_data.rooms.unwrap()@));
            if old(build_data).map.blocked_matches_tiles() {
                GameMap::lemma_carved_keeps_blocked(
                    &build_data.map,
                    &old(build_data).map,
                    |x: int, y: int| in_layout(layout, x, y),
                );
            }
        }
    }
}

} // verus!
