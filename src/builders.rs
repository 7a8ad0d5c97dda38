use vstd::prelude::*;

use crate::basic_builders::{in_layout, layout_of, room_is_open, RoomMapBuilder, ShopBuilder, SimpleMapBuilder};
use crate::drunkard::{no_digging, DrunkardsWalkBuilder};
use crate::map::lemma_index_coords;
use crate::geom::{Point, Rect, Vector};
use crate::map::{GameMap, TileType};

verus! {

/// What map generation produces: the map, where the player starts, the rooms
/// that were carved (where the strategy has rooms), and, when asked for, the
/// sequence of intermediate maps for an animated reveal.
pub struct BuiltMap {
    pub spawn_list: Vec<(usize, String)>,
    pub map: GameMap,
    pub starting_position: Option<Point>,
    pub rooms: Option<Vec<Rect>>,
    pub history: Vec<GameMap>,
    pub with_history: bool,
    /// Every step reached its goal (a random walk may give up short of its
    /// floor target).
    pub complete: bool,
}

impl BuiltMap {
    /// The map and every recorded snapshot are well formed and of one size.
    pub open spec fn wf(&self) -> bool {
        &&& self.map.wf()
        &&& forall|k: int|
            0 <= k < self.history@.len() ==> (#[trigger] self.history@[k]).wf()
                && self.history@[k].size == self.map.size
        &&& forall|k: int, i: int|
            0 <= k < self.history@.len() && 0 <= i < self.map.area()
                ==> #[trigger] self.history@[k].revealed_tiles@[i]
    }

    /// A fresh result: an all-wall, all-blocked map of the given size and
    /// depth, with no start, rooms or history yet.
    pub open spec fn is_fresh(&self, size: Vector, depth: i32) -> bool {
        &&& self.wf()
        &&& self.map.size == size
        &&& self.map.depth == depth
        &&& forall|i: int| 0 <= i < self.map.area() ==> #[trigger] self.map.tiles@[i] == TileType::Wall
        &&& forall|i: int| 0 <= i < self.map.area() ==> #[trigger] self.map.blocked@[i]
        &&& self.starting_position is None
        &&& self.rooms is None
        &&& self.history@.len() == 0
        &&& self.complete
    }

    /// An all-wall map of the given size and depth, with nothing recorded.
    pub fn new(size: Vector, depth: i32) -> (b: BuiltMap)
        requires
            size.x >= 0,
            size.y >= 0,
            size.x * size.y <= i32::MAX,
        ensures
            b.wf(),
            b.map.size == size,
            b.map.depth == depth,
            forall|i: int|
                0 <= i < b.map.area() ==> #[trigger] b.map.tiles@[i] == crate::map::TileType::Wall,
            forall|i: int| 0 <= i < b.map.area() ==> #[trigger] b.map.blocked@[i],
            b.starting_position is None,
            b.rooms is None,
            b.history@.len() == 0,
            !b.with_history,
            b.complete,
            b.is_fresh(size, depth),
            b.spawn_list@.len() == 0,
    {
        BuiltMap {
            spawn_list: Vec::new(),
            map: GameMap::new((size.x, size.y), depth),
            starting_position: None,
            rooms: None,
            history: Vec::new(),
            with_history: false,
            complete: true,
        }
    }

    /// Appends a fully revealed copy of the current map to the history, when
    /// history is being recorded; otherwise does nothing.
    pub fn take_snapshot(&mut self)
        requires
            old(self).wf(),
        ensures
            final(self).wf(),
            final(self).map == old(self).map,
            final(self).starting_position == old(self).starting_position,
            final(self).rooms == old(self).rooms,
            final(self).with_history == old(self).with_history,
            final(self).complete == old(self).complete,
            final(self).spawn_list == old(self).spawn_list,
            old(self).with_history ==> final(self).history@ == old(self).history@.push(
                final(self).history@.last(),
            ),
            old(self).with_history ==> final(self).history@.last().tiles@ == old(self).map.tiles@,
            old(self).with_history ==> final(self).history@.last().blocked@ == old(self).map.blocked@,
            old(self).with_history ==> final(self).history@.last().visible_tiles@
                == old(self).map.visible_tiles@,
            old(self).with_history ==> final(self).history@.last().tile_content@
                == old(self).map.tile_content@,
            old(self).with_history ==> final(self).history@.last().size == old(self).map.size,
            old(self).with_history ==> final(self).history@.last().depth == old(self).map.depth,
            old(self).with_history ==> forall|i: int|
                0 <= i < old(self).map.area() ==> #[trigger] final(self).history@.last().revealed_tiles@[i],
            !old(self).with_history ==> final(self).history == old(self).history,
    {
        if self.with_history {
            let snapshot = self.map.snapshot();
            self.history.push(snapshot);
        }
    }
}

/// One generation step: the base strategy that fills a fresh map, or a
/// modifier that works over what earlier steps produced.
#[derive(Clone, Copy)]
pub enum MapStrategy {
    SingleRoom(RoomMapBuilder),
    RoomsAndCorridors(SimpleMapBuilder),
    DrunkardsWalk(DrunkardsWalkBuilder),
    Shop(ShopBuilder),
}

impl MapStrategy {
    /// The step can run on a map of this size (random walkers need room to
    /// spawn away from the border).
    pub open spec fn accepts(&self, size: Vector) -> bool {
        match self {
            MapStrategy::DrunkardsWalk(_) => size.x >= 5 && size.y >= 5,
            _ => true,
        }
    }

    /// What the step guarantees of the map and start it leaves behind.
    pub open spec fn produced(&self, before: &BuiltMap, after: &BuiltMap) -> bool {
        match self {
            MapStrategy::RoomsAndCorridors(_) => SimpleMapBuilder::generated(before, after)
                && after.complete == before.complete,
            MapStrategy::DrunkardsWalk(d) => {
                &&& no_digging(after.map.tiles@)
                &&& after.starting_position == Some(before.map.center())
                &&& after.map.blocked_matches_tiles()
                &&& after.complete == d.target_met(&before.map, after.map.tiles@)
                &&& d.lifetime > 0 && no_digging(before.map.tiles@) && !d.target_met(
                    &before.map,
                    before.map.tiles@,
                ) ==> after.map.tiles@[before.map.index_of(
                    before.map.center().x as int,
                    before.map.center().y as int,
                )] == TileType::Floor
            },
            _ => {
                &&& after.starting_position == Some(before.map.center())
                &&& after.complete == before.complete
                &&& after.map.is_carved_from(
                    &before.map,
                    |a: int, b: int| 1 <= a < before.map.width() - 1 && 1 <= b < before.map.height() - 1,
                )
            },
        }
    }

    /// On a fresh map of this size the step leaves its start on a floor tile.
    pub open spec fn fills(&self, size: Vector) -> bool {
        match self {
            MapStrategy::RoomsAndCorridors(_) => size.x >= 9 && size.y >= 9,
            MapStrategy::DrunkardsWalk(d) => d.lifetime > 0 && d.floor_percent > 0,
            _ => size.x >= 3 && size.y >= 3,
        }
    }

    pub fn apply(&mut self, rng: &mut rand::rngs::StdRng, build_data: &mut BuiltMap)
        requires
            old(build_data).wf(),
            old(self).accepts(old(build_data).map.size),
        ensures
            final(build_data).wf(),
            final(build_data).map.size == old(build_data).map.size,
            final(build_data).map.depth == old(build_data).map.depth,
            final(build_data).with_history == old(build_data).with_history,
            final(build_data).starting_position is Some,
            old(self).produced(old(build_data), final(build_data)),
    {
        match self {
            MapStrategy::SingleRoom(b) => b.build(rng, build_data),
            MapStrategy::RoomsAndCorridors(b) => b.build(rng, build_data),
            MapStrategy::DrunkardsWalk(b) => {
                b.build(rng, build_data);
            },
            MapStrategy::Shop(b) => b.build(rng, build_data),
        }
    }
}

/// Runs a base strategy and then each modifier in order over one map.
pub struct MapBuilder {
    base: MapStrategy,
    builders: Vec<MapStrategy>,
    build_data: BuiltMap,
}

/// Rooms that are open floor stay open once `blocked` is recomputed from the tiles.
proof fn lemma_refresh_keeps_rooms_open(after: &GameMap, before: &GameMap, rooms: Seq<Rect>)
    requires
        before.wf(),
        after.wf(),
        after.size == before.size,
        after.tiles == before.tiles,
        after.blocked_matches_tiles(),
        forall|k: int| 0 <= k < rooms.len() ==> room_is_open(before, #[trigger] rooms[k]),
    ensures
        forall|k: int| 0 <= k < rooms.len() ==> room_is_open(after, #[trigger] rooms[k]),
{
    assert forall|k: int| 0 <= k < rooms.len() implies room_is_open(after, #[trigger] rooms[k]) by {
        assert(room_is_open(before, rooms[k]));
        assert forall|i: int|
            0 <= i < after.area() && rooms[k].contains(
                after.tile_x(i),
                after.tile_y(i),
            ) implies #[trigger] after.tiles@[i] == TileType::Floor && !after.blocked@[i] by {
            assert(before.tiles@[i] == TileType::Floor);
            assert(after.blocked@[i] == (after.tiles@[i] == TileType::Wall));
        }
    }
}

impl MapBuilder {
    pub closed spec fn wf(&self) -> bool {
        &&& self.build_data.is_fresh(self.build_data.map.size, self.build_data.map.depth)
        &&& self.base.accepts(self.build_data.map.size)
        &&& forall|k: int|
            0 <= k < self.builders@.len() ==> (#[trigger] self.builders@[k]).accepts(
                self.build_data.map.size,
            )
    }

    pub closed spec fn size(&self) -> Vector {
        self.build_data.map.size
    }

    pub closed spec fn depth(&self) -> i32 {
        self.build_data.map.depth
    }

    pub closed spec fn records_history(&self) -> bool {
        self.build_data.with_history
    }

    pub closed spec fn base(&self) -> MapStrategy {
        self.base
    }

    pub closed spec fn modifiers(&self) -> Seq<MapStrategy> {
        self.builders@
    }

    /// A pipeline over an all-wall map of the given size and depth, with no
    /// modifiers and no history recording.
    pub fn new(size: Vector, depth: i32, base: MapStrategy) -> (b: MapBuilder)
        requires
            size.x >= 0,
            size.y >= 0,
            size.x * size.y <= i32::MAX,
            base.accepts(size),
        ensures
            b.wf(),
            b.size() == size,
            b.depth() == depth,
            b.base() == base,
            b.modifiers().len() == 0,
            !b.records_history(),
    {
        MapBuilder { base, builders: Vec::new(), build_data: BuiltMap::new(size, depth) }
    }

    /// Asks for the intermediate maps to be recorded.
    pub fn keep_history(self) -> (b: MapBuilder)
        requires
            self.wf(),
        ensures
            b.wf(),
            b.size() == self.size(),
            b.depth() == self.depth(),
            b.base() == self.base(),
            b.modifiers() == self.modifiers(),
            b.records_history(),
    {
        let mut b = self;
        b.build_data.with_history = true;
        b
    }

    /// Appends a modifier, run after the base strategy and earlier modifiers.
    pub fn with(self, builder: MapStrategy) -> (b: MapBuilder)
        requires
            self.wf(),
            builder.accepts(self.size()),
        ensures
            b.wf(),
            b.size() == self.size(),
            b.depth() == self.depth(),
            b.base() == self.base(),
            b.modifiers() == self.modifiers().push(builder),
            b.records_history() == self.records_history(),
    {
        let mut b = self;
        b.builders.push(builder);
        b
    }

    /// The run of the pipeline went through `trace`: a fresh map, then the
    /// result of the base step, then that of each modifier in order, and
    /// `built` holds the last of these (its `blocked` flags brought in line).
    pub open spec fn ran_through(&self, trace: Seq<BuiltMap>, built: &BuiltMap) -> bool {
        &&& trace.len() == self.modifiers().len() + 2
        &&& trace[0].is_fresh(self.size(), self.depth())
        &&& trace[0].with_history == self.records_history()
        &&& self.base().produced(&trace[0], &trace[1])
        &&& forall|k: int|
            0 <= k < self.modifiers().len() ==> (#[trigger] self.modifiers()[k]).produced(
                &trace[k + 1],
                &trace[k + 2],
            )
        &&& built.map.tiles@ == trace.last().map.tiles@
        &&& built.starting_position == trace.last().starting_position
        &&& built.rooms == trace.last().rooms
        &&& built.complete == trace.last().complete
    }

    /// Runs the pipeline: the base step on a fresh map, then each modifier in
    /// order. The result's `blocked` flags match its tiles, it has a starting
    /// position, and a recorded history is fully revealed and ends with the
    /// final tiles.
    pub fn build(self, rng: &mut rand::rngs::StdRng) -> (built: BuiltMap)
        requires
            self.wf(),
        ensures
            built.wf(),
            exists|trace: Seq<BuiltMap>| #[trigger] self.ran_through(trace, &built),
            built.map.size == self.size(),
            built.map.depth == self.depth(),
            built.map.blocked_matches_tiles(),
            built.starting_position is Some,
            built.with_history == self.records_history(),
            built.with_history ==> built.history@.len() > 0 && built.history@.last().tiles@
                == built.map.tiles@,
            self.modifiers().len() == 0 && self.base() is RoomsAndCorridors ==> built.rooms is Some
                && SimpleMapBuilder::rooms_valid(&built.map, built.rooms.unwrap()@)
                && built.starting_position == if built.rooms.unwrap()@.len() > 0 {
                Some(built.rooms.unwrap()@[0].center())
            } else {
                Some(built.map.center())
            },
            self.modifiers().len() == 0 && self.base() is DrunkardsWalk ==> no_digging(
                built.map.tiles@,
            ) && (built.complete <==> self.base()->DrunkardsWalk_0.target_met(
                &built.map,
                built.map.tiles@,
            )),
            self.modifiers().len() == 0 && self.base().fills(self.size()) ==> built.map.in_bounds(
                built.starting_position.unwrap().x as int,
                built.starting_position.unwrap().y as int,
            ) && built.map.tiles@[built.map.index_of(
                built.starting_position.unwrap().x as int,
                built.starting_position.unwrap().y as int,
            )] == TileType::Floor,
    {
        let mut b = self;
        let ghost initial = b.build_data;
        b.base.apply(rng, &mut b.build_data);
        let ghost after_base = b.build_data;
        let ghost mut trace: Seq<BuiltMap> = seq![initial, after_base];
        let mut i: usize = 0;
        while i < b.builders.len()
            invariant
                b.build_data.wf(),
                b.build_data.map.size == self.size(),
                b.build_data.map.depth == self.depth(),
                b.build_data.with_history == self.records_history(),
                b.build_data.starting_position is Some,
                b.builders@ == self.modifiers(),
                i <= b.builders@.len(),
                forall|k: int|
                    0 <= k < b.builders@.len() ==> (#[trigger] b.builders@[k]).accepts(
                        self.size(),
                    ),
                i == 0 ==> b.build_data == after_base,
                trace.len() == i + 2,
                trace[0] == initial,
                trace[1] == after_base,
                trace.last() == b.build_data,
                forall|k: int|
                    0 <= k < i ==> (#[trigger] self.modifiers()[k]).produced(
                        &trace[k + 1],
                        &trace[k + 2],
                    ),
            decreases b.builders@.len() - i,
        {
            let mut step = b.builders[i];
            let ghost before = b.build_data;
            step.apply(rng, &mut b.build_data);
            proof {
                trace = trace.push(b.build_data);
                assert(trace[i + 1] == before);
            }
            i = i + 1;
        }
        let ghost before_refresh = b.build_data.map;
        b.build_data.map.refresh_blocked();
        proof {
            if self.modifiers().len() == 0 && self.base() is RoomsAndCorridors {
                lemma_refresh_keeps_rooms_open(
                    &b.build_data.map,
                    &before_refresh,
                    b.build_data.rooms.unwrap()@,
                );
            }
        }
        if b.build_data.with_history {
            b.build_data.take_snapshot();
        }
        proof {
            assert(self.ran_through(trace, &b.build_data));
            let m = b.build_data.map;
            let size = self.size();
            if self.modifiers().len() == 0 && self.base().fills(size) {
                assert(trace.last() == after_base);
                let sp = b.build_data.starting_position.unwrap();
                match self.base() {
                    MapStrategy::RoomsAndCorridors(_) => {
                        let r0 = after_base.rooms.unwrap()@[0];
                        assert(room_is_open(&m, r0));
                        lemma_index_coords(sp.x as int, sp.y as int, m.width(), m.height());
                        assert(r0.contains(m.tile_x(m.index_of(sp.x as int, sp.y as int)), m.tile_y(m.index_of(sp.x as int, sp.y as int))));
                    },
                    MapStrategy::DrunkardsWalk(d) => {
                        let (w, h) = (initial.map.width(), initial.map.height());
                        assert(w * h > 0) by (nonlinear_arith)
                            requires
                                w > 0,
                                h > 0,
                        ;
                        lemma_no_floor(initial.map.tiles@, initial.map.area());
                        assert(no_digging(initial.map.tiles@));
                        assert(!d.target_met(&initial.map, initial.map.tiles@)) by (nonlinear_arith)
                            requires
                                d.floor_percent > 0,
                                initial.map.area() > 0,
                                GameMap::floor_count(initial.map.tiles@) == 0,
                        ;
                    },
                    _ => {
                        lemma_index_coords(sp.x as int, sp.y as int, m.width(), m.height());
                        assert(after_base.map.tiles@[m.index_of(sp.x as int, sp.y as int)] == TileType::Floor);
                    },
                }
            }
        }
        b.build_data
    }
}

/// A sequence whose first `n` tiles are all wall holds no floor among them.
proof fn lemma_no_floor(tiles: Seq<TileType>, n: int)
    requires
        0 <= n <= tiles.len(),
        forall|i: int| 0 <= i < n ==> #[trigger] tiles[i] == TileType::Wall,
    ensures
        GameMap::floor_count_upto(tiles, n) == 0,
    decreases n,
{
    if n > 0 {
        lemma_no_floor(tiles, n - 1);
    }
}

/// The start lies on the map, on a floor tile.
pub open spec fn starts_on_floor(built: &BuiltMap) -> bool {
    &&& built.starting_position is Some
    &&& built.map.in_bounds(
        built.starting_position.unwrap().x as int,
        built.starting_position.unwrap().y as int,
    )
    &&& built.map.tiles@[built.map.index_of(
        built.starting_position.unwrap().x as int,
        built.starting_position.unwrap().y as int,
    )] == TileType::Floor
}

/// A rooms-and-corridors level: exactly the tiles of its rooms and of the
/// corridors joining each room to the next are floor.
pub fn random_builder(size: Vector, depth: i32, rng: &mut rand::rngs::StdRng) -> (built: BuiltMap)
    requires
        size.x >= 0,
        size.y >= 0,
        size.x * size.y <= i32::MAX,
    ensures
        built.wf(),
        built.map.size == size,
        built.map.depth == depth,
        built.map.blocked_matches_tiles(),
        built.rooms is Some,
        SimpleMapBuilder::rooms_valid(&built.map, built.rooms.unwrap()@),
        built.starting_position == if built.rooms.unwrap()@.len() > 0 {
            Some(built.rooms.unwrap()@[0].center())
        } else {
            Some(built.map.center())
        },
        size.x >= 9 && size.y >= 9 ==> built.rooms.unwrap()@.len() >= 1 && starts_on_floor(&built),
        exists|layout: Seq<(Rect, bool)>|
            #[trigger] layout_of(layout, built.rooms.unwrap()@) && forall|i: int|
                0 <= i < built.map.area() ==> #[trigger] built.map.tiles@[i] == if in_layout(
                    layout,
                    built.map.tile_x(i),
                    built.map.tile_y(i),
                ) {
                    TileType::Floor
                } else {
                    TileType::Wall
                },
{
    let mb = MapBuilder::new(size, depth, MapStrategy::RoomsAndCorridors(SimpleMapBuilder));
    let ghost g = mb;
    let built = mb.build(rng);
    proof {
        let trace = choose|trace: Seq<BuiltMap>| g.ran_through(trace, &built);
        assert(g.ran_through(trace, &built));
        let after = trace[1];
        assert(SimpleMapBuilder::generated(&trace[0], &after));
        let layout = choose|layout: Seq<(Rect, bool)>|
            #[trigger] layout_of(layout, after.rooms.unwrap()@) && after.map.is_carved_from(
                &trace[0].map,
                |x: int, y: int| in_layout(layout, x, y),
            );
        assert(layout_of(layout, built.rooms.unwrap()@));
        assert forall|i: int| 0 <= i < built.map.area() implies #[trigger] built.map.tiles@[i] == if in_layout(
            layout,
            built.map.tile_x(i),
            built.map.tile_y(i),
        ) {
            TileType::Floor
        } else {
            TileType::Wall
        } by {
            assert(after.map.tiles@[i] == after.map.tiles@[i]);
            assert(trace[0].map.tiles@[i] == TileType::Wall);
        }
    }
    built
}

/// A cave level dug by random walkers until six tenths of it is floor; when
/// the walk ran to the end (`complete`) the share was reached.
pub fn drunk_builder(size: Vector, depth: i32, rng: &mut rand::rngs::StdRng) -> (built: BuiltMap)
    requires
        size.x >= 5,
        size.y >= 5,
        size.x * size.y <= i32::MAX,
    ensures
        built.wf(),
        built.map.size == size,
        built.map.depth == depth,
        built.map.blocked_matches_tiles(),
        no_digging(built.map.tiles@),
        built.complete <==> GameMap::floor_count(built.map.tiles@) * 100 >= 60 * built.map.area(),
        starts_on_floor(&built),
        built.starting_position == Some(built.map.center()),
{
    let mb = MapBuilder::new(
        size,
        depth,
        MapStrategy::DrunkardsWalk(
            DrunkardsWalkBuilder { lifetime: 400, floor_percent: 60, brush_size: 1 },
        ),
    );
    let ghost g = mb;
    let built = mb.build(rng);
    proof {
        let trace = choose|trace: Seq<BuiltMap>| g.ran_through(trace, &built);
        assert(g.ran_through(trace, &built));
    }
    built
}

/// A single open room at depth zero: exactly the tiles off the outermost
/// ring are floor.
pub fn shop_builder(size: Vector, rng: &mut rand::rngs::StdRng) -> (built: BuiltMap)
    requires
        size.x >= 0,
        size.y >= 0,
        size.x * size.y <= i32::MAX,
    ensures
        built.wf(),
        built.map.size == size,
        built.map.depth == 0,
        built.map.blocked_matches_tiles(),
        built.starting_position == Some(built.map.center()),
        forall|i: int|
            0 <= i < built.map.area() ==> #[trigger] built.map.tiles@[i] == if 1 <= built.map.tile_x(i)
                < size.x - 1 && 1 <= built.map.tile_y(i) < size.y - 1 {
                TileType::Floor
            } else {
                TileType::Wall
            },
        size.x >= 3 && size.y >= 3 ==> starts_on_floor(&built),
{
    let mb = MapBuilder::new(size, 0, MapStrategy::Shop(ShopBuilder));
    let ghost g = mb;
    let built = mb.build(rng);
    proof {
        let trace = choose|trace: Seq<BuiltMap>| g.ran_through(trace, &built);
        assert(g.ran_through(trace, &built));
        let after = trace[1];
        assert forall|i: int| 0 <= i < built.map.area() implies #[trigger] built.map.tiles@[i] == if 1
            <= built.map.tile_x(i) < size.x - 1 && 1 <= built.map.tile_y(i) < size.y - 1 {
            TileType::Floor
        } else {
            TileType::Wall
        } by {
            assert(after.map.tiles@[i] == after.map.tiles@[i]);
            assert(trace[0].map.tiles@[i] == TileType::Wall);
        }
    }
    built
}

} // verus!
