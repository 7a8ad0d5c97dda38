use vstd::arithmetic::div_mod::{lemma_fundamental_div_mod, lemma_fundamental_div_mod_converse};
use vstd::prelude::*;

use crate::component::Entity;
use crate::geom::{Point, Vector};

verus! {

#[derive(Clone, Copy, Debug, PartialEq, Eq, Structural, Hash)]
pub enum TileType {
    Wall,
    Floor,
    Digging,
}

/// The tile grid. Every per-tile sequence is indexed by `y * width + x`.
pub struct GameMap {
    pub tiles: Vec<TileType>,
    pub size: Vector,
    pub revealed_tiles: Vec<bool>,
    pub visible_tiles: Vec<bool>,
    pub blocked: Vec<bool>,
    pub depth: i32,
    pub tile_content: Vec<Option<Entity>>,
}

/// A tile inside a `width` by `height` grid has an index below `width * height`.
pub proof fn lemma_index_in_range(x: int, y: int, width: int, height: int)
    requires
        0 <= x < width,
        0 <= y < height,
    ensures
        0 <= y * width + x < width * height,
{
    assert(0 <= y * width) by (nonlinear_arith)
        requires
            0 <= y,
            0 <= width,
    ;
    assert(y * width + x < width * height) by (nonlinear_arith)
        requires
            0 <= x < width,
            0 <= y < height,
    ;
}


/// The index of the tile `(x, y)` gives back `x` as its remainder and `y` as its quotient.
pub proof fn lemma_index_coords(x: int, y: int, width: int, height: int)
    requires
        0 <= x < width,
        0 <= y < height,
    ensures
        (y * width + x) % width == x,
        (y * width + x) / width == y,
        0 <= y * width + x < width * height,
{
    lemma_index_in_range(x, y, width, height);
    lemma_fundamental_div_mod_converse(y * width + x, width, y, x);
}

/// Every index below `width * height` is the index of an in-bounds tile.
pub proof fn lemma_tile_coords(i: int, width: int, height: int)
    requires
        0 <= i < width * height,
        width >= 0,
        height >= 0,
    ensures
        0 <= i % width < width,
        0 <= i / width < height,
        (i / width) * width + i % width == i,
{
    assert(width > 0) by (nonlinear_arith)
        requires
            0 <= i < width * height,
            width >= 0,
            height >= 0,
    ;
    lemma_fundamental_div_mod(i, width);
    let q = i / width;
    let r = i % width;
    assert(q * width == width * q) by (nonlinear_arith);
    assert(0 <= q < height) by (nonlinear_arith)
        requires
            0 <= i < width * height,
            width > 0,
            i == q * width + r,
            0 <= r < width,
    ;
}

impl GameMap {
    pub open spec fn width(&self) -> int {
        self.size.x as int
    }

    pub open spec fn height(&self) -> int {
        self.size.y as int
    }

    pub open spec fn area(&self) -> int {
        self.width() * self.height()
    }

    /// Well-formed: a grid (possibly empty) whose area fits an `i32`, with
    /// every per-tile sequence of exactly that length.
    pub open spec fn wf(&self) -> bool {
        &&& self.size.x >= 0
        &&& self.size.y >= 0
        &&& self.area() <= i32::MAX
        &&& self.tiles@.len() == self.area()
        &&& self.revealed_tiles@.len() == self.area()
        &&& self.visible_tiles@.len() == self.area()
        &&& self.blocked@.len() == self.area()
        &&& self.tile_content@.len() == self.area()
    }

    /// The middle tile: half the width and half the height, rounded down.
    pub open spec fn center(&self) -> Point {
        Point { x: (self.size.x / 2) as i32, y: (self.size.y / 2) as i32 }
    }

    pub open spec fn in_bounds(&self, x: int, y: int) -> bool {
        0 <= x < self.width() && 0 <= y < self.height()
    }

    pub open spec fn index_of(&self, x: int, y: int) -> int {
        y * self.width() + x
    }


    pub open spec fn tile_x(&self, i: int) -> int {
        i % self.width()
    }

    pub open spec fn tile_y(&self, i: int) -> int {
        i / self.width()
    }

    /// `self` is `before` with exactly the tiles selected by `dug` turned into
    /// unblocked floor; everything else is as it was.
    pub open spec fn is_carved_from(&self, before: &GameMap, dug: spec_fn(int, int) -> bool) -> bool {
        &&& self.size == before.size
        &&& self.depth == before.depth
        &&& self.revealed_tiles == before.revealed_tiles
        &&& self.visible_tiles == before.visible_tiles
        &&& self.tile_content == before.tile_content
        &&& self.tiles@.len() == before.tiles@.len()
        &&& self.blocked@.len() == before.blocked@.len()
        &&& forall|i: int|
            0 <= i < before.area() ==> #[trigger] self.tiles@[i] == if dug(
                before.tile_x(i),
                before.tile_y(i),
            ) {
                TileType::Floor
            } else {
                before.tiles@[i]
            }
        &&& forall|i: int|
            0 <= i < before.area() ==> #[trigger] self.blocked@[i] == if dug(
                before.tile_x(i),
                before.tile_y(i),
            ) {
                false
            } else {
                before.blocked@[i]
            }
    }

    /// `blocked` holds exactly the wall tiles.
    pub open spec fn blocked_matches_tiles(&self) -> bool {
        forall|i: int|
            0 <= i < self.tiles@.len() ==> #[trigger] self.blocked@[i] == (self.tiles@[i]
                == TileType::Wall)
    }

    /// The number of `Floor` tiles among the first `n` tiles.
    pub open spec fn floor_count_upto(tiles: Seq<TileType>, n: int) -> nat
        decreases n,
    {
        if n <= 0 {
            0
        } else {
            GameMap::floor_count_upto(tiles, n - 1) + if tiles[n - 1] == TileType::Floor {
                1nat
            } else {
                0nat
            }
        }
    }

    pub open spec fn floor_count(tiles: Seq<TileType>) -> nat {
        GameMap::floor_count_upto(tiles, tiles.len() as int)
    }

    /// A map of the given size and depth that is all wall: every tile blocked,
    /// hidden and unoccupied.
    pub fn new(size: (i32, i32), depth: i32) -> (map: GameMap)
        requires
            size.0 >= 0,
            size.1 >= 0,
            size.0 * size.1 <= i32::MAX,
        ensures
            map.wf(),
            map.size == (Vector { x: size.0, y: size.1 }),
            map.depth == depth,
            forall|i: int| 0 <= i < map.area() ==> #[trigger] map.tiles@[i] == TileType::Wall,
            forall|i: int| 0 <= i < map.area() ==> #[trigger] map.blocked@[i],
            forall|i: int| 0 <= i < map.area() ==> !#[trigger] map.revealed_tiles@[i],
            forall|i: int| 0 <= i < map.area() ==> !#[trigger] map.visible_tiles@[i],
            forall|i: int| 0 <= i < map.area() ==> #[trigger] map.tile_content@[i] is None,
    {
        let (width, height) = (size.0, size.1);
        let total = (width * height) as usize;
        let mut tiles: Vec<TileType> = Vec::new();
        let mut revealed_tiles: Vec<bool> = Vec::new();
        let mut visible_tiles: Vec<bool> = Vec::new();
        let mut blocked: Vec<bool> = Vec::new();
        let mut tile_content: Vec<Option<Entity>> = Vec::new();
        let mut i: usize = 0;
        while i < total
            invariant
                i <= total,
                tiles@.len() == i,
                revealed_tiles@.len() == i,
                visible_tiles@.len() == i,
                blocked@.len() == i,
                tile_content@.len() == i,
                forall|j: int| 0 <= j < i ==> #[trigger] tiles@[j] == TileType::Wall,
                forall|j: int| 0 <= j < i ==> #[trigger] blocked@[j],
                forall|j: int| 0 <= j < i ==> !#[trigger] revealed_tiles@[j],
                forall|j: int| 0 <= j < i ==> !#[trigger] visible_tiles@[j],
                forall|j: int| 0 <= j < i ==> #[trigger] tile_content@[j] is None,
            decreases total - i,
        {
            tiles.push(TileType::Wall);
            revealed_tiles.push(false);
            visible_tiles.push(false);
            blocked.push(true);
            tile_content.push(None);
            i = i + 1;
        }
        GameMap {
            tiles,
            size: Vector { x: width, y: height },
            revealed_tiles,
            visible_tiles,
            blocked,
            depth,
            tile_content,
        }
    }


    /// Carving is unchanged when the selection is replaced by one that agrees
    /// with it on every tile of the map.
    pub proof fn lemma_carved_equiv(
        after: &GameMap,
        before: &GameMap,
        d1: spec_fn(int, int) -> bool,
        d2: spec_fn(int, int) -> bool,
    )
        requires
            before.wf(),
            after.is_carved_from(before, d1),
            forall|a: int, b: int| before.in_bounds(a, b) ==> d1(a, b) == d2(a, b),
        ensures
            after.is_carved_from(before, d2),
    {
        assert forall|i: int| 0 <= i < before.area() implies d1(
            before.tile_x(i),
            before.tile_y(i),
        ) == d2(before.tile_x(i), before.tile_y(i)) by {
            lemma_tile_coords(i, before.width(), before.height());
            assert(before.in_bounds(before.tile_x(i), before.tile_y(i)));
        }
    }

    /// Carving keeps `blocked` in line with the tiles.
    pub proof fn lemma_carved_keeps_blocked(after: &GameMap, before: &GameMap, d: spec_fn(int, int) -> bool)
        requires
            before.wf(),
            after.is_carved_from(before, d),
            before.blocked_matches_tiles(),
        ensures
            after.blocked_matches_tiles(),
    {
        assert forall|i: int| 0 <= i < after.tiles@.len() implies #[trigger] after.blocked@[i] == (
        after.tiles@[i] == TileType::Wall) by {
            assert(after.tiles@[i] == after.tiles@[i]);
            assert(before.blocked@[i] == (before.tiles@[i] == TileType::Wall));
        }
    }

    /// Two carvings in a row carve the union of their selections.
    pub proof fn lemma_carved_trans(
        m1: &GameMap,
        m2: &GameMap,
        m3: &GameMap,
        d1: spec_fn(int, int) -> bool,
        d2: spec_fn(int, int) -> bool,
    )
        requires
            m1.wf(),
            m2.is_carved_from(m1, d1),
            m3.is_carved_from(m2, d2),
        ensures
            m3.is_carved_from(m1, |a: int, b: int| d1(a, b) || d2(a, b)),
    {
        assert forall|i: int| 0 <= i < m1.area() implies #[trigger] m3.tiles@[i] == (if d1(
            m1.tile_x(i),
            m1.tile_y(i),
        ) || d2(m1.tile_x(i), m1.tile_y(i)) {
            TileType::Floor
        } else {
            m1.tiles@[i]
        }) && m3.blocked@[i] == (if d1(m1.tile_x(i), m1.tile_y(i)) || d2(
            m1.tile_x(i),
            m1.tile_y(i),
        ) {
            false
        } else {
            m1.blocked@[i]
        }) by {
            assert(m3.tiles@[i] == m3.tiles@[i]);
            assert(m2.tiles@[i] == m2.tiles@[i]);
        }
    }

    /// Turns the tile `(x, y)` into unblocked floor.
    pub(crate) fn dig(&mut self, x: i32, y: i32)
        requires
            old(self).wf(),
            old(self).in_bounds(x as int, y as int),
        ensures
            final(self).wf(),
            final(self).is_carved_from(old(self), |a: int, b: int| a == x && b == y),
    {
        let index = self.coord_to_index(x, y);
        proof {
            lemma_index_coords(x as int, y as int, self.width(), self.height());
            assert forall|i: int| 0 <= i < self.area() && i != index implies !(self.tile_x(i)
                == x && self.tile_y(i) == y) by {
                lemma_tile_coords(i, self.width(), self.height());
            }
        }
        self.tiles[index] = TileType::Floor;
        self.blocked[index] = false;
    }

    pub fn coord_to_index(&self, x: i32, y: i32) -> (index: usize)
        requires
            self.wf(),
            self.in_bounds(x as int, y as int),
        ensures
            index == self.index_of(x as int, y as int),
            index < self.area(),
    {
        proof {
            lemma_index_in_range(x as int, y as int, self.width(), self.height());
        }
        (y as usize) * (self.size.x as usize) + x as usize
    }

    fn point_to_index(&self, point: Point) -> (index: usize)
        requires
            self.wf(),
            self.in_bounds(point.x as int, point.y as int),
        ensures
            index == self.index_of(point.x as int, point.y as int),
            index < self.area(),
    {
        self.coord_to_index(point.x, point.y)
    }

    pub fn is_blocked(&self, point: Point) -> (r: bool)
        requires
            self.wf(),
            self.in_bounds(point.x as int, point.y as int),
        ensures
            r == self.blocked@[self.index_of(point.x as int, point.y as int)],
    {
        let index = self.point_to_index(point);
        self.blocked[index]
    }

    pub fn get_type(&self, point: Point) -> (t: TileType)
        requires
            self.wf(),
            self.in_bounds(point.x as int, point.y as int),
        ensures
            t == self.tiles@[self.index_of(point.x as int, point.y as int)],
    {
        let index = self.point_to_index(point);
        self.tiles[index]
    }

    /// Sets the type of one tile; nothing else changes.
    pub fn set_type(&mut self, point: Point, t: TileType)
        requires
            old(self).wf(),
            old(self).in_bounds(point.x as int, point.y as int),
        ensures
            final(self).wf(),
            final(self).tiles@ == old(self).tiles@.update(
                old(self).index_of(point.x as int, point.y as int),
                t,
            ),
            final(self).size == old(self).size,
            final(self).depth == old(self).depth,
            final(self).blocked == old(self).blocked,
            final(self).revealed_tiles == old(self).revealed_tiles,
            final(self).visible_tiles == old(self).visible_tiles,
            final(self).tile_content == old(self).tile_content,
    {
        let index = self.point_to_index(point);
        self.tiles[index] = t;
    }


    /// A copy of the map with every tile revealed, as recorded in a
    /// generation history.
    pub fn snapshot(&self) -> (copy: GameMap)
        requires
            self.wf(),
        ensures
            copy.wf(),
            copy.size == self.size,
            copy.depth == self.depth,
            copy.tiles@ == self.tiles@,
            copy.blocked@ == self.blocked@,
            copy.visible_tiles@ == self.visible_tiles@,
            copy.tile_content@ == self.tile_content@,
            forall|i: int| 0 <= i < copy.area() ==> #[trigger] copy.revealed_tiles@[i],
    {
        let n = self.tiles.len();
        let mut tiles: Vec<TileType> = Vec::new();
        let mut revealed_tiles: Vec<bool> = Vec::new();
        let mut visible_tiles: Vec<bool> = Vec::new();
        let mut blocked: Vec<bool> = Vec::new();
        let mut tile_content: Vec<Option<Entity>> = Vec::new();
        let mut i: usize = 0;
        while i < n
            invariant
                self.wf(),
                n == self.area(),
                i <= n,
                tiles@ == self.tiles@.subrange(0, i as int),
                blocked@ == self.blocked@.subrange(0, i as int),
                visible_tiles@ == self.visible_tiles@.subrange(0, i as int),
                tile_content@ == self.tile_content@.subrange(0, i as int),
                revealed_tiles@.len() == i,
                forall|j: int| 0 <= j < i ==> #[trigger] revealed_tiles@[j],
            decreases n - i,
        {
            tiles.push(self.tiles[i]);
            blocked.push(self.blocked[i]);
            visible_tiles.push(self.visible_tiles[i]);
            tile_content.push(self.tile_content[i]);
            revealed_tiles.push(true);
            i = i + 1;
        }
        proof {
            assert(tiles@ =~= self.tiles@);
            assert(blocked@ =~= self.blocked@);
            assert(visible_tiles@ =~= self.visible_tiles@);
            assert(tile_content@ =~= self.tile_content@);
        }
        GameMap {
            tiles,
            size: self.size,
            revealed_tiles,
            visible_tiles,
            blocked,
            depth: self.depth,
            tile_content,
        }
    }


    /// Hides every tile; nothing else changes.
    pub fn clear_visible(&mut self)
        requires
            old(self).wf(),
        ensures
            final(self).wf(),
            forall|i: int| 0 <= i < final(self).area() ==> !#[trigger] final(self).visible_tiles@[i],
            final(self).tiles == old(self).tiles,
            final(self).size == old(self).size,
            final(self).depth == old(self).depth,
            final(self).blocked == old(self).blocked,
            final(self).revealed_tiles == old(self).revealed_tiles,
            final(self).tile_content == old(self).tile_content,
    {
        let n = self.visible_tiles.len();
        let mut i: usize = 0;
        while i < n
            invariant
                self.wf(),
                n == self.visible_tiles@.len(),
                i <= n,
                self.tiles == old(self).tiles,
                self.size == old(self).size,
                self.depth == old(self).depth,
                self.blocked == old(self).blocked,
                self.revealed_tiles == old(self).revealed_tiles,
                self.tile_content == old(self).tile_content,
                forall|j: int| 0 <= j < i ==> !#[trigger] self.visible_tiles@[j],
            decreases n - i,
        {
            self.visible_tiles[i] = false;
            i = i + 1;
        }
    }

    /// Marks one tile visible; nothing else changes.
    pub fn set_visible(&mut self, point: Point)
        requires
            old(self).wf(),
            old(self).in_bounds(point.x as int, point.y as int),
        ensures
            final(self).wf(),
            final(self).visible_tiles@ == old(self).visible_tiles@.update(
                old(self).index_of(point.x as int, point.y as int),
                true,
            ),
            final(self).tiles == old(self).tiles,
            final(self).size == old(self).size,
            final(self).depth == old(self).depth,
            final(self).blocked == old(self).blocked,
            final(self).revealed_tiles == old(self).revealed_tiles,
            final(self).tile_content == old(self).tile_content,
    {
        let index = self.point_to_index(point);
        self.visible_tiles[index] = true;
    }

    /// Marks one tile revealed; nothing else changes.
    pub fn set_revealed(&mut self, point: Point)
        requires
            old(self).wf(),
            old(self).in_bounds(point.x as int, point.y as int),
        ensures
            final(self).wf(),
            final(self).revealed_tiles@ == old(self).revealed_tiles@.update(
                old(self).index_of(point.x as int, point.y as int),
                true,
            ),
            final(self).tiles == old(self).tiles,
            final(self).size == old(self).size,
            final(self).depth == old(self).depth,
            final(self).blocked == old(self).blocked,
            final(self).visible_tiles == old(self).visible_tiles,
            final(self).tile_content == old(self).tile_content,
    {
        let index = self.point_to_index(point);
        self.revealed_tiles[index] = true;
    }

    /// Recomputes `blocked` from the tiles: a tile is blocked iff it is a wall.
    pub fn refresh_blocked(&mut self)
        requires
            old(self).wf(),
        ensures
            final(self).wf(),
            final(self).blocked_matches_tiles(),
            final(self).tiles == old(self).tiles,
            final(self).size == old(self).size,
            final(self).depth == old(self).depth,
            final(self).revealed_tiles == old(self).revealed_tiles,
            final(self).visible_tiles == old(self).visible_tiles,
            final(self).tile_content == old(self).tile_content,
    {
        let n = self.tiles.len();
        let mut i: usize = 0;
        while i < n
            invariant
                self.wf(),
                n == self.tiles@.len(),
                i <= n,
                self.tiles == old(self).tiles,
                self.size == old(self).size,
                self.depth == old(self).depth,
                self.revealed_tiles == old(self).revealed_tiles,
                self.visible_tiles == old(self).visible_tiles,
                self.tile_content == old(self).tile_content,
                forall|j: int|
                    0 <= j < i ==> #[trigger] self.blocked@[j] == (self.tiles@[j]
                        == TileType::Wall),
            decreases n - i,
        {
            let wall = self.tiles[i] == TileType::Wall;
            self.blocked[i] = wall;
            i = i + 1;
        }
    }

    /// Marks every tile unoccupied.
    pub fn refresh_content(&mut self)
        requires
            old(self).wf(),
        ensures
            final(self).wf(),
            forall|i: int|
                0 <= i < final(self).area() ==> #[trigger] final(self).tile_content@[i] is None,
            final(self).tiles == old(self).tiles,
            final(self).size == old(self).size,
            final(self).depth == old(self).depth,
            final(self).blocked == old(self).blocked,
            final(self).revealed_tiles == old(self).revealed_tiles,
            final(self).visible_tiles == old(self).visible_tiles,
    {
        let n = self.tile_content.len();
        let mut i: usize = 0;
        while i < n
            invariant
                self.wf(),
                n == self.tile_content@.len(),
                i <= n,
                self.tiles == old(self).tiles,
                self.size == old(self).size,
                self.depth == old(self).depth,
                self.blocked == old(self).blocked,
                self.revealed_tiles == old(self).revealed_tiles,
                self.visible_tiles == old(self).visible_tiles,
                forall|j: int| 0 <= j < i ==> #[trigger] self.tile_content@[j] is None,
            decreases n - i,
        {
            self.tile_content[i] = None;
            i = i + 1;
        }
    }
}

/// A tile together with the cost of reaching it.
#[derive(Clone, Copy, Debug, PartialEq, Eq, Structural, Hash, PartialOrd, Ord)]
pub struct TilePos(pub i32, pub i32, pub i32);

impl TilePos {
    /// The neighbour `(dx, dy)` away can be entered within `max_cost`.
    pub open spec fn can_step(&self, map: &GameMap, dx: int, dy: int, max_cost: i32) -> bool {
        &&& map.in_bounds(self.0 + dx, self.1 + dy)
        &&& !map.blocked@[map.index_of(self.0 + dx, self.1 + dy)]
        &&& self.2 + 1 <= max_cost
    }

    /// The step to the neighbour `(dx, dy)` away, if it can be taken, with
    /// its unit cost.
    pub open spec fn step_to(&self, map: &GameMap, dx: int, dy: int, max_cost: i32) -> Seq<(TilePos, i32)> {
        if self.can_step(map, dx, dy, max_cost) {
            seq![(TilePos((self.0 + dx) as i32, (self.1 + dy) as i32, (self.2 + 1) as i32), 1i32)]
        } else {
            Seq::empty()
        }
    }

    /// The enterable neighbours below, above, right and left, in that order.
    pub open spec fn neighbours(&self, map: &GameMap, max_cost: i32) -> Seq<(TilePos, i32)> {
        self.step_to(map, 0, 1, max_cost) + self.step_to(map, 0, -1, max_cost) + self.step_to(
            map,
            1,
            0,
            max_cost,
        ) + self.step_to(map, -1, 0, max_cost)
    }

    fn push_if_under_cost(&self, map: &GameMap, succ: &mut Vec<(TilePos, i32)>, offset: (i32, i32), max_cost: i32)
        requires
            map.wf(),
            map.in_bounds(self.0 + offset.0, self.1 + offset.1),
            self.2 < i32::MAX,
        ensures
            final(succ)@ == old(succ)@ + self.step_to(map, offset.0 as int, offset.1 as int, max_cost),
    {
        let index = map.coord_to_index(self.0 + offset.0, self.1 + offset.1);
        if !map.blocked[index] {
            let agg_cost = self.2 + 1;
            if agg_cost <= max_cost {
                succ.push((TilePos(self.0 + offset.0, self.1 + offset.1, agg_cost), 1));
            }
        }
        proof {
            assert(final(succ)@ =~= old(succ)@ + self.step_to(map, offset.0 as int, offset.1 as int, max_cost));
        }
    }

    /// The neighbouring tiles that can be entered, each one step dearer.
    pub fn successors(&self, map: &GameMap, max_cost: i32) -> (succ: Vec<(TilePos, i32)>)
        requires
            map.wf(),
            map.in_bounds(self.0 as int, self.1 as int),
            self.2 < i32::MAX,
        ensures
            succ@ == self.neighbours(map, max_cost),
    {
        let (width, height) = (map.size.x, map.size.y);
        let mut succ: Vec<(TilePos, i32)> = Vec::new();
        let ghost s0 = succ@;
        if self.1 < height - 1 {
            self.push_if_under_cost(map, &mut succ, (0, 1), max_cost);
        }
        let ghost s1 = succ@;
        if self.1 > 0 {
            self.push_if_under_cost(map, &mut succ, (0, -1), max_cost);
        }
        let ghost s2 = succ@;
        if self.0 < width - 1 {
            self.push_if_under_cost(map, &mut succ, (1, 0), max_cost);
        }
        let ghost s3 = succ@;
        if self.0 > 0 {
            self.push_if_under_cost(map, &mut succ, (-1, 0), max_cost);
        }
        proof {
            assert(s1 =~= s0 + self.step_to(map, 0, 1, max_cost));
            assert(s2 =~= s1 + self.step_to(map, 0, -1, max_cost));
            assert(s3 =~= s2 + self.step_to(map, 1, 0, max_cost));
            assert(succ@ =~= s3 + self.step_to(map, -1, 0, max_cost));
            assert(succ@ =~= self.neighbours(map, max_cost));
        }
        succ
    }
}

} // verus!
