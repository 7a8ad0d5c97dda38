use vstd::prelude::*;

use crate::geom::Point;
use crate::map::GameMap;
use crate::world::EntityRecord;

verus! {

/// What an entity can see: the tiles in sight, its sight radius, and the
/// position the tiles were computed from.
pub struct FieldOfView {
    pub visible_tiles: Vec<Point>,
    pub range: u32,
    pub previous_position: Point,
}

/// The rays cast from a viewer: for each direction, the offset from the
/// viewer's tile of the tile reached after each unit step. Step `k` lies at
/// most `k + 1` tiles from the viewer on either axis.
pub struct RayTable {
    rays: Vec<Vec<Point>>,
}

impl RayTable {
    #[verifier::type_invariant]
    spec fn inv(&self) -> bool {
        rays_well_formed(self.rays())
    }
}

pub open spec fn abs(v: int) -> int {
    if v < 0 {
        -v
    } else {
        v
    }
}

/// There is at least one ray, every ray starts on the viewer's own tile,
/// and every step stays within reach.
pub open spec fn rays_well_formed(rays: Seq<Seq<Point>>) -> bool {
    &&& rays.len() > 0
    &&& forall|r: int| 0 <= r < rays.len() ==> (#[trigger] rays[r]).len() > 0 && rays[r][0] == (Point { x: 0, y: 0 })
    &&& rays_bounded(rays)
}

/// Every step `k` of every ray stays within `k + 1` tiles of the origin.
pub open spec fn rays_bounded(rays: Seq<Seq<Point>>) -> bool {
    forall|r: int, k: int|
        0 <= r < rays.len() && 0 <= k < rays[r].len() ==> abs((#[trigger] rays[r][k]).x as int)
            <= k + 1 && abs(rays[r][k].y as int) <= k + 1
}

/// The tile reached by stepping `off` from `pos`.
pub open spec fn step_tile(pos: Point, off: Point) -> (int, int) {
    (pos.x + off.x, pos.y + off.y)
}

/// How many steps of `ray` a viewer at `pos` with sight `range` sees, from
/// step `j` on: the ray stops before a tile off the map, just after a
/// blocked tile, and after `range` steps.
pub open spec fn reach_from(map: &GameMap, pos: Point, range: int, ray: Seq<Point>, j: int) -> int
    decreases ray.len() - j,
{
    if j < 0 || j >= ray.len() || j >= range {
        j
    } else if !map.in_bounds(step_tile(pos, ray[j]).0, step_tile(pos, ray[j]).1) {
        j
    } else if map.blocked@[map.index_of(step_tile(pos, ray[j]).0, step_tile(pos, ray[j]).1)] {
        j + 1
    } else {
        reach_from(map, pos, range, ray, j + 1)
    }
}

pub open spec fn reach(map: &GameMap, pos: Point, range: int, ray: Seq<Point>) -> int {
    reach_from(map, pos, range, ray, 0)
}

/// Step `j` of ray `r` is seen.
pub open spec fn step_seen(
    map: &GameMap,
    pos: Point,
    range: int,
    rays: Seq<Seq<Point>>,
    r: int,
    j: int,
) -> bool {
    0 <= r < rays.len() && 0 <= j < reach(map, pos, range, rays[r])
}

/// The tile `p` is seen by some ray step before step `j` of ray `r`.
pub open spec fn seen_before(
    map: &GameMap,
    pos: Point,
    range: int,
    rays: Seq<Seq<Point>>,
    r: int,
    j: int,
    p: Point,
) -> bool {
    exists|r2: int, j2: int|
        #[trigger] step_seen(map, pos, range, rays, r2, j2) && (r2 < r || (r2 == r && j2 < j))
            && step_tile(pos, rays[r2][j2]) == (p.x as int, p.y as int)
}

/// The tile `p` is in sight of a viewer at `pos` with sight `range`.
pub open spec fn in_sight(
    map: &GameMap,
    pos: Point,
    range: int,
    rays: Seq<Seq<Point>>,
    p: Point,
) -> bool {
    seen_before(map, pos, range, rays, rays.len() as int, 0, p)
}

pub proof fn lemma_reach(map: &GameMap, pos: Point, range: int, ray: Seq<Point>, j: int)
    requires
        0 <= j,
    ensures
        j <= reach_from(map, pos, range, ray, j),
        reach_from(map, pos, range, ray, j) == j || (reach_from(map, pos, range, ray, j) <= range
            && reach_from(map, pos, range, ray, j) <= ray.len()),
        forall|k: int|
            j <= k < reach_from(map, pos, range, ray, j) ==> k < ray.len() && k < range
                && map.in_bounds(#[trigger] step_tile(pos, ray[k]).0, step_tile(pos, ray[k]).1),
    decreases ray.len() - j,
{
    if j < ray.len() && j < range && map.in_bounds(step_tile(pos, ray[j]).0, step_tile(pos, ray[j]).1)
        && !map.blocked@[map.index_of(step_tile(pos, ray[j]).0, step_tile(pos, ray[j]).1)] {
        lemma_reach(map, pos, range, ray, j + 1);
    }
}

/// Seeing one more step of a ray adds exactly that step's tile.
pub proof fn lemma_seen_step(
    map: &GameMap,
    pos: Point,
    range: int,
    rays: Seq<Seq<Point>>,
    r: int,
    j: int,
)
    requires
        0 <= r < rays.len(),
        0 <= j < reach(map, pos, range, rays[r]),
    ensures
        forall|p: Point|
            #[trigger] seen_before(map, pos, range, rays, r, j + 1, p) == (seen_before(
                map,
                pos,
                range,
                rays,
                r,
                j,
                p,
            ) || step_tile(pos, rays[r][j]) == (p.x as int, p.y as int)),
{
    assert forall|p: Point|
        #[trigger] seen_before(map, pos, range, rays, r, j + 1, p) == (seen_before(
            map,
            pos,
            range,
            rays,
            r,
            j,
            p,
        ) || step_tile(pos, rays[r][j]) == (p.x as int, p.y as int)) by {
        if seen_before(map, pos, range, rays, r, j + 1, p) {
            let (r2, j2) = choose|r2: int, j2: int|
                #[trigger] step_seen(map, pos, range, rays, r2, j2) && (r2 < r || (r2 == r && j2 < j
                    + 1)) && step_tile(pos, rays[r2][j2]) == (p.x as int, p.y as int);
            if !(r2 == r && j2 == j) {
                assert(step_seen(map, pos, range, rays, r2, j2));
            }
        }
        if seen_before(map, pos, range, rays, r, j, p) {
            let (r2, j2) = choose|r2: int, j2: int|
                #[trigger] step_seen(map, pos, range, rays, r2, j2) && (r2 < r || (r2 == r && j2
                    < j)) && step_tile(pos, rays[r2][j2]) == (p.x as int, p.y as int);
            assert(step_seen(map, pos, range, rays, r2, j2));
        }
        if step_tile(pos, rays[r][j]) == (p.x as int, p.y as int) {
            assert(step_seen(map, pos, range, rays, r, j));
        }
    }
}

/// Once a ray is seen to its end, the next ray starts.
pub proof fn lemma_seen_ray_end(
    map: &GameMap,
    pos: Point,
    range: int,
    rays: Seq<Seq<Point>>,
    r: int,
)
    requires
        0 <= r < rays.len(),
    ensures
        forall|p: Point|
            #[trigger] seen_before(map, pos, range, rays, r + 1, 0, p) == seen_before(
                map,
                pos,
                range,
                rays,
                r,
                reach(map, pos, range, rays[r]),
                p,
            ),
{
    assert forall|p: Point|
        #[trigger] seen_before(map, pos, range, rays, r + 1, 0, p) == seen_before(
            map,
            pos,
            range,
            rays,
            r,
            reach(map, pos, range, rays[r]),
            p,
        ) by {
        if seen_before(map, pos, range, rays, r + 1, 0, p) {
            let (r2, j2) = choose|r2: int, j2: int|
                #[trigger] step_seen(map, pos, range, rays, r2, j2) && (r2 < r + 1 || (r2 == r + 1
                    && j2 < 0)) && step_tile(pos, rays[r2][j2]) == (p.x as int, p.y as int);
            assert(step_seen(map, pos, range, rays, r2, j2));
        }
        if seen_before(map, pos, range, rays, r, reach(map, pos, range, rays[r]), p) {
            let (r2, j2) = choose|r2: int, j2: int|
                #[trigger] step_seen(map, pos, range, rays, r2, j2) && (r2 < r || (r2 == r && j2
                    < reach(map, pos, range, rays[r]))) && step_tile(pos, rays[r2][j2]) == (
                p.x as int,
                p.y as int,
            );
            assert(step_seen(map, pos, range, rays, r2, j2));
        }
    }
}

impl RayTable {
    pub closed spec fn rays(&self) -> Seq<Seq<Point>> {
        Seq::new(self.rays@.len(), |r: int| self.rays@[r]@)
    }

    /// Accepts the rays when there is at least one, each starts on the
    /// viewer's own tile, and every step `k` stays within `k + 1` tiles of
    /// the viewer on both axes.
    pub fn new(rays: Vec<Vec<Point>>) -> (t: Option<RayTable>)
        ensures
            t is Some <==> rays_well_formed(Seq::new(rays@.len(), |r: int| rays@[r]@)),
            t is Some ==> t.unwrap().rays() == Seq::new(rays@.len(), |r: int| rays@[r]@),
    {
        let ghost all = Seq::new(rays@.len(), |r: int| rays@[r]@);
        if rays.len() == 0 {
            return None;
        }
        let mut r: usize = 0;
        while r < rays.len()
            invariant
                r <= rays@.len(),
                all == Seq::new(rays@.len(), |r: int| rays@[r]@),
                rays@.len() > 0,
                forall|r2: int, k: int|
                    0 <= r2 < r && 0 <= k < all[r2].len() ==> abs((#[trigger] all[r2][k]).x as int)
                        <= k + 1 && abs(all[r2][k].y as int) <= k + 1,
                forall|r2: int|
                    0 <= r2 < r ==> (#[trigger] all[r2]).len() > 0 && all[r2][0] == (Point { x: 0, y: 0 }),
            decreases rays@.len() - r,
        {
            let ray = &rays[r];
            if ray.len() == 0 {
                proof {
                    assert(all[r as int].len() == 0);
                }
                return None;
            }
            let first = ray[0];
            if first.x != 0 || first.y != 0 {
                proof {
                    assert(all[r as int][0] == first);
                }
                return None;
            }
            let mut k: usize = 0;
            while k < ray.len()
                invariant
                    r < rays@.len(),
                    ray@ == all[r as int],
                    ray@.len() > 0,
                    ray@[0] == (Point { x: 0, y: 0 }),
                    k <= ray@.len(),
                    all == Seq::new(rays@.len(), |r: int| rays@[r]@),
                    forall|k2: int|
                        0 <= k2 < k ==> abs((#[trigger] all[r as int][k2]).x as int) <= k2 + 1
                            && abs(all[r as int][k2].y as int) <= k2 + 1,
                decreases ray@.len() - k,
            {
                let off = ray[k];
                let limit: i128 = k as i128 + 1;
                let dx: i128 = off.x as i128;
                let dy: i128 = off.y as i128;
                if dx > limit || -dx > limit || dy > limit || -dy > limit {
                    proof {
                        assert(all[r as int][k as int] == off);
                        assert(!(abs(all[r as int][k as int].x as int) <= k + 1 && abs(
                            all[r as int][k as int].y as int,
                        ) <= k + 1));
                    }
                    return None;
                }
                k = k + 1;
            }
            r = r + 1;
        }
        Some(RayTable { rays })
    }
}

/// Whether `v` holds `p`.
fn holds(v: &Vec<Point>, p: Point) -> (b: bool)
    ensures
        b == v@.contains(p),
{
    let mut i: usize = 0;
    while i < v.len()
        invariant
            i <= v@.len(),
            forall|k: int| 0 <= k < i ==> v@[k] != p,
        decreases v@.len() - i,
    {
        if v[i] == p {
            return true;
        }
        i = i + 1;
    }
    false
}

/// The tiles in sight of a viewer at `pos` with sight radius `radius`: along
/// each ray, the first `radius` steps up to and including the first blocked
/// tile, stopping before a step that leaves the map. Each tile appears once.
pub fn calculate_fov(pos: Point, radius: u32, map: &GameMap, table: &RayTable) -> (set: Vec<Point>)
    requires
        map.wf(),
    ensures
        forall|p: Point| set@.contains(p) <==> in_sight(map, pos, radius as int, table.rays(), p),
        set@.no_duplicates(),
        forall|p: Point|
            set@.contains(p) ==> map.in_bounds(p.x as int, p.y as int) && abs(p.x - pos.x)
                <= radius && abs(p.y - pos.y) <= radius,
        radius == 0 ==> set@.len() == 0,
        radius >= 1 && map.in_bounds(pos.x as int, pos.y as int) ==> set@.contains(pos),
{
    proof {
        use_type_invariant(table);
    }
    let ghost rays = table.rays();
    let ghost range = radius as int;
    let mut set: Vec<Point> = Vec::new();
    let mut r: usize = 0;
    while r < table.rays.len()
        invariant
            map.wf(),
            rays == table.rays(),
            range == radius as int,
            r <= rays.len(),
            rays.len() == table.rays@.len(),
            forall|p: Point| set@.contains(p) <==> seen_before(map, pos, range, rays, r as int, 0, p),
            set@.no_duplicates(),
        decreases rays.len() - r,
    {
        let ray = &table.rays[r];
        let ghost reach_r = reach(map, pos, range, rays[r as int]);
        proof {
            assert(ray@ == rays[r as int]);
            lemma_reach(map, pos, range, rays[r as int], 0);
        }
        let mut j: usize = 0;
        while j < ray.len() && j < radius as usize
            invariant_except_break
                reach_from(map, pos, range, ray@, j as int) == reach_r,
            invariant
                map.wf(),
                rays == table.rays(),
                range == radius as int,
                r < rays.len(),
                ray@ == rays[r as int],
                reach_r == reach(map, pos, range, rays[r as int]),
                j <= reach_r,
                forall|p: Point|
                    set@.contains(p) <==> seen_before(map, pos, range, rays, r as int, j as int, p),
                set@.no_duplicates(),
            ensures
                j == reach_r,
                forall|p: Point|
                    set@.contains(p) <==> seen_before(map, pos, range, rays, r as int, j as int, p),
                set@.no_duplicates(),
            decreases ray@.len() - j,
        {
            let off = ray[j];
            let tx: i64 = pos.x as i64 + off.x as i64;
            let ty: i64 = pos.y as i64 + off.y as i64;
            proof {
                assert(step_tile(pos, ray@[j as int]) == (tx as int, ty as int));
            }
            if tx < 0 || ty < 0 || tx >= map.size.x as i64 || ty >= map.size.y as i64 {
                proof {
                    assert(reach_from(map, pos, range, ray@, j as int) == j);
                }
                break;
            }
            let p = Point::new(tx as i32, ty as i32);
            proof {
                lemma_reach(map, pos, range, ray@, j + 1);
                assert(j < reach_r);
                lemma_seen_step(map, pos, range, rays, r as int, j as int);
            }
            let ghost s0 = set@;
            if !holds(&set, p) {
                set.push(p);
                proof {
                    assert(set@[set@.len() - 1] == p);
                }
            }
            proof {
                assert(set@.contains(p));
                assert forall|q: Point|
                    set@.contains(q) <==> seen_before(
                        map,
                        pos,
                        range,
                        rays,
                        r as int,
                        j + 1,
                        q,
                    ) by {
                    if set@.contains(q) && q != p {
                        let i = choose|i: int| 0 <= i < set@.len() && set@[i] == q;
                        assert(i < s0.len());
                        assert(s0[i] == q);
                        assert(s0.contains(q));
                    }
                    if s0.contains(q) {
                        let i = choose|i: int| 0 <= i < s0.len() && s0[i] == q;
                        assert(set@[i] == q);
                    }
                }
            }
            let index = map.coord_to_index(p.x, p.y);
            if map.blocked[index] {
                proof {
                    assert(reach_from(map, pos, range, ray@, j as int) == j + 1);
                }
                j = j + 1;
                break;
            }
            j = j + 1;
        }
        proof {
            lemma_seen_ray_end(map, pos, range, rays, r as int);
        }
        r = r + 1;
    }
    proof {
        assert forall|p: Point| set@.contains(p) implies map.in_bounds(p.x as int, p.y as int) && abs(
            p.x - pos.x,
        ) <= radius && abs(p.y - pos.y) <= radius by {
            let (r2, j2) = choose|r2: int, j2: int|
                #[trigger] step_seen(map, pos, range, rays, r2, j2) && (r2 < rays.len() || (r2
                    == rays.len() && j2 < 0)) && step_tile(pos, rays[r2][j2]) == (
                p.x as int,
                p.y as int,
            );
            lemma_reach(map, pos, range, rays[r2], 0);
            assert(map.in_bounds(step_tile(pos, rays[r2][j2]).0, step_tile(pos, rays[r2][j2]).1));
            assert(abs(rays[r2][j2].x as int) <= j2 + 1);
        }
        if radius == 0 && set@.len() > 0 {
            assert(set@.contains(set@[0]));
            let (r2, j2) = choose|r2: int, j2: int|
                #[trigger] step_seen(map, pos, range, rays, r2, j2) && (r2 < rays.len() || (r2
                    == rays.len() && j2 < 0)) && step_tile(pos, rays[r2][j2]) == (
                set@[0].x as int,
                set@[0].y as int,
            );
            lemma_reach(map, pos, range, rays[r2], 0);
        }
        if radius >= 1 && map.in_bounds(pos.x as int, pos.y as int) {
            assert(rays[0][0] == (Point { x: 0, y: 0 }));
            lemma_reach(map, pos, range, rays[0], 1);
            assert(reach(map, pos, range, rays[0]) >= 1);
            assert(step_seen(map, pos, range, rays, 0, 0));
            assert(seen_before(map, pos, range, rays, rays.len() as int, 0, pos));
        }
    }
    set
}

/// The viewer's tiles, for a viewer at `position`: unchanged when it has
/// not moved since they were computed, otherwise recomputed.
pub open spec fn viewshed_updated(
    map: &GameMap,
    table: &RayTable,
    position: Point,
    before: &FieldOfView,
    after: &FieldOfView,
) -> bool {
    if position == before.previous_position {
        after == before
    } else {
        &&& after.range == before.range
        &&& after.previous_position == position
        &&& after.visible_tiles@.no_duplicates()
        &&& forall|p: Point|
            #[trigger] after.visible_tiles@.contains(p) ==> map.in_bounds(p.x as int, p.y as int)
                && abs(p.x - position.x) <= before.range && abs(p.y - position.y) <= before.range
        &&& forall|p: Point|
            #[trigger] after.visible_tiles@.contains(p) <==> in_sight(
                map,
                position,
                before.range as int,
                table.rays(),
                p,
            )
    }
}

/// Brings one viewer's tiles up to date and says whether they were
/// recomputed (which happens exactly when the viewer has moved).
pub fn update_viewshed(map: &GameMap, position: Point, fov: &mut FieldOfView, table: &RayTable) -> (recomputed: bool)
    requires
        map.wf(),
    ensures
        recomputed == (position != old(fov).previous_position),
        viewshed_updated(map, table, position, old(fov), final(fov)),
{
    if position == fov.previous_position {
        return false;
    }
    let visible_tiles = calculate_fov(position, fov.range, map, table);
    fov.visible_tiles = visible_tiles;
    fov.previous_position = position;
    true
}

/// Every tile of the sequence lies on the map.
pub open spec fn tiles_on_map(map: &GameMap, tiles: Seq<Point>) -> bool {
    forall|k: int| 0 <= k < tiles.len() ==> map.in_bounds((#[trigger] tiles[k]).x as int, tiles[k].y as int)
}

/// Some tile of the sequence has index `i`.
pub open spec fn covers(map: &GameMap, tiles: Seq<Point>, i: int) -> bool {
    exists|k: int| 0 <= k < tiles.len() && map.index_of((#[trigger] tiles[k]).x as int, tiles[k].y as int) == i
}

/// Makes exactly the given tiles visible and reveals them; revealed tiles
/// stay revealed.
pub fn reveal_tiles(map: &mut GameMap, tiles: &Vec<Point>)
    requires
        old(map).wf(),
        tiles_on_map(old(map), tiles@),
    ensures
        final(map).wf(),
        final(map).tiles == old(map).tiles,
        final(map).size == old(map).size,
        final(map).depth == old(map).depth,
        final(map).blocked == old(map).blocked,
        final(map).tile_content == old(map).tile_content,
        forall|i: int|
            0 <= i < old(map).area() ==> #[trigger] final(map).visible_tiles@[i] == covers(
                old(map),
                tiles@,
                i,
            ),
        forall|i: int|
            0 <= i < old(map).area() ==> #[trigger] final(map).revealed_tiles@[i] == (old(map).revealed_tiles@[i] || covers(old(map), tiles@, i)),
{
    map.clear_visible();
    let mut k: usize = 0;
    while k < tiles.len()
        invariant
            map.wf(),
            k <= tiles@.len(),
            tiles_on_map(old(map), tiles@),
            map.tiles == old(map).tiles,
            map.size == old(map).size,
            map.depth == old(map).depth,
            map.blocked == old(map).blocked,
            map.tile_content == old(map).tile_content,
            forall|i: int|
                0 <= i < old(map).area() ==> #[trigger] map.visible_tiles@[i] == covers(
                    old(map),
                    tiles@.take(k as int),
                    i,
                ),
            forall|i: int|
                0 <= i < old(map).area() ==> #[trigger] map.revealed_tiles@[i] == (old(map).revealed_tiles@[i] || covers(old(map), tiles@.take(k as int), i)),
        decreases tiles@.len() - k,
    {
        let t = tiles[k];
        let ghost m_before = *map;
        map.set_visible(t);
        map.set_revealed(t);
        proof {
            let idx = old(map).index_of(t.x as int, t.y as int);
            assert(old(map).in_bounds(tiles@[k as int].x as int, tiles@[k as int].y as int));
            crate::map::lemma_index_in_range(t.x as int, t.y as int, old(map).width(), old(map).height());
            assert(idx == m_before.index_of(t.x as int, t.y as int));
            assert(map.visible_tiles@ == m_before.visible_tiles@.update(idx, true));
            assert(map.revealed_tiles@ == m_before.revealed_tiles@.update(idx, true));
            let prev = tiles@.take(k as int);
            let next = tiles@.take(k + 1);
            assert forall|i: int| 0 <= i < old(map).area() implies covers(old(map), next, i) == (
            covers(old(map), prev, i) || old(map).index_of(t.x as int, t.y as int) == i) by {
                if covers(old(map), next, i) {
                    let k2 = choose|k2: int|
                        0 <= k2 < next.len() && old(map).index_of(
                            (#[trigger] next[k2]).x as int,
                            next[k2].y as int,
                        ) == i;
                    if k2 < k {
                        assert(prev[k2] == next[k2]);
                    }
                }
                if covers(old(map), prev, i) {
                    let k2 = choose|k2: int|
                        0 <= k2 < prev.len() && old(map).index_of(
                            (#[trigger] prev[k2]).x as int,
                            prev[k2].y as int,
                        ) == i;
                    assert(next[k2] == prev[k2]);
                }
                if old(map).index_of(t.x as int, t.y as int) == i {
                    assert(next[k as int] == t);
                }
            }
            assert forall|i: int| 0 <= i < old(map).area() implies #[trigger] map.visible_tiles@[i]
                == covers(old(map), next, i) by {
                assert(covers(old(map), next, i) == (covers(old(map), prev, i) || old(map).index_of(
                    t.x as int,
                    t.y as int,
                ) == i));
                assert(m_before.visible_tiles@[i] == covers(old(map), prev, i));
            }
            assert forall|i: int| 0 <= i < old(map).area() implies #[trigger] map.revealed_tiles@[i]
                == (old(map).revealed_tiles@[i] || covers(old(map), next, i)) by {
                assert(covers(old(map), next, i) == (covers(old(map), prev, i) || old(map).index_of(
                    t.x as int,
                    t.y as int,
                ) == i));
                assert(m_before.revealed_tiles@[i] == (old(map).revealed_tiles@[i] || covers(
                    old(map),
                    prev,
                    i,
                )));
            }
        }
        k = k + 1;
    }
    proof {
        assert(tiles@.take(tiles@.len() as int) =~= tiles@);
    }
}

/// The record has a position and a field of view.
pub open spec fn is_viewer(e: EntityRecord) -> bool {
    e.position is Some && e.fov is Some
}

pub open spec fn viewer_point(e: EntityRecord) -> Point {
    Point { x: e.position.unwrap().x, y: e.position.unwrap().y }
}

/// A viewer that has moved since its tiles were computed.
pub open spec fn moved(e: EntityRecord) -> bool {
    is_viewer(e) && viewer_point(e) != e.fov.unwrap().previous_position
}

pub open spec fn moved_count(es: Seq<EntityRecord>) -> nat
    decreases es.len(),
{
    if es.len() == 0 {
        0
    } else {
        moved_count(es.drop_last()) + if moved(es.last()) {
            1nat
        } else {
            0nat
        }
    }
}

/// The record after its field of view was brought up to date on `map`.
pub open spec fn record_updated(
    map: &GameMap,
    table: &RayTable,
    before: EntityRecord,
    after: EntityRecord,
) -> bool {
    &&& after.entity == before.entity
    &&& after.name == before.name
    &&& after.position == before.position
    &&& after.blocker == before.blocker
    &&& after.priority == before.priority
    &&& after.active_turn == before.active_turn
    &&& after.player == before.player
    &&& after.monster == before.monster
    &&& after.killed == before.killed
    &&& if is_viewer(before) {
        after.fov is Some && viewshed_updated(
            map,
            table,
            viewer_point(before),
            &before.fov.unwrap(),
            &after.fov.unwrap(),
        )
    } else {
        after.fov == before.fov
    }
}

/// Brings every viewer's tiles up to date (skipping viewers that have not
/// moved) and, for each player viewer that moved, makes exactly its tiles
/// visible and reveals them. Returns how many viewers were recomputed.
pub fn vision_system(map: &mut GameMap, entities: &mut Vec<EntityRecord>, table: &RayTable) -> (recomputed: usize)
    requires
        old(map).wf(),
    ensures
        final(map).wf(),
        final(map).tiles == old(map).tiles,
        final(map).size == old(map).size,
        final(map).depth == old(map).depth,
        final(map).blocked == old(map).blocked,
        final(map).tile_content == old(map).tile_content,
        final(entities)@.len() == old(entities)@.len(),
        forall|k: int|
            0 <= k < old(entities)@.len() ==> record_updated(
                old(map),
                table,
                #[trigger] old(entities)@[k],
                final(entities)@[k],
            ),
        recomputed == moved_count(old(entities)@),
        forall|i: int|
            0 <= i < old(map).area() && old(map).revealed_tiles@[i] ==> #[trigger] final(map).revealed_tiles@[i],
        forall|k: int, j: int|
            0 <= k < old(entities)@.len() && moved(#[trigger] old(entities)@[k]) && old(entities)@[k].player is Some && 0 <= j < final(entities)@[k].fov.unwrap().visible_tiles@.len()
                ==> final(map).revealed_tiles@[old(map).index_of(
                (#[trigger] final(entities)@[k].fov.unwrap().visible_tiles@[j]).x as int,
                final(entities)@[k].fov.unwrap().visible_tiles@[j].y as int,
            )],
        (forall|k: int|
            0 <= k < old(entities)@.len() ==> !(moved(#[trigger] old(entities)@[k]) && old(entities)@[k].player is Some)) ==> final(map).visible_tiles == old(map).visible_tiles
            && final(map).revealed_tiles == old(map).revealed_tiles,
{
    let mut recomputed: usize = 0;
    let mut shows: Vec<bool> = Vec::new();
    let mut k: usize = 0;
    while k < entities.len()
        invariant
            map.wf(),
            *map == *old(map),
            k <= entities@.len(),
            entities@.len() == old(entities)@.len(),
            forall|k2: int|
                0 <= k2 < k ==> record_updated(
                    map,
                    table,
                    #[trigger] old(entities)@[k2],
                    entities@[k2],
                ),
            forall|k2: int| k <= k2 < entities@.len() ==> #[trigger] entities@[k2] == old(entities)@[k2],
            recomputed == moved_count(old(entities)@.take(k as int)),
            recomputed <= k,
            shows@.len() == k,
            forall|k2: int|
                0 <= k2 < k ==> #[trigger] shows@[k2] == (moved(old(entities)@[k2]) && old(
                    entities,
                )@[k2].player is Some),
        decreases entities@.len() - k,
    {
        proof {
            assert(old(entities)@.take(k + 1).drop_last() =~= old(entities)@.take(k as int));
        }
        let position = entities[k].position;
        let is_player = entities[k].player.is_some();
        let mut flag = false;
        match position {
            Some(pos) => {
                let slot = entities[k].fov.take();
                match slot {
                    Some(f) => {
                        let mut f = f;
                        let point = Point::new(pos.x, pos.y);
                        let moved_now = update_viewshed(map, point, &mut f, table);
                        entities[k].fov = Some(f);
                        if moved_now {
                            recomputed = recomputed + 1;
                            flag = is_player;
                        }
                    },
                    None => {},
                }
            },
            None => {},
        }
        shows.push(flag);
        k = k + 1;
    }
    proof {
        assert(old(entities)@.take(old(entities)@.len() as int) =~= old(entities)@);
    }
    let ghost mut last: int = -1;
    let mut k: usize = 0;
    while k < entities.len()
        invariant
            map.wf(),
            k <= entities@.len(),
            entities@.len() == old(entities)@.len(),
            shows@.len() == entities@.len(),
            -1 <= last < k,
            last >= 0 ==> shows@[last],
            forall|k3: int| last < k3 < k ==> !#[trigger] shows@[k3],
            last >= 0 ==> forall|i: int|
                0 <= i < old(map).area() ==> #[trigger] map.visible_tiles@[i] == covers(
                    old(map),
                    entities@[last].fov.unwrap().visible_tiles@,
                    i,
                ),
            forall|k2: int|
                0 <= k2 < entities@.len() ==> record_updated(
                    old(map),
                    table,
                    #[trigger] old(entities)@[k2],
                    entities@[k2],
                ),
            forall|k2: int|
                0 <= k2 < entities@.len() ==> #[trigger] shows@[k2] == (moved(old(entities)@[k2])
                    && old(entities)@[k2].player is Some),
            map.tiles == old(map).tiles,
            map.size == old(map).size,
            map.depth == old(map).depth,
            map.blocked == old(map).blocked,
            map.tile_content == old(map).tile_content,
            forall|i: int|
                0 <= i < old(map).area() && old(map).revealed_tiles@[i]
                    ==> #[trigger] map.revealed_tiles@[i],
            forall|k2: int, j: int|
                0 <= k2 < k && shows@[k2] && 0 <= j < entities@[k2].fov.unwrap().visible_tiles@.len()
                    ==> map.revealed_tiles@[old(map).index_of(
                    (#[trigger] entities@[k2].fov.unwrap().visible_tiles@[j]).x as int,
                    entities@[k2].fov.unwrap().visible_tiles@[j].y as int,
                )],
            (forall|k2: int| 0 <= k2 < k ==> !(#[trigger] shows@[k2])) ==> map.visible_tiles
                == old(map).visible_tiles && map.revealed_tiles == old(map).revealed_tiles,
        decreases entities@.len() - k,
    {
        if shows[k] {
            match &entities[k].fov {
                Some(f) => {
                    let ghost m0 = *map;
                    proof {
                        assert(record_updated(old(map), table, old(entities)@[k as int], entities@[k as int]));
                        assert forall|t: int| 0 <= t < f.visible_tiles@.len() implies map.in_bounds(
                            (#[trigger] f.visible_tiles@[t]).x as int,
                            f.visible_tiles@[t].y as int,
                        ) by {
                            assert(f.visible_tiles@.contains(f.visible_tiles@[t]));
                        }
                    }
                    reveal_tiles(map, &f.visible_tiles);
                    proof {
                        last = k as int;
                        assert forall|j: int| 0 <= j < f.visible_tiles@.len() implies map.revealed_tiles@[
                            old(map).index_of(
                                (#[trigger] f.visible_tiles@[j]).x as int,
                                f.visible_tiles@[j].y as int,
                            )] by {
                            let t = f.visible_tiles@[j];
                            assert(f.visible_tiles@.contains(t));
                            crate::map::lemma_index_in_range(t.x as int, t.y as int, old(map).width(), old(map).height());
                            assert(covers(&m0, f.visible_tiles@, m0.index_of(t.x as int, t.y as int)));
                        }
                        assert forall|k2: int, j: int|
                            0 <= k2 < k && shows@[k2] && 0 <= j < entities@[k2].fov.unwrap().visible_tiles@.len()
                                implies map.revealed_tiles@[old(map).index_of(
                                (#[trigger] entities@[k2].fov.unwrap().visible_tiles@[j]).x as int,
                                entities@[k2].fov.unwrap().visible_tiles@[j].y as int,
                            )] by {
                            let t = entities@[k2].fov.unwrap().visible_tiles@[j];
                            assert(record_updated(old(map), table, old(entities)@[k2], entities@[k2]));
                            assert(entities@[k2].fov.unwrap().visible_tiles@.contains(t));
                            crate::map::lemma_index_in_range(t.x as int, t.y as int, old(map).width(), old(map).height());
                        }
                    }
                },
                None => {},
            }
        }
        k = k + 1;
    }
    proof {
        assert forall|k: int|
            0 <= k < old(entities)@.len() && moved(#[trigger] old(entities)@[k]) && old(entities)@[k].player is Some
                && (forall|k2: int|
                k < k2 < old(entities)@.len() ==> !(moved(#[trigger] old(entities)@[k2]) && old(
                    entities,
                )@[k2].player is Some)) implies forall|i: int|
                0 <= i < old(map).area() ==> #[trigger] map.visible_tiles@[i] == covers(
                    old(map),
                    entities@[k].fov.unwrap().visible_tiles@,
                    i,
                ) by {
            assert(shows@[k]);
            if last > k {
                assert(shows@[last]);
                assert(!(moved(old(entities)@[last]) && old(entities)@[last].player is Some));
            }
            assert(last == k);
        }
    }
    recomputed
}

} // verus!
