use vstd::prelude::*;

use crate::component::Entity;
use crate::map::GameMap;
use crate::world::EntityRecord;

verus! {

/// The record is a blocking entity standing on the tile with index `i` of a
/// map `width` tiles wide.
pub open spec fn blocks_tile(e: EntityRecord, width: int, i: int) -> bool {
    &&& e.blocker is Some
    &&& e.position is Some
    &&& e.position.unwrap().y * width + e.position.unwrap().x == i
}

/// The occupant of tile `i`: the last blocking entity of the sequence that
/// stands on it.
pub open spec fn occupant_of(es: Seq<EntityRecord>, width: int, i: int) -> Option<Entity>
    decreases es.len(),
{
    if es.len() == 0 {
        None
    } else if blocks_tile(es.last(), width, i) {
        Some(es.last().entity)
    } else {
        occupant_of(es.drop_last(), width, i)
    }
}

/// Every blocking entity stands on the map.
pub open spec fn blockers_on_map(map: &GameMap, es: Seq<EntityRecord>) -> bool {
    forall|k: int|
        0 <= k < es.len() && (#[trigger] es[k]).blocker is Some && es[k].position is Some
            ==> map.in_bounds(es[k].position.unwrap().x as int, es[k].position.unwrap().y as int)
}

/// `after` is `before` re-indexed against `es`: walls block, and each tile's
/// occupant is the last blocking entity on it; nothing else changed.
pub open spec fn indexed(before: &GameMap, after: &GameMap, es: Seq<EntityRecord>) -> bool {
    &&& after.wf()
    &&& after.size == before.size
    &&& after.depth == before.depth
    &&& after.tiles@ == before.tiles@
    &&& after.revealed_tiles@ == before.revealed_tiles@
    &&& after.visible_tiles@ == before.visible_tiles@
    &&& after.blocked_matches_tiles()
    &&& forall|i: int|
        0 <= i < after.area() ==> #[trigger] after.tile_content@[i] == occupant_of(
            es,
            after.width(),
            i,
        )
}

/// The same map state, field by field.
pub open spec fn same_map(a: &GameMap, b: &GameMap) -> bool {
    &&& a.size == b.size
    &&& a.depth == b.depth
    &&& a.tiles@ == b.tiles@
    &&& a.revealed_tiles@ == b.revealed_tiles@
    &&& a.visible_tiles@ == b.visible_tiles@
    &&& a.blocked@ == b.blocked@
    &&& a.tile_content@ == b.tile_content@
}

/// Indexing twice with no change to the entities in between leaves the map
/// exactly as the first pass left it.
pub proof fn lemma_index_idempotent(
    m0: &GameMap,
    m1: &GameMap,
    m2: &GameMap,
    es: Seq<EntityRecord>,
)
    requires
        m0.wf(),
        indexed(m0, m1, es),
        indexed(m1, m2, es),
    ensures
        same_map(m1, m2),
{
    assert(m2.blocked@ =~= m1.blocked@) by {
        assert forall|i: int| 0 <= i < m2.blocked@.len() implies m2.blocked@[i] == m1.blocked@[i] by {
            assert(m2.blocked@[i] == (m2.tiles@[i] == crate::map::TileType::Wall));
            assert(m1.blocked@[i] == (m1.tiles@[i] == crate::map::TileType::Wall));
        }
    }
    assert(m2.tile_content@ =~= m1.tile_content@) by {
        assert forall|i: int| 0 <= i < m2.tile_content@.len() implies m2.tile_content@[i]
            == m1.tile_content@[i] by {
            assert(m2.tile_content@[i] == occupant_of(es, m2.width(), i));
            assert(m1.tile_content@[i] == occupant_of(es, m1.width(), i));
        }
    }
}

/// Rebuilds the blocked flags and the occupant index of the map from the
/// tiles and the positioned, blocking entities.
pub fn index_system(map: &mut GameMap, entities: &Vec<EntityRecord>)
    requires
        old(map).wf(),
        blockers_on_map(old(map), entities@),
    ensures
        indexed(old(map), final(map), entities@),
{
    map.refresh_blocked();
    map.refresh_content();
    let mut k: usize = 0;
    while k < entities.len()
        invariant
            map.wf(),
            k <= entities@.len(),
            blockers_on_map(map, entities@),
            map.size == old(map).size,
            map.depth == old(map).depth,
            map.tiles@ == old(map).tiles@,
            map.revealed_tiles@ == old(map).revealed_tiles@,
            map.visible_tiles@ == old(map).visible_tiles@,
            map.blocked_matches_tiles(),
            forall|i: int|
                0 <= i < map.area() ==> #[trigger] map.tile_content@[i] == occupant_of(
                    entities@.take(k as int),
                    map.width(),
                    i,
                ),
        decreases entities@.len() - k,
    {
        proof {
            assert(entities@.take(k + 1).drop_last() =~= entities@.take(k as int));
        }
        let e = &entities[k];
        if e.blocker.is_some() {
            match e.position {
                Some(position) => {
                    let index = map.coord_to_index(position.x, position.y);
                    map.tile_content[index] = Some(e.entity);
                },
                None => {},
            }
        }
        k = k + 1;
    }
    proof {
        assert(entities@.take(entities@.len() as int) =~= entities@);
    }
}

} // verus!
