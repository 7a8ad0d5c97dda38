use vstd::prelude::*;

use crate::component::{ActiveTurn, Entity, Killed, Monster, Name, Player, Position, Priority, TileBlocker};
use crate::fov::FieldOfView;

verus! {

/// One entity and the components it carries; an absent component is `None`.
pub struct EntityRecord {
    pub entity: Entity,
    pub name: Option<Name>,
    pub position: Option<Position>,
    pub blocker: Option<TileBlocker>,
    pub priority: Option<Priority>,
    pub active_turn: Option<ActiveTurn>,
    pub player: Option<Player>,
    pub monster: Option<Monster>,
    pub killed: Option<Killed>,
    pub fov: Option<FieldOfView>,
}

impl EntityRecord {
    /// An entity with no components.
    pub fn new(entity: Entity) -> (r: EntityRecord)
        ensures
            r.entity == entity,
            r.name is None,
            r.position is None,
            r.blocker is None,
            r.priority is None,
            r.active_turn is None,
            r.player is None,
            r.monster is None,
            r.killed is None,
            r.fov is None,
    {
        EntityRecord {
            entity,
            name: None,
            position: None,
            blocker: None,
            priority: None,
            active_turn: None,
            player: None,
            monster: None,
            killed: None,
            fov: None,
        }
    }
}

} // verus!
