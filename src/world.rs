use vstd::prelude::*;
use crate::geometry::Point;
use crate::components::{CardRequest, CardView, Entity, EntityData, IntentData, ParticleRequest, cards_view};
use crate::map::GameMap;

verus! {

/// The entity store and the resources that the combat core reads and writes.
pub struct World {
    pub entities: Vec<EntityData>,
    pub map: GameMap,
    pub player: Entity,
    pub intents: IntentData,
    pub particles: Vec<ParticleRequest>,
    pub cards: Vec<CardRequest>,
}

/// The parts of a world that resolving events may change.
pub struct WorldView {
    pub entities: Seq<EntityData>,
    pub blocked: Seq<bool>,
    pub items: Map<usize, Entity>,
    pub particles: Seq<ParticleRequest>,
    pub cards: Seq<CardView>,
    pub intents: IntentData,
    pub width: int,
    pub height: int,
    pub player: Entity,
}

impl View for World {
    type V = WorldView;

    open spec fn view(&self) -> WorldView {
        WorldView {
            entities: self.entities@,
            blocked: self.map.blocked_tiles@,
            items: self.map.item_map@,
            particles: self.particles@,
            cards: cards_view(self.cards@),
            intents: self.intents,
            width: self.map.width as int,
            height: self.map.height as int,
            player: self.player,
        }
    }
}

/// What resolving events never changes.
pub open spec fn same_frame(w0: World, w1: World) -> bool {
    &&& w1.map.tiles == w0.map.tiles
    &&& w1.map.width == w0.map.width
    &&& w1.map.height == w0.map.height
    &&& w1.map.depth == w0.map.depth
    &&& w1.map.creature_map == w0.map.creature_map
    &&& w1.map.level_exit == w0.map.level_exit
    &&& w1.player == w0.player
}

/// `e` names a live slot of the current generation.
pub open spec fn resolves(ents: Seq<EntityData>, e: Entity) -> bool {
    &&& e.index < ents.len()
    &&& ents[e.index as int].alive
    &&& ents[e.index as int].generation == e.generation
}

/// The reference to slot `i` as it stands.
pub open spec fn entity_at(ents: Seq<EntityData>, i: int) -> Entity {
    Entity { index: i as usize, generation: ents[i].generation }
}

/// A live entity standing on one of the tiles.
pub open spec fn hit(d: EntityData, targets: Seq<Point>) -> bool {
    &&& d.alive
    &&& d.position is Some
    &&& targets.contains(d.position->0)
}

/// The entities among the first `n` slots that stand on one of the tiles, in slot order.
pub open spec fn affected_upto(ents: Seq<EntityData>, targets: Seq<Point>, n: int) -> Seq<Entity>
    decreases n,
{
    if n <= 0 {
        Seq::empty()
    } else {
        let prev = affected_upto(ents, targets, n - 1);
        if hit(ents[n - 1], targets) {
            prev.push(entity_at(ents, n - 1))
        } else {
            prev
        }
    }
}

pub open spec fn affected(ents: Seq<EntityData>, targets: Seq<Point>) -> Seq<Entity> {
    affected_upto(ents, targets, ents.len() as int)
}

/// May react to an event from `source`: holds the capability and is not the source itself.
pub open spec fn can_react_to(ents: Seq<EntityData>, source: Option<Entity>, e: Entity) -> bool {
    &&& resolves(ents, e)
    &&& ents[e.index as int].can_react
    &&& source != Some(e)
}

impl World {
    pub open spec fn wf(&self) -> bool {
        self.map.wf()
    }

    /// An empty store on `map`; `player` names the slot the player will take.
    pub fn new(map: GameMap, player: Entity) -> (r: World)
        ensures
            r.entities@.len() == 0,
            r.map == map,
            r.player == player,
            r.intents == IntentData::new_spec(),
            r.particles@.len() == 0,
            r.cards@.len() == 0,
    {
        World {
            entities: Vec::new(),
            map,
            player,
            intents: IntentData::new(),
            particles: Vec::new(),
            cards: Vec::new(),
        }
    }

    /// Adds a slot holding `data`, live, and returns its reference.
    pub fn spawn(&mut self, data: EntityData) -> (r: Entity)
        ensures
            final(self).entities@ == old(self).entities@.push(EntityData { alive: true, ..data }),
            r == entity_at(final(self).entities@, old(self).entities@.len() as int),
            resolves(final(self).entities@, r),
            final(self).map == old(self).map,
            final(self).player == old(self).player,
            final(self).intents == old(self).intents,
            final(self).particles == old(self).particles,
            final(self).cards == old(self).cards,
    {
        let index = self.entities.len();
        self.entities.push(EntityData { alive: true, ..data });
        Entity { index, generation: data.generation }
    }

    /// Empties a slot; older references to it stop resolving.
    pub fn despawn(&mut self, e: Entity)
        ensures
            resolves(old(self).entities@, e) ==> final(self).entities@ == old(self).entities@.update(
                e.index as int,
                EntityData {
                    alive: false,
                    generation: old(self).entities@[e.index as int].generation.wrapping_add(1),
                    ..crate::components::empty_entity()
                },
            ),
            !resolves(old(self).entities@, e) ==> final(self).entities == old(self).entities,
            final(self).map == old(self).map,
            final(self).player == old(self).player,
            final(self).intents == old(self).intents,
            final(self).particles == old(self).particles,
            final(self).cards == old(self).cards,
    {
        if self.is_live(e) {
            let g = self.entities[e.index].generation;
            let mut d = EntityData::bare();
            d.alive = false;
            d.generation = g.wrapping_add(1);
            self.entities.set(e.index, d);
        }
    }

    pub fn is_live(&self, e: Entity) -> (r: bool)
        ensures
            r == resolves(self.entities@, e),
    {
        e.index < self.entities.len() && self.entities[e.index].alive
            && self.entities[e.index].generation == e.generation
    }

    /// The components of a live entity.
    pub fn get(&self, e: Entity) -> (r: Option<EntityData>)
        ensures
            r == (if resolves(self.entities@, e) {
                Some(self.entities@[e.index as int])
            } else {
                None
            }),
    {
        if self.is_live(e) {
            Some(self.entities[e.index])
        } else {
            None
        }
    }
}

impl IntentData {
    pub open spec fn new_spec() -> IntentData {
        IntentData {
            hidden: true,
            prev_incoming_intent: None,
            prev_outgoing_intent: None,
            rolls: crate::components::zero_rolls(),
        }
    }
}

/// Whether `p` is one of the tiles.
pub fn contains_point(v: &Vec<Point>, p: Point) -> (r: bool)
    ensures
        r == v@.contains(p),
{
    let mut i: usize = 0;
    while i < v.len()
        invariant
            i <= v@.len(),
            forall|j: int| 0 <= j < i ==> v@[j] != p,
        decreases v@.len() - i,
    {
        if v[i] == p {
            return true;
        }
        i = i + 1;
    }
    false
}

/// The live entities whose position is one of the tiles, in slot order; read as
/// positions stand now.
pub fn get_affected_entities(world: &World, targets: &Vec<Point>) -> (r: Vec<Entity>)
    ensures
        r@ == affected(world.entities@, targets@),
{
    let mut affected: Vec<Entity> = Vec::new();
    let mut i: usize = 0;
    while i < world.entities.len()
        invariant
            i <= world.entities@.len(),
            affected@ == affected_upto(world.entities@, targets@, i as int),
        decreases world.entities@.len() - i,
    {
        let d = world.entities[i];
        if d.alive {
            match d.position {
                Some(p) => {
                    if contains_point(targets, p) {
                        affected.push(Entity { index: i, generation: d.generation });
                    }
                },
                None => {},
            }
        }
        i = i + 1;
    }
    affected
}

/// Whether `target` may react to an event from `source`.
pub fn entity_can_react(world: &World, source: Option<Entity>, target: &Entity) -> (r: bool)
    ensures
        r == can_react_to(world.entities@, source, *target),
{
    let can_react = world.is_live(*target) && world.entities[target.index].can_react;
    match source {
        None => can_react,
        Some(source) => {
            if source == *target {
                false
            } else {
                can_react
            }
        },
    }
}

/// How many matchup cards are on show.
pub fn current_active_card_count(world: &World) -> (r: i32)
    requires
        world.cards@.len() <= i32::MAX,
    ensures
        r == world.cards@.len(),
{
    world.cards.len() as i32
}

} // verus!
