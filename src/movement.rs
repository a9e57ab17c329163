use vstd::prelude::*;
use crate::components::EntityData;
use crate::map::{in_bounds, tile_index};
use crate::world::{World, same_frame};

verus! {

/// The first `n` slots' steps, in slot order: an entity steps onto the tile it
/// means to when both tiles are on the map and the target is not blocked at
/// that moment, carrying its block along; every step intent is then spent.
pub open spec fn moves_upto(w: int, h: int, ents0: Seq<EntityData>, blocked0: Seq<bool>, n: int) -> (Seq<EntityData>, Seq<bool>)
    decreases n,
{
    if n <= 0 {
        (ents0, blocked0)
    } else {
        let prev = moves_upto(w, h, ents0, blocked0, n - 1);
        let d = prev.0[n - 1];
        if d.alive && d.position is Some && d.move_intent is Some && in_bounds(w, h, d.position->0)
            && in_bounds(w, h, d.move_intent->0) && !prev.1[tile_index(w, d.move_intent->0)] {
            let p = d.position->0;
            let t = d.move_intent->0;
            (
                prev.0.update(n - 1, EntityData { position: Some(t), move_intent: None, ..d }),
                prev.1.update(tile_index(w, p), false).update(tile_index(w, t), true),
            )
        } else {
            (prev.0.update(n - 1, EntityData { move_intent: None, ..d }), prev.1)
        }
    }
}

/// Carries out the step every live entity means to take, slot by slot.
pub fn run_movement_system(world: &mut World)
    requires
        old(world).wf(),
    ensures
        final(world).wf(),
        same_frame(*old(world), *final(world)),
        (final(world).entities@, final(world).map.blocked_tiles@) == moves_upto(
            old(world).map.width as int,
            old(world).map.height as int,
            old(world).entities@,
            old(world).map.blocked_tiles@,
            old(world).entities@.len() as int,
        ),
        final(world).map.item_map == old(world).map.item_map,
        final(world).particles == old(world).particles,
        final(world).cards == old(world).cards,
        final(world).intents == old(world).intents,
{
    let ghost ents0 = world.entities@;
    let ghost blocked0 = world.map.blocked_tiles@;
    let mut i: usize = 0;
    while i < world.entities.len()
        invariant
            world.wf(),
            same_frame(*old(world), *world),
            world.map.item_map == old(world).map.item_map,
            world.particles == old(world).particles,
            world.cards == old(world).cards,
            world.intents == old(world).intents,
            ents0 == old(world).entities@,
            blocked0 == old(world).map.blocked_tiles@,
            world.entities@.len() == ents0.len(),
            i <= ents0.len(),
            (world.entities@, world.map.blocked_tiles@) == moves_upto(
                world.map.width as int,
                world.map.height as int,
                ents0,
                blocked0,
                i as int,
            ),
            forall|j: int| i <= j < ents0.len() ==> world.entities@[j] == ents0[j],
        decreases ents0.len() - i,
    {
        let d = world.entities[i];
        let mut stepped = false;
        if d.alive {
            if let (Some(p), Some(t)) = (d.position, d.move_intent) {
                if world.map.in_bounds(p) && world.map.is_open(t) {
                    let prev_index = world.map.point2d_to_index(p);
                    let new_index = world.map.point2d_to_index(t);
                    world.map.blocked_tiles.set(prev_index, false);
                    world.map.blocked_tiles.set(new_index, true);
                    world.entities.set(i, EntityData { position: Some(t), move_intent: None, ..d });
                    stepped = true;
                }
            }
        }
        if !stepped {
            world.entities.set(i, EntityData { move_intent: None, ..d });
        }
        i = i + 1;
    }
}

} // verus!
