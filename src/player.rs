use vstd::prelude::*;
use crate::components::EntityData;
use crate::world::World;
use crate::geometry::Point;
use crate::move_type::{
    AttackTiming, AttackType, attack_fits_at, attack_range_of, attack_timing_of, first_valid_tile, get_attack_timing,
    is_attack_valid,
};
use crate::range_type::range_tiles;

verus! {

/// What a targeting prompt ended with.
#[derive(Clone, Copy, Debug, PartialEq, Eq, Structural)]
pub enum SelectionResult {
    Selected,
    Canceled,
    NoResponse,
}

/// The tile to aim a counter-attack at: only fast cards may answer, and only
/// when they can reach the attacker.
pub fn counter_aim(card: &AttackType, from: Point, target: Point) -> (r: Option<Point>)
    requires
        attack_fits_at(from),
    ensures
        attack_timing_of(*card) == AttackTiming::Slow ==> r is None,
        attack_timing_of(*card) == AttackTiming::Fast ==> r == first_valid_tile(
            *card,
            range_tiles(attack_range_of(*card), from),
            target,
            0,
        ),
{
    if get_attack_timing(card) == AttackTiming::Slow {
        return None;
    }
    is_attack_valid(card, from, target)
}

/// Ends a turn: every right to act is spent and the matchup cards on show are cleared.
pub fn end_turn_cleanup(world: &mut World)
    requires
        old(world).wf(),
    ensures
        final(world).wf(),
        final(world).entities@.len() == old(world).entities@.len(),
        forall|i: int| 0 <= i < old(world).entities@.len() ==> #[trigger] final(world).entities@[i]
            == (EntityData { can_act: None, ..old(world).entities@[i] }),
        final(world).cards@.len() == 0,
        final(world).map == old(world).map,
        final(world).player == old(world).player,
        final(world).intents == old(world).intents,
        final(world).particles == old(world).particles,
{
    let mut i: usize = 0;
    while i < world.entities.len()
        invariant
            world.wf(),
            world.entities@.len() == old(world).entities@.len(),
            i <= world.entities@.len(),
            forall|j: int| 0 <= j < i ==> #[trigger] world.entities@[j] == (EntityData { can_act: None, ..old(world).entities@[j] }),
            forall|j: int| i <= j < world.entities@.len() ==> #[trigger] world.entities@[j] == old(world).entities@[j],
            world.map == old(world).map,
            world.player == old(world).player,
            world.intents == old(world).intents,
            world.particles == old(world).particles,
        decreases world.entities@.len() - i,
    {
        let d = world.entities[i];
        world.entities.set(i, EntityData { can_act: None, ..d });
        i = i + 1;
    }
    world.cards.clear();
}

} // verus!
