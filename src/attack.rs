use vstd::prelude::*;
use crate::geometry::Point;
use crate::components::{Entity, EntityData, Health};
use crate::move_type::{AttackIntent, AttackTrait, attack_fits_at, attack_shape_of, intent_traits, get_attack_shape, get_intent_traits, lemma_small_square_fits};
use crate::range_type::range_fits;
use crate::world::{World, same_frame, resolves, entity_at};
use crate::events::{EventEngine, EngineView, EventView, add_damage_event, add_event, damage_event_view, new_event_view};
use crate::event_type::{EventType, clamp_i32};
use crate::deck::{Deck, drew, lemma_drew_compose, lemma_drew_none};

verus! {

/// The events one trait of an attack queues.
pub open spec fn trait_events(pos: Option<Point>, ent: Entity, intent: AttackIntent, t: AttackTrait) -> Seq<EventView> {
    match t {
        AttackTrait::Knockback { amount } => match pos {
            Some(p) => seq![new_event_view(
                EventType::Push { source_pos: p, amount },
                Some(intent),
                Some(ent),
                attack_shape_of(intent.main),
                intent.loc,
                false,
            )],
            None => Seq::empty(),
        },
        AttackTrait::Damage => seq![crate::events::damage_event_view(intent, Some(ent), true)],
        AttackTrait::Movement => seq![new_event_view(
            EventType::Movement,
            Some(intent),
            Some(ent),
            attack_shape_of(intent.main),
            intent.loc,
            false,
        )],
        _ => Seq::empty(),
    }
}

/// The events the first `n` traits queue, in order.
pub open spec fn traits_events(pos: Option<Point>, ent: Entity, intent: AttackIntent, ts: Seq<AttackTrait>, n: int) -> Seq<EventView>
    decreases n,
{
    if n <= 0 || n > ts.len() {
        Seq::empty()
    } else {
        traits_events(pos, ent, intent, ts, n - 1) + trait_events(pos, ent, intent, ts[n - 1])
    }
}

/// Health after the heals among the first `n` traits, each capped at the maximum.
pub open spec fn healed(h: Health, ts: Seq<AttackTrait>, n: int) -> Health
    decreases n,
{
    if n <= 0 || n > ts.len() {
        h
    } else {
        let prev = healed(h, ts, n - 1);
        match ts[n - 1] {
            AttackTrait::Heal { amount } => {
                let v = prev.current + amount;
                Health { current: clamp_i32(if v < prev.max { v } else { prev.max as int }), ..prev }
            },
            _ => prev,
        }
    }
}

/// Draws `amount` cards, one at a time.
fn draw_cards(deck: &mut Deck, amount: i32)
    ensures
        drew(*old(deck), *final(deck), if amount > 0 { amount as int } else { 0 }),
{
    proof {
        lemma_drew_none(*deck);
    }
    let mut k: i32 = 0;
    while k < amount
        invariant
            0 <= k,
            amount > 0 ==> k <= amount,
            amount <= 0 ==> k == 0,
            drew(*old(deck), *deck, k as int),
        decreases amount - k,
    {
        let ghost before = *deck;
        deck.draw();
        proof {
            lemma_drew_compose(*old(deck), before, *deck, k as int, 1);
        }
        k = k + 1;
    }
}

/// Cards a trait draws.
pub open spec fn draw_amount(t: AttackTrait) -> int {
    match t {
        AttackTrait::Draw { amount } => if amount > 0 { amount as int } else { 0 },
        _ => 0,
    }
}

/// Cards the first `n` traits draw.
pub open spec fn draws_upto(ts: Seq<AttackTrait>, n: int) -> int
    decreases n,
{
    if n <= 0 || n > ts.len() {
        0
    } else {
        draws_upto(ts, n - 1) + draw_amount(ts[n - 1])
    }
}

/// Turns one committed attack into events: a damage event (inviting
/// reactions) for damage, a push from the attacker's tile for knockback, a
/// movement for movement; draws cards for the player and heals the attacker.
pub fn queue_attack(world: &mut World, engine: &mut EventEngine, deck: &mut Deck, ent: Entity, intent: AttackIntent)
    requires
        old(world).wf(),
        resolves(old(world).entities@, ent),
        attack_fits_at(intent.loc),
    ensures
        final(world).wf(),
        same_frame(*old(world), *final(world)),
        final(world).map == old(world).map,
        final(engine)@ == (EngineView {
            stack: old(engine)@.stack + traits_events(
                old(world).entities@[ent.index as int].position,
                ent,
                intent,
                intent_traits(intent),
                intent_traits(intent).len() as int,
            ),
            ..old(engine)@
        }),
        final(world).entities@ == old(world).entities@.update(
            ent.index as int,
            EntityData {
                health: match old(world).entities@[ent.index as int].health {
                    Some(h) => Some(healed(h, intent_traits(intent), intent_traits(intent).len() as int)),
                    None => None,
                },
                ..old(world).entities@[ent.index as int]
            },
        ),
        ent != old(world).player ==> *final(deck) == *old(deck),
        ent == old(world).player ==> drew(
            *old(deck),
            *final(deck),
            draws_upto(intent_traits(intent), intent_traits(intent).len() as int),
        ),
{
    proof {
        lemma_drew_none(*deck);
    }
    let trait_list = get_intent_traits(&intent);
    let pos = world.entities[ent.index].position;
    let shape = get_attack_shape(&intent.main);
    proof {
        lemma_small_square_fits();
    }
    assert(range_fits(shape, intent.loc));
    let ghost d0 = world.entities@[ent.index as int];
    let mut i: usize = 0;
    while i < trait_list.len()
        invariant
            world.wf(),
            same_frame(*old(world), *world),
            world.map == old(world).map,
            d0 == old(world).entities@[ent.index as int],
            pos == d0.position,
            shape == attack_shape_of(intent.main),
            range_fits(shape, intent.loc),
            range_fits(attack_shape_of(intent.main), intent.loc),
            trait_list@ == intent_traits(intent),
            ent.index < old(world).entities@.len(),
            i <= trait_list@.len(),
            engine@ == (EngineView {
                stack: old(engine)@.stack + traits_events(pos, ent, intent, trait_list@, i as int),
                ..old(engine)@
            }),
            world.entities@ == old(world).entities@.update(
                ent.index as int,
                EntityData {
                    health: match d0.health {
                        Some(h) => Some(healed(h, trait_list@, i as int)),
                        None => None,
                    },
                    ..d0
                },
            ),
            ent != old(world).player ==> *deck == *old(deck),
            draws_upto(trait_list@, i as int) >= 0,
            ent == old(world).player ==> drew(*old(deck), *deck, draws_upto(trait_list@, i as int)),
        decreases trait_list@.len() - i,
    {
        let t = trait_list[i];
        let ghost before = engine@.stack;
        let ghost deck_before = *deck;
        match t {
            AttackTrait::Knockback { amount } => {
                if let Some(p) = pos {
                    add_event(engine, &EventType::Push { source_pos: p, amount }, Some(intent), Some(ent), &shape, intent.loc, false);
                }
            },
            AttackTrait::Damage => {
                add_damage_event(engine, &intent, Some(ent), true);
            },
            AttackTrait::Movement => {
                add_event(engine, &EventType::Movement, Some(intent), Some(ent), &shape, intent.loc, false);
            },
            AttackTrait::Draw { amount } => {
                if ent == world.player {
                    draw_cards(deck, amount);
                    proof {
                        lemma_drew_compose(*old(deck), deck_before, *deck, draws_upto(trait_list@, i as int), draw_amount(t));
                    }
                }
            },
            AttackTrait::Heal { amount } => {
                let d = world.entities[ent.index];
                if let Some(h) = d.health {
                    let v = h.current as i64 + amount as i64;
                    let capped = if v < h.max as i64 { v } else { h.max as i64 };
                    let current = if capped < i32::MIN as i64 { i32::MIN } else if capped > i32::MAX as i64 { i32::MAX } else { capped as i32 };
                    world.entities.set(ent.index, EntityData { health: Some(Health { current, ..h }), ..d });
                }
            },
            AttackTrait::Modifier => {},
            AttackTrait::Equipment => {},
        }
        assert(engine@.stack =~= before + trait_events(pos, ent, intent, t));
        proof {
            assert(old(engine)@.stack + traits_events(pos, ent, intent, trait_list@, i + 1) =~= before + trait_events(pos, ent, intent, t));
            assert(world.entities@ =~= old(world).entities@.update(
                ent.index as int,
                EntityData {
                    health: match d0.health {
                        Some(h) => Some(healed(h, trait_list@, i + 1)),
                        None => None,
                    },
                    ..d0
                },
            ));
        }
        i = i + 1;
    }
}

/// A live entity whose committed attack can be laid on the grid.
pub open spec fn queued(d: EntityData) -> bool {
    &&& d.alive
    &&& d.attack_intent is Some
    &&& attack_fits_at(d.attack_intent->0.loc)
}

/// The events the attack committed in slot `i` queues.
pub open spec fn slot_events(ents: Seq<EntityData>, i: int) -> Seq<EventView> {
    if queued(ents[i]) {
        let it = ents[i].attack_intent->0;
        traits_events(ents[i].position, entity_at(ents, i), it, intent_traits(it), intent_traits(it).len() as int)
    } else {
        Seq::empty()
    }
}

/// The events the attacks of the first `n` slots queue, in slot order.
pub open spec fn attack_events_upto(ents: Seq<EntityData>, n: int) -> Seq<EventView>
    decreases n,
{
    if n <= 0 {
        Seq::empty()
    } else {
        attack_events_upto(ents, n - 1) + slot_events(ents, n - 1)
    }
}

/// A slot once its attack has been queued: heals applied, intent spent.
pub open spec fn after_attack(d: EntityData) -> EntityData {
    EntityData {
        attack_intent: None,
        health: if queued(d) && d.health is Some {
            let it = d.attack_intent->0;
            Some(healed(d.health->0, intent_traits(it), intent_traits(it).len() as int))
        } else {
            d.health
        },
        ..d
    }
}

/// Cards the player's attack among the first `n` slots draws.
pub open spec fn player_draws_upto(ents: Seq<EntityData>, player: Entity, n: int) -> int
    decreases n,
{
    if n <= 0 {
        0
    } else {
        let d = ents[n - 1];
        player_draws_upto(ents, player, n - 1) + if queued(d) && entity_at(ents, n - 1) == player {
            let it = d.attack_intent->0;
            draws_upto(intent_traits(it), intent_traits(it).len() as int)
        } else {
            0
        }
    }
}

proof fn lemma_draws_nonneg(ts: Seq<AttackTrait>, n: int)
    ensures
        draws_upto(ts, n) >= 0,
    decreases n,
{
    if n > 0 && n <= ts.len() {
        lemma_draws_nonneg(ts, n - 1);
    }
}

/// Queues the committed attack of every live entity, slot by slot, then
/// clears every committed attack. An attack aimed so close to the edge of the
/// coordinate range that its area cannot be laid is dropped unqueued.
pub fn run_attack_system(world: &mut World, engine: &mut EventEngine, deck: &mut Deck)
    requires
        old(world).wf(),
    ensures
        final(world).wf(),
        same_frame(*old(world), *final(world)),
        final(world).map == old(world).map,
        final(world).entities@ == Seq::new(
            old(world).entities@.len(),
            |i: int| after_attack(old(world).entities@[i]),
        ),
        final(engine)@ == (EngineView {
            stack: old(engine)@.stack + attack_events_upto(old(world).entities@, old(world).entities@.len() as int),
            ..old(engine)@
        }),
        drew(
            *old(deck),
            *final(deck),
            player_draws_upto(old(world).entities@, old(world).player, old(world).entities@.len() as int),
        ),
{
    let ghost ents0 = world.entities@;
    proof {
        lemma_drew_none(*deck);
        assert(old(engine)@.stack + Seq::<EventView>::empty() =~= old(engine)@.stack);
    }
    let mut i: usize = 0;
    while i < world.entities.len()
        invariant
            world.wf(),
            same_frame(*old(world), *world),
            world.map == old(world).map,
            ents0 == old(world).entities@,
            world.entities@.len() == ents0.len(),
            i <= ents0.len(),
            forall|j: int| 0 <= j < i ==> #[trigger] world.entities@[j] == after_attack(ents0[j]),
            forall|j: int| i <= j < ents0.len() ==> #[trigger] world.entities@[j] == ents0[j],
            engine@ == (EngineView { stack: old(engine)@.stack + attack_events_upto(ents0, i as int), ..old(engine)@ }),
            player_draws_upto(ents0, old(world).player, i as int) >= 0,
            drew(*old(deck), *deck, player_draws_upto(ents0, old(world).player, i as int)),
        decreases ents0.len() - i,
    {
        let d = world.entities[i];
        let ghost deck_before = *deck;
        let ghost stack_before = engine@.stack;
        let ghost ents_before = world.entities@;
        let mut done = false;
        if d.alive {
            if let Some(intent) = d.attack_intent {
                let loc = intent.loc;
                if i32::MIN + 4 <= loc.x && loc.x <= i32::MAX - 4 && i32::MIN + 4 <= loc.y && loc.y <= i32::MAX - 4 {
                    let ent = Entity { index: i, generation: d.generation };
                    queue_attack(world, engine, deck, ent, intent);
                    proof {
                        assert(ent == entity_at(ents0, i as int));
                        lemma_draws_nonneg(intent_traits(intent), intent_traits(intent).len() as int);
                        if ent == old(world).player {
                            lemma_drew_compose(
                                *old(deck),
                                deck_before,
                                *deck,
                                player_draws_upto(ents0, old(world).player, i as int),
                                draws_upto(intent_traits(intent), intent_traits(intent).len() as int),
                            );
                        }
                        assert(old(engine)@.stack + attack_events_upto(ents0, i + 1) =~= stack_before + slot_events(ents0, i as int));
                    }
                    done = true;
                }
            }
        }
        if !done {
            proof {
                assert(old(engine)@.stack + attack_events_upto(ents0, i + 1) =~= stack_before);
            }
        }
        let cur = world.entities[i];
        world.entities.set(i, EntityData { attack_intent: None, ..cur });
        proof {
            assert(world.entities@[i as int] == after_attack(ents0[i as int]));
            assert forall|j: int| i < j < ents0.len() implies #[trigger] world.entities@[j] == ents0[j] by {
                assert(ents_before[j] == ents0[j]);
            }
        }
        i = i + 1;
    }
    assert(world.entities@ =~= Seq::new(ents0.len(), |k: int| after_attack(ents0[k])));
}

} // verus!
