use vstd::prelude::*;
use crate::geometry::Point;
use crate::components::{CardRequest, CardView, Entity, ParticleKind, ParticleRequest, cards_view};
use crate::move_type::{AttackIntent, attack_shape_of, intent_power, get_attack_shape, get_intent_power};
use crate::range_type::{RangeType, range_fits, range_tiles, resolve_range_at};
use crate::event_type::{EventType, PARTICLE_HIT_SYMBOL, particle_event};

verus! {

/// A queued request to change the world, its tiles fixed when it was queued.
pub struct Event {
    pub event_type: EventType,
    pub attack_intent: Option<AttackIntent>,
    pub source: Option<Entity>,
    pub target_tiles: Vec<Point>,
    pub invokes_reaction: bool,
}

pub struct EventView {
    pub event_type: EventType,
    pub attack_intent: Option<AttackIntent>,
    pub source: Option<Entity>,
    pub targets: Seq<Point>,
    pub invokes_reaction: bool,
}

impl View for Event {
    type V = EventView;

    open spec fn view(&self) -> EventView {
        EventView {
            event_type: self.event_type,
            attack_intent: self.attack_intent,
            source: self.source,
            targets: self.target_tiles@,
            invokes_reaction: self.invokes_reaction,
        }
    }
}

pub open spec fn stack_view(s: Seq<Event>) -> Seq<EventView> {
    s.map_values(|e: Event| e@)
}

pub open spec fn option_event_view(e: Option<Event>) -> Option<EventView> {
    match e {
        Some(e) => Some(e@),
        None => None,
    }
}

/// The pending events (last on top), the event stashed while a reaction is
/// awaited, and the matchups queued for display.
pub struct EventEngine {
    pub stack: Vec<Event>,
    pub processing: Option<Event>,
    pub card_stack: Vec<CardRequest>,
}

pub struct EngineView {
    pub stack: Seq<EventView>,
    pub processing: Option<EventView>,
    pub card_stack: Seq<CardView>,
}

impl View for EventEngine {
    type V = EngineView;

    open spec fn view(&self) -> EngineView {
        EngineView {
            stack: stack_view(self.stack@),
            processing: option_event_view(self.processing),
            card_stack: cards_view(self.card_stack@),
        }
    }
}

pub proof fn lemma_stack_view_push(s: Seq<Event>, e: Event)
    ensures
        stack_view(s.push(e)) == stack_view(s).push(e@),
{
    assert(stack_view(s.push(e)) =~= stack_view(s).push(e@));
}

pub proof fn lemma_stack_view_pop(s: Seq<Event>)
    requires
        s.len() > 0,
    ensures
        stack_view(s.drop_last()) == stack_view(s).drop_last(),
        stack_view(s).last() == s.last()@,
{
    assert(stack_view(s.drop_last()) =~= stack_view(s).drop_last());
}

impl EventEngine {
    pub fn new() -> (r: EventEngine)
        ensures
            r@.stack.len() == 0,
            r@.processing is None,
            r@.card_stack.len() == 0,
    {
        EventEngine { stack: Vec::new(), processing: None, card_stack: Vec::new() }
    }

    /// Puts an event on top of the stack.
    pub fn push(&mut self, event: Event)
        ensures
            final(self)@ == (EngineView { stack: old(self)@.stack.push(event@), ..old(self)@ }),
    {
        proof {
            lemma_stack_view_push(self.stack@, event);
        }
        self.stack.push(event);
    }

    /// Takes the top event off the stack.
    pub fn pop(&mut self) -> (r: Option<Event>)
        ensures
            old(self)@.stack.len() == 0 ==> r is None && final(self)@ == old(self)@,
            old(self)@.stack.len() > 0 ==> r is Some && r->0@ == old(self)@.stack.last()
                && final(self)@ == (EngineView { stack: old(self)@.stack.drop_last(), ..old(self)@ }),
    {
        proof {
            if self.stack@.len() > 0 {
                lemma_stack_view_pop(self.stack@);
            }
        }
        self.stack.pop()
    }
}

/// An event whose tiles are `shape` laid at `loc`.
pub open spec fn new_event_view(
    et: EventType,
    intent: Option<AttackIntent>,
    source: Option<Entity>,
    range: RangeType,
    loc: Point,
    invokes_reaction: bool,
) -> EventView {
    EventView {
        event_type: et,
        attack_intent: intent,
        source,
        targets: range_tiles(range, loc),
        invokes_reaction,
    }
}

/// Queues an event; its tiles are resolved now, not when it is popped.
pub fn add_event(
    engine: &mut EventEngine,
    event_type: &EventType,
    intent: Option<AttackIntent>,
    source: Option<Entity>,
    range: &RangeType,
    loc: Point,
    invokes_reaction: bool,
)
    requires
        range_fits(*range, loc),
    ensures
        final(engine)@ == (EngineView {
            stack: old(engine)@.stack.push(
                new_event_view(*event_type, intent, source, *range, loc, invokes_reaction),
            ),
            ..old(engine)@
        }),
{
    let event = Event {
        event_type: *event_type,
        attack_intent: intent,
        source,
        target_tiles: resolve_range_at(range, loc),
        invokes_reaction,
    };
    engine.push(event);
}

/// The damage event of an attack: the intent's power over the main move's
/// shape at the aimed tile.
pub open spec fn damage_event_view(intent: AttackIntent, source: Option<Entity>, invokes_reaction: bool) -> EventView {
    new_event_view(
        EventType::Damage { amount: intent_power(intent) as i32 },
        Some(intent),
        source,
        attack_shape_of(intent.main),
        intent.loc,
        invokes_reaction,
    )
}

/// Queues the damage event of an attack.
pub fn add_damage_event(engine: &mut EventEngine, intent: &AttackIntent, source: Option<Entity>, invokes_reaction: bool)
    requires
        range_fits(attack_shape_of(intent.main), intent.loc),
    ensures
        final(engine)@ == (EngineView {
            stack: old(engine)@.stack.push(damage_event_view(*intent, source, invokes_reaction)),
            ..old(engine)@
        }),
{
    let damage_event = EventType::Damage { amount: get_intent_power(intent) };
    let range = get_attack_shape(&intent.main);
    let event = Event {
        event_type: damage_event,
        attack_intent: Some(*intent),
        source,
        target_tiles: resolve_range_at(&range, intent.loc),
        invokes_reaction,
    };
    engine.push(event);
}

/// Queues an untargeted event that shows one particle.
pub fn add_particle_event(engine: &mut EventEngine, position: Point, kind: ParticleKind, lifetime_ms: u32)
    ensures
        final(engine)@ == (EngineView {
            stack: old(engine)@.stack.push(
                particle_event(
                    ParticleRequest { position, kind, symbol: PARTICLE_HIT_SYMBOL, lifetime_ms },
                ),
            ),
            ..old(engine)@
        }),
{
    let event = Event {
        event_type: EventType::ParticleSpawn {
            request: ParticleRequest { position, kind, symbol: PARTICLE_HIT_SYMBOL, lifetime_ms },
        },
        attack_intent: None,
        source: None,
        target_tiles: Vec::new(),
        invokes_reaction: false,
    };
    proof {
        assert(event@.targets =~= Seq::<Point>::empty());
    }
    engine.push(event);
}

} // verus!
