use vstd::prelude::*;
use rltk::RandomNumberGenerator;
use crate::geometry::Point;
use crate::components::{CardView, Entity, IntentData, IntentRolls, cards_view, zero_rolls};
use crate::move_type::{AttackIntent, AttackType};
use crate::world::{World, WorldView, same_frame, hit, resolves, entity_at, can_react_to, contains_point};
use crate::components::{CanActFlag, CardRequest, EntityData, Schedulable};
use crate::event_type::{clamp_i32, pushed_events, hit_particles, particle_event, hit_particle};
use crate::events::{Event, EventEngine, EventView, EngineView};
use crate::event_type::{DropRolls, EventType, drop_rolls_ok, draw_drop_rolls, resolve, resolve_engine, resolve_view};
use crate::arbiter::{
    ContestRolls, GUARD_ROLL_RANGE, SPEED_ROLL_RANGE, attacker_first, check_interrupt, compare_speed,
    contest_rolls_ok, interrupts,
};
use crate::rng::roll;

verus! {

/// Resolves an event view against a world view.
pub open spec fn resolve_both(w: WorldView, e: EngineView, ev: EventView, r: DropRolls) -> (WorldView, EngineView) {
    (resolve_view(w, ev.event_type, ev.source, ev.targets, r), resolve_engine(e, ev.event_type, ev.targets))
}

/// A contest between the popped attack `ev` and the counter `st` beneath it.
pub open spec fn contest_view(
    w: WorldView,
    e: EngineView,
    ev: EventView,
    st: EventView,
    r: ContestRolls,
    ev_drop: DropRolls,
    st_drop: DropRolls,
) -> (WorldView, EngineView) {
    let atk = ev.attack_intent->0;
    let def = st.attack_intent->0;
    let af = attacker_first(atk, def, r);
    let wa = WorldView {
        intents: IntentData {
            hidden: false,
            rolls: IntentRolls { atk_speed: r.atk_speed, def_speed: r.def_speed, attacker_first: af, ..w.intents.rolls },
            ..w.intents
        },
        ..w
    };
    let first = if af { ev } else { st };
    let second = if af { st } else { ev };
    let fd = if af { ev_drop } else { st_drop };
    let sd = if af { st_drop } else { ev_drop };
    let one = resolve_both(wa, e, first, fd);
    let is_damage = first.event_type is Damage;
    let w2 = if is_damage {
        WorldView {
            intents: IntentData {
                rolls: IntentRolls { def_guard: r.def_guard, atk_power: r.atk_power, ..one.0.intents.rolls },
                ..one.0.intents
            },
            ..one.0
        }
    } else {
        one.0
    };
    if is_damage && interrupts(atk, def, r) {
        (w2, one.1)
    } else {
        resolve_both(w2, one.1, second, sd)
    }
}

/// The dice one call of `process_event` may use.
pub struct EventRolls {
    pub contest: ContestRolls,
    pub event_drop: DropRolls,
    pub stack_drop: DropRolls,
}

pub open spec fn event_rolls_ok(e: EngineView, ev: EventView, r: EventRolls) -> bool {
    &&& contest_rolls_ok(r.contest)
    &&& drop_rolls_ok(ev.event_type, r.event_drop)
    &&& ev.attack_intent is Some && e.stack.len() > 0 ==> drop_rolls_ok(e.stack.last().event_type, r.stack_drop)
}

/// Shows the newest queued matchup, if any.
pub open spec fn show_top_card(w: WorldView, e: EngineView) -> (WorldView, EngineView) {
    if e.card_stack.len() == 0 {
        (w, e)
    } else {
        (
            WorldView { cards: w.cards.push(e.card_stack.last()), ..w },
            EngineView { card_stack: e.card_stack.drop_last(), ..e },
        )
    }
}

/// The event beneath an attack is contested when it carries an attack intent too.
pub open spec fn contests(st: EventView) -> bool {
    st.attack_intent is Some
}

/// The last-contest record cleared: nothing to show.
pub open spec fn without_contest(w: WorldView) -> WorldView {
    WorldView { intents: IntentData { hidden: false, rolls: zero_rolls(), ..w.intents }, ..w }
}

/// What `process_event` does with the event `ev`, given its dice.
pub open spec fn process_event_view(w: WorldView, e: EngineView, ev: EventView, r: EventRolls) -> (WorldView, EngineView) {
    let shown = show_top_card(w, e);
    let w0 = shown.0;
    let e0 = shown.1;
    if ev.attack_intent is None {
        resolve_both(w0, e0, ev, r.event_drop)
    } else if e0.stack.len() == 0 {
        resolve_both(without_contest(w0), e0, ev, r.event_drop)
    } else {
        let st = e0.stack.last();
        if contests(st) {
            contest_view(
                w0,
                EngineView { stack: e0.stack.drop_last(), ..e0 },
                ev,
                st,
                r.contest,
                r.event_drop,
                r.stack_drop,
            )
        } else {
            resolve_both(without_contest(w0), e0, ev, r.event_drop)
        }
    }
}

/// Plays out a contest between the popped attack `event` and the counter
/// `stack_event`: the faster side resolves first (ties to the attacker); a
/// damaging first mover whose power beats the other's guard stuns it, and the
/// second event is dropped unresolved.
pub fn resolve_contest(
    world: &mut World,
    engine: &mut EventEngine,
    event: Event,
    stack_event: Event,
    rolls: ContestRolls,
    event_drop: DropRolls,
    stack_drop: DropRolls,
)
    requires
        old(world).wf(),
        event.attack_intent is Some,
        stack_event.attack_intent is Some,
        contest_rolls_ok(rolls),
    ensures
        final(world).wf(),
        same_frame(*old(world), *final(world)),
        (final(world)@, final(engine)@) == contest_view(
            old(world)@,
            old(engine)@,
            event@,
            stack_event@,
            rolls,
            event_drop,
            stack_drop,
        ),
{
    let atk = event.attack_intent.unwrap();
    let def = stack_event.attack_intent.unwrap();
    let speed_diff = compare_speed(&atk, &def, &rolls);
    world.intents.hidden = false;
    world.intents.rolls.atk_speed = rolls.atk_speed;
    world.intents.rolls.def_speed = rolls.def_speed;
    world.intents.rolls.attacker_first = speed_diff >= 0;
    let ghost w_a = *world;
    let (first, second, fd, sd) = if speed_diff >= 0 {
        (event, stack_event, event_drop, stack_drop)
    } else {
        (stack_event, event, stack_drop, event_drop)
    };
    resolve(world, engine, first.event_type, first.source, &first.target_tiles, fd);
    let is_damage = match first.event_type {
        EventType::Damage { .. } => true,
        _ => false,
    };
    let mut stunned = false;
    if is_damage {
        world.intents.rolls.def_guard = rolls.def_guard;
        world.intents.rolls.atk_power = rolls.atk_power;
        stunned = check_interrupt(&atk, &def, &rolls);
    }
    if !stunned {
        resolve(world, engine, second.event_type, second.source, &second.target_tiles, sd);
    }
}

/// Draws the dice of a contest.
fn draw_contest_rolls(rng: &mut RandomNumberGenerator) -> (r: ContestRolls)
    ensures
        contest_rolls_ok(r),
{
    let atk_speed = roll(rng, 0, SPEED_ROLL_RANGE);
    let def_speed = roll(rng, 0, SPEED_ROLL_RANGE);
    let def_guard = roll(rng, 0, GUARD_ROLL_RANGE);
    let atk_power = roll(rng, 0, GUARD_ROLL_RANGE);
    ContestRolls { atk_speed, def_speed, def_guard, atk_power }
}

/// Resolves a popped event. An attack contests the counter beneath it, if
/// there is one; otherwise it resolves alone.
pub fn process_event(world: &mut World, engine: &mut EventEngine, rng: &mut RandomNumberGenerator, event: Event)
    requires
        old(world).wf(),
    ensures
        final(world).wf(),
        same_frame(*old(world), *final(world)),
        final(engine)@.processing == old(engine)@.processing,
        exists|r: EventRolls| #![auto]
            event_rolls_ok(old(engine)@, event@, r) && (final(world)@, final(engine)@) == process_event_view(
                old(world)@,
                old(engine)@,
                event@,
                r,
            ),
{
    let event_drop = draw_drop_rolls(rng, &event.event_type);
    let ghost mut r = EventRolls {
        contest: ContestRolls { atk_speed: 0, def_speed: 0, def_guard: 0, atk_power: 0 },
        event_drop,
        stack_drop: DropRolls { heal: 0, first: 0, second: 0, third: 0 },
    };
    let top_card = engine.card_stack.pop();
    if let Some(card) = top_card {
        world.cards.push(card);
    }
    proof {
        assert(cards_view(world.cards@) =~= show_top_card(old(world)@, old(engine)@).0.cards);
        assert(engine@.card_stack =~= show_top_card(old(world)@, old(engine)@).1.card_stack);
    }
    let ghost w0 = *world;
    let ghost e0 = engine@;
    match event.attack_intent {
        None => {
            resolve(world, engine, event.event_type, event.source, &event.target_tiles, event_drop);
        },
        Some(_) => {
            let ghost stack0 = engine.stack@;
            let stack_event = engine.stack.pop();
            match stack_event {
                None => {
                    world.intents.hidden = false;
                    world.intents.rolls = IntentRolls {
                        atk_speed: 0,
                        def_speed: 0,
                        def_guard: 0,
                        atk_power: 0,
                        attacker_first: false,
                    };
                    resolve(world, engine, event.event_type, event.source, &event.target_tiles, event_drop);
                },
                Some(stack_event) => {
                    let stack_drop = draw_drop_rolls(rng, &stack_event.event_type);
                    proof {
                        r.stack_drop = stack_drop;
                        crate::events::lemma_stack_view_pop(stack0);
                    }
                    if stack_event.attack_intent.is_none() {
                        engine.stack.push(stack_event);
                        world.intents.hidden = false;
                        world.intents.rolls = IntentRolls {
                            atk_speed: 0,
                            def_speed: 0,
                            def_guard: 0,
                            atk_power: 0,
                            attacker_first: false,
                        };
                        proof {
                            assert(engine.stack@ =~= stack0);
                        }
                        resolve(world, engine, event.event_type, event.source, &event.target_tiles, event_drop);
                    } else {
                        let contest = draw_contest_rolls(rng);
                        proof {
                            r.contest = contest;
                        }
                        resolve_contest(world, engine, event, stack_event, contest, event_drop, stack_drop);
                    }
                },
            }
        },
    }
    assert(event_rolls_ok(old(engine)@, event@, r));
    assert((world@, engine@) == process_event_view(old(world)@, old(engine)@, event@, r));
}

/// What one step of draining the stack reports.
#[derive(Clone, Copy, Debug, PartialEq, Eq, Structural)]
pub enum StepKind {
    /// The stack was empty.
    Idle,
    /// An event was popped and resolved.
    Resolved,
    /// An event was stashed and reaction windows were granted.
    AwaitingReaction,
    /// The stashed event was resolved.
    HitPause,
}

/// Slot `i` may react to `ev`: it stands on a target tile, holds the
/// capability, and is not the event's source.
pub open spec fn eligible(w: WorldView, source: Option<Entity>, targets: Seq<Point>, i: int) -> bool {
    &&& hit(w.entities[i], targets)
    &&& can_react_to(w.entities, source, entity_at(w.entities, i))
}

pub open spec fn has_eligible(w: WorldView, source: Option<Entity>, targets: Seq<Point>) -> bool {
    exists|i: int| 0 <= i < w.entities.len() && eligible(w, source, targets, i)
}

/// A reaction grant: a pending ordinary (non-reaction) turn is refunded, then the reaction
/// window names the source.
pub open spec fn grant_one(d: EntityData, source: Option<Entity>) -> EntityData {
    EntityData {
        schedule: if d.can_act is Some && !d.can_act->0.is_reaction && d.schedule is Some {
            let s = d.schedule->0;
            Some(Schedulable { current: clamp_i32(s.current - s.base), ..s })
        } else {
            d.schedule
        },
        can_act: Some(CanActFlag { is_reaction: true, reaction_target: source }),
        ..d
    }
}

pub open spec fn grant_view(w: WorldView, source: Option<Entity>, targets: Seq<Point>) -> WorldView {
    WorldView {
        entities: Seq::new(
            w.entities.len(),
            |i: int| if eligible(w, source, targets, i) { grant_one(w.entities[i], source) } else { w.entities[i] },
        ),
        ..w
    }
}

/// Sets or clears the "attack in progress" marker of a live source.
pub open spec fn mark_in_progress(w: WorldView, source: Option<Entity>, flag: bool) -> WorldView {
    match source {
        Some(s) => if resolves(w.entities, s) {
            WorldView {
                entities: w.entities.update(
                    s.index as int,
                    EntityData { attack_in_progress: flag, ..w.entities[s.index as int] },
                ),
                ..w
            }
        } else {
            w
        },
        None => w,
    }
}

pub open spec fn card_offset(n: int) -> i32 {
    if n <= i32::MAX { n as i32 } else { i32::MAX }
}

/// An attack that covers the player is queued for display and hides the
/// player's previous intents.
pub open spec fn display_view(
    w: WorldView,
    e: EngineView,
    attack_intent: Option<AttackIntent>,
    source: Option<Entity>,
    targets: Seq<Point>,
) -> (WorldView, EngineView) {
    if attack_intent is Some && resolves(w.entities, w.player) && hit(w.entities[w.player.index as int], targets) {
        let intent = attack_intent->0;
        (
            WorldView {
                intents: IntentData {
                    hidden: true,
                    prev_incoming_intent: Some(intent),
                    prev_outgoing_intent: None,
                    ..w.intents
                },
                ..w
            },
            EngineView {
                card_stack: e.card_stack.push(
                    CardView {
                        attack_intent: intent,
                        source,
                        offset: card_offset(w.cards.len() as int),
                        affected: targets,
                    },
                ),
                ..e
            },
        )
    } else {
        (w, e)
    }
}

/// The state just before the event of a step resolves, the event (if one
/// resolves), and what the step reports.
pub open spec fn step_pre(w: WorldView, e: EngineView) -> (WorldView, EngineView, Option<EventView>, StepKind) {
    match e.processing {
        Some(ev) => (
            mark_in_progress(w, ev.source, false),
            EngineView { processing: None, ..e },
            Some(ev),
            StepKind::HitPause,
        ),
        None => if e.stack.len() == 0 {
            (w, e, None, StepKind::Idle)
        } else {
            let ev = e.stack.last();
            let e1 = EngineView { stack: e.stack.drop_last(), ..e };
            if ev.targets.len() == 0 {
                (w, e1, Some(ev), StepKind::Resolved)
            } else {
                let shown = display_view(w, e1, ev.attack_intent, ev.source, ev.targets);
                if ev.invokes_reaction && has_eligible(shown.0, ev.source, ev.targets) {
                    (
                        mark_in_progress(grant_view(shown.0, ev.source, ev.targets), ev.source, true),
                        EngineView { processing: Some(ev), ..shown.1 },
                        None,
                        StepKind::AwaitingReaction,
                    )
                } else {
                    (shown.0, shown.1, Some(ev), StepKind::Resolved)
                }
            }
        },
    }
}

/// One step resolves as `step_pre` says, with dice `r` for the event it resolves.
pub open spec fn step_result(w: WorldView, e: EngineView, w1: WorldView, e1: EngineView, r: EventRolls) -> bool {
    let pre = step_pre(w, e);
    match pre.2 {
        None => w1 == pre.0 && e1 == pre.1,
        Some(ev) => event_rolls_ok(pre.1, ev, r) && (w1, e1) == process_event_view(pre.0, pre.1, ev, r),
    }
}

pub open spec fn event_weight(ev: EventView) -> nat {
    1 + pushed_events(ev.event_type, ev.targets).len()
}

/// Each event counts once, plus once for each event its resolution pushes.
pub open spec fn stack_weight(s: Seq<EventView>) -> nat
    decreases s.len(),
{
    if s.len() == 0 {
        0
    } else {
        stack_weight(s.drop_last()) + event_weight(s.last())
    }
}

proof fn lemma_weight_concat(a: Seq<EventView>, b: Seq<EventView>)
    ensures
        stack_weight(a + b) == stack_weight(a) + stack_weight(b),
    decreases b.len(),
{
    if b.len() > 0 {
        lemma_weight_concat(a, b.drop_last());
        assert((a + b).drop_last() =~= a + b.drop_last());
    } else {
        assert(a + b =~= a);
    }
}

proof fn lemma_weight_particles(t: Seq<Point>)
    ensures
        stack_weight(hit_particles(t)) == t.len(),
    decreases t.len(),
{
    if t.len() > 0 {
        lemma_weight_particles(t.drop_last());
        assert(hit_particles(t).drop_last() =~= hit_particles(t.drop_last()));
        assert(pushed_events(particle_event(hit_particle(t.last())).event_type, Seq::empty()).len() == 0);
    }
}

proof fn lemma_weight_resolve(w: WorldView, e: EngineView, ev: EventView, d: DropRolls)
    ensures
        stack_weight(resolve_both(w, e, ev, d).1.stack) == stack_weight(e.stack) + event_weight(ev) - 1,
{
    lemma_weight_concat(e.stack, pushed_events(ev.event_type, ev.targets));
    lemma_weight_particles(ev.targets);
}

/// Resolving a popped event never grows the stack's weight past what it had with the event on it.
proof fn lemma_weight_process_event(w: WorldView, e: EngineView, ev: EventView, r: EventRolls)
    ensures
        stack_weight(process_event_view(w, e, ev, r).1.stack) <= stack_weight(e.stack) + event_weight(ev) - 1,
{
    let shown = show_top_card(w, e);
    let w0 = shown.0;
    let e0 = shown.1;
    assert(e0.stack == e.stack);
    if ev.attack_intent is None {
        lemma_weight_resolve(w0, e0, ev, r.event_drop);
    } else if e0.stack.len() == 0 {
        let w1 = WorldView { intents: IntentData { hidden: false, rolls: zero_rolls(), ..w0.intents }, ..w0 };
        lemma_weight_resolve(w1, e0, ev, r.event_drop);
    } else {
        let st = e0.stack.last();
        if contests(st) {
            let e1 = EngineView { stack: e0.stack.drop_last(), ..e0 };
            let atk = ev.attack_intent->0;
            let def = st.attack_intent->0;
            let af = attacker_first(atk, def, r.contest);
            let wa = WorldView {
                intents: IntentData {
                    hidden: false,
                    rolls: IntentRolls {
                        atk_speed: r.contest.atk_speed,
                        def_speed: r.contest.def_speed,
                        attacker_first: af,
                        ..w0.intents.rolls
                    },
                    ..w0.intents
                },
                ..w0
            };
            let first = if af { ev } else { st };
            let second = if af { st } else { ev };
            let fd = if af { r.event_drop } else { r.stack_drop };
            let sd = if af { r.stack_drop } else { r.event_drop };
            let one = resolve_both(wa, e1, first, fd);
            lemma_weight_resolve(wa, e1, first, fd);
            let is_damage = first.event_type is Damage;
            let w2 = if is_damage {
                WorldView {
                    intents: IntentData {
                        rolls: IntentRolls { def_guard: r.contest.def_guard, atk_power: r.contest.atk_power, ..one.0.intents.rolls },
                        ..one.0.intents
                    },
                    ..one.0
                }
            } else {
                one.0
            };
            lemma_weight_resolve(w2, one.1, second, sd);
            assert(stack_weight(e0.stack) == stack_weight(e1.stack) + event_weight(st));
        } else {
            lemma_weight_resolve(w0, e0, ev, r.event_drop);
        }
    }
}

fn copy_points(v: &Vec<Point>) -> (r: Vec<Point>)
    ensures
        r@ == v@,
{
    let mut r: Vec<Point> = Vec::new();
    let mut i: usize = 0;
    while i < v.len()
        invariant
            i <= v@.len(),
            r@ =~= v@.take(i as int),
        decreases v@.len() - i,
    {
        r.push(v[i]);
        i = i + 1;
    }
    assert(v@.take(v@.len() as int) =~= v@);
    r
}

/// Queues an attack on the player for display and hides the player's previous intents.
fn add_card_to_stack(
    world: &mut World,
    engine: &mut EventEngine,
    intent: AttackIntent,
    source: Option<Entity>,
    hit_range: &Vec<Point>,
)
    requires
        old(world).wf(),
    ensures
        final(world).wf(),
        same_frame(*old(world), *final(world)),
        (final(world)@, final(engine)@) == display_view(old(world)@, old(engine)@, Some(intent), source, hit_range@),
{
    let player = world.player;
    if !world.is_live(player) {
        return;
    }
    let d = world.entities[player.index];
    let player_hit = match d.position {
        Some(p) => contains_point(hit_range, p),
        None => false,
    };
    if player_hit {
        let active_count: i32 = if world.cards.len() <= i32::MAX as usize { world.cards.len() as i32 } else { i32::MAX };
        let affected = copy_points(hit_range);
        let card = CardRequest { attack_intent: intent, source, offset: active_count, affected };
        engine.card_stack.push(card);
        world.intents.hidden = true;
        world.intents.prev_incoming_intent = Some(intent);
        world.intents.prev_outgoing_intent = None;
        proof {
            assert(cards_view(engine.card_stack@) =~= cards_view(old(engine).card_stack@).push(card@));
        }
    }
}

fn set_in_progress(world: &mut World, source: Option<Entity>, flag: bool)
    requires
        old(world).wf(),
    ensures
        final(world).wf(),
        same_frame(*old(world), *final(world)),
        final(world)@ == mark_in_progress(old(world)@, source, flag),
{
    if let Some(s) = source {
        if world.is_live(s) {
            let mut d = world.entities[s.index];
            d.attack_in_progress = flag;
            world.entities.set(s.index, d);
        }
    }
}

fn eligible_at(world: &World, source: Option<Entity>, targets: &Vec<Point>, i: usize) -> (r: bool)
    requires
        i < world.entities@.len(),
    ensures
        r == eligible(world@, source, targets@, i as int),
{
    let d = world.entities[i];
    if !d.alive || !d.can_react {
        return false;
    }
    let on_target = match d.position {
        Some(p) => contains_point(targets, p),
        None => false,
    };
    let e = Entity { index: i, generation: d.generation };
    let is_source = match source {
        Some(s) => s == e,
        None => false,
    };
    on_target && !is_source
}

fn any_eligible(world: &World, source: Option<Entity>, targets: &Vec<Point>) -> (r: bool)
    ensures
        r == has_eligible(world@, source, targets@),
{
    let mut i: usize = 0;
    while i < world.entities.len()
        invariant
            i <= world.entities@.len(),
            forall|j: int| 0 <= j < i ==> !eligible(world@, source, targets@, j),
        decreases world.entities@.len() - i,
    {
        if eligible_at(world, source, targets, i) {
            return true;
        }
        assert(!eligible(world@, source, targets@, i as int));
        i = i + 1;
    }
    false
}

/// Opens a reaction window for every eligible entity, refunding a pending
/// ordinary turn.
fn grant_reactions(world: &mut World, source: Option<Entity>, targets: &Vec<Point>)
    requires
        old(world).wf(),
    ensures
        final(world).wf(),
        same_frame(*old(world), *final(world)),
        final(world)@ == grant_view(old(world)@, source, targets@),
{
    let ghost w0 = world@;
    let mut i: usize = 0;
    while i < world.entities.len()
        invariant
            world.wf(),
            same_frame(*old(world), *world),
            world.map == old(world).map,
            world.particles == old(world).particles,
            world.cards == old(world).cards,
            world.intents == old(world).intents,
            w0 == old(world)@,
            i <= w0.entities.len(),
            world.entities@.len() == w0.entities.len(),
            forall|j: int| 0 <= j < i ==> world.entities@[j] == (if eligible(w0, source, targets@, j) {
                grant_one(w0.entities[j], source)
            } else {
                w0.entities[j]
            }),
            forall|j: int| i <= j < w0.entities.len() ==> world.entities@[j] == w0.entities[j],
        decreases w0.entities.len() - i,
    {
        proof {
            assert(world@.entities[i as int] == w0.entities[i as int]);
            assert(eligible(world@, source, targets@, i as int) == eligible(w0, source, targets@, i as int));
        }
        if eligible_at(world, source, targets, i) {
            let d = world.entities[i];
            let schedule = match (d.can_act, d.schedule) {
                (Some(flag), Some(s)) if !flag.is_reaction => {
                    let v = s.current as i64 - s.base as i64;
                    let current = if v < i32::MIN as i64 {
                        i32::MIN
                    } else if v > i32::MAX as i64 {
                        i32::MAX
                    } else {
                        v as i32
                    };
                    Some(Schedulable { current, ..s })
                },
                _ => d.schedule,
            };
            world.entities.set(
                i,
                EntityData { schedule, can_act: Some(CanActFlag { is_reaction: true, reaction_target: source }), ..d },
            );
        }
        i = i + 1;
    }
    assert(world@.entities =~= grant_view(w0, source, targets@).entities);
}

/// What draining the stack tells the caller.
#[derive(Clone, Copy, Debug, PartialEq, Eq, Structural)]
pub enum RunState {
    AwaitingInput,
    Targetting { attack_type: AttackType, ignore_targetting: bool },
    ViewEnemy { index: u32 },
    ViewCard,
    Running,
    HitPause { remaining_time_ms: u32 },
    GenerateMap,
    Dead,
}

/// How long the pause after a stashed event resolves lasts.
pub const HIT_PAUSE_MS: u32 = 600;

/// One step of draining: resumes the stashed event if there is one, else pops
/// the top event and either resolves it or, when it invites reactions and
/// someone may react, stashes it and opens their reaction windows.
pub fn process_next(world: &mut World, engine: &mut EventEngine, rng: &mut RandomNumberGenerator) -> (r: StepKind)
    requires
        old(world).wf(),
    ensures
        final(world).wf(),
        same_frame(*old(world), *final(world)),
        r == step_pre(old(world)@, old(engine)@).3,
        exists|rr: EventRolls| step_result(old(world)@, old(engine)@, final(world)@, final(engine)@, rr),
        r == StepKind::Resolved ==> stack_weight(final(engine)@.stack) < stack_weight(old(engine)@.stack),
        r == StepKind::AwaitingReaction <==> final(engine)@.processing is Some,
        r == StepKind::Idle ==> final(engine)@.stack.len() == 0,
        old(engine)@.processing is None ==> r != StepKind::HitPause,
{
    let ghost w0 = world@;
    let ghost e0 = engine@;
    let ghost pre = step_pre(w0, e0);
    let ghost zero = EventRolls {
        contest: ContestRolls { atk_speed: 0, def_speed: 0, def_guard: 0, atk_power: 0 },
        event_drop: DropRolls { heal: 0, first: 0, second: 0, third: 0 },
        stack_drop: DropRolls { heal: 0, first: 0, second: 0, third: 0 },
    };
    let stashed = engine.processing.take();
    if let Some(event) = stashed {
        set_in_progress(world, event.source, false);
        assert(world@ == pre.0 && engine@ == pre.1);
        process_event(world, engine, rng, event);
        let ghost rr = choose|rr: EventRolls| #![auto] event_rolls_ok(pre.1, event@, rr) && (world@, engine@) == process_event_view(pre.0, pre.1, event@, rr);
        assert(step_result(w0, e0, world@, engine@, rr));
        return StepKind::HitPause;
    }
    let popped = engine.pop();
    match popped {
        None => {
            assert(step_result(w0, e0, world@, engine@, zero));
            StepKind::Idle
        },
        Some(event) => {
            proof {
                assert(stack_weight(e0.stack) == stack_weight(e0.stack.drop_last()) + event_weight(event@));
            }
            if event.target_tiles.len() == 0 {
                process_event(world, engine, rng, event);
                let ghost rr = choose|rr: EventRolls| #![auto] event_rolls_ok(pre.1, event@, rr) && (world@, engine@) == process_event_view(pre.0, pre.1, event@, rr);
                proof {
                    lemma_weight_process_event(pre.0, pre.1, event@, rr);
                }
                assert(step_result(w0, e0, world@, engine@, rr));
                return StepKind::Resolved;
            }
            if let Some(intent) = event.attack_intent {
                add_card_to_stack(world, engine, intent, event.source, &event.target_tiles);
            }
            let ghost shown = display_view(w0, EngineView { stack: e0.stack.drop_last(), ..e0 }, event@.attack_intent, event@.source, event@.targets);
            assert(world@ == shown.0 && engine@ == shown.1);
            if event.invokes_reaction && any_eligible(world, event.source, &event.target_tiles) {
                grant_reactions(world, event.source, &event.target_tiles);
                set_in_progress(world, event.source, true);
                engine.processing = Some(event);
                assert(step_result(w0, e0, world@, engine@, zero));
                StepKind::AwaitingReaction
            } else {
                process_event(world, engine, rng, event);
                let ghost rr = choose|rr: EventRolls| #![auto] event_rolls_ok(pre.1, event@, rr) && (world@, engine@) == process_event_view(pre.0, pre.1, event@, rr);
                proof {
                    lemma_weight_process_event(pre.0, pre.1, event@, rr);
                }
                assert(step_result(w0, e0, world@, engine@, rr));
                StepKind::Resolved
            }
        },
    }
}

/// `ws`/`es` are the states of a drain and `rs` the dice of its steps: each
/// step from state `k` to state `k + 1` resolves a popped event.
pub open spec fn resolved_chain(ws: Seq<WorldView>, es: Seq<EngineView>, rs: Seq<EventRolls>) -> bool {
    &&& ws.len() >= 1
    &&& es.len() == ws.len()
    &&& rs.len() + 1 == ws.len()
    &&& forall|k: int| 0 <= k < rs.len() ==> {
        &&& (#[trigger] step_pre(ws[k], es[k])).3 == StepKind::Resolved
        &&& step_result(ws[k], es[k], ws[k + 1], es[k + 1], rs[k])
    }
}

/// A drain from `(w0, e0)` to `(w1, e1)`: a run of resolving steps, then one
/// last step of kind `kind` with dice `last`.
pub open spec fn drain_witness(
    w0: WorldView,
    e0: EngineView,
    w1: WorldView,
    e1: EngineView,
    kind: StepKind,
    ws: Seq<WorldView>,
    es: Seq<EngineView>,
    rs: Seq<EventRolls>,
    last: EventRolls,
) -> bool {
    &&& resolved_chain(ws, es, rs)
    &&& ws[0] == w0
    &&& es[0] == e0
    &&& step_pre(ws.last(), es.last()).3 == kind
    &&& step_result(ws.last(), es.last(), w1, e1, last)
}

/// Stepping from `(w0, e0)` leads to `(w1, e1)`: every step before the last
/// resolves a popped event, and the last one is of kind `kind`.
pub open spec fn drains_to(w0: WorldView, e0: EngineView, w1: WorldView, e1: EngineView, kind: StepKind) -> bool {
    exists|ws: Seq<WorldView>, es: Seq<EngineView>, rs: Seq<EventRolls>, last: EventRolls|
        #[trigger] drain_witness(w0, e0, w1, e1, kind, ws, es, rs, last)
}

/// Drains the stack. A stashed event (a reaction was just answered) is
/// resolved alone and a hit pause is asked for. Otherwise events are popped
/// and resolved, one step at a time as `process_next` does, until the stack is
/// empty (`Running`) or one opens reaction windows (`AwaitingInput`, with the
/// event stashed).
pub fn process_stack(world: &mut World, engine: &mut EventEngine, rng: &mut RandomNumberGenerator) -> (r: RunState)
    requires
        old(world).wf(),
    ensures
        final(world).wf(),
        same_frame(*old(world), *final(world)),
        old(engine)@.processing is Some ==> r == (RunState::HitPause { remaining_time_ms: HIT_PAUSE_MS })
            && final(engine)@.processing is None
            && exists|rr: EventRolls| step_result(old(world)@, old(engine)@, final(world)@, final(engine)@, rr),
        old(engine)@.processing is None ==> (r == RunState::Running && final(engine)@.stack.len() == 0
            && final(engine)@.processing is None
            && drains_to(old(world)@, old(engine)@, final(world)@, final(engine)@, StepKind::Idle))
            || (r == RunState::AwaitingInput && final(engine)@.processing is Some
            && drains_to(old(world)@, old(engine)@, final(world)@, final(engine)@, StepKind::AwaitingReaction)),
{
    if engine.processing.is_some() {
        process_next(world, engine, rng);
        return RunState::HitPause { remaining_time_ms: HIT_PAUSE_MS };
    }
    let ghost mut ws: Seq<WorldView> = seq![world@];
    let ghost mut es: Seq<EngineView> = seq![engine@];
    let ghost mut rs: Seq<EventRolls> = Seq::empty();
    loop
        invariant
            world.wf(),
            same_frame(*old(world), *world),
            old(engine)@.processing is None,
            engine@.processing is None,
            resolved_chain(ws, es, rs),
            ws[0] == old(world)@,
            es[0] == old(engine)@,
            ws.last() == world@,
            es.last() == engine@,
        decreases stack_weight(engine@.stack),
    {
        let ghost w_before = world@;
        let ghost e_before = engine@;
        let step = process_next(world, engine, rng);
        let ghost rr = choose|rr: EventRolls| step_result(w_before, e_before, world@, engine@, rr);
        match step {
            StepKind::Idle => {
                assert(drain_witness(old(world)@, old(engine)@, world@, engine@, StepKind::Idle, ws, es, rs, rr));
                return RunState::Running;
            },
            StepKind::AwaitingReaction => {
                assert(drain_witness(
                    old(world)@,
                    old(engine)@,
                    world@,
                    engine@,
                    StepKind::AwaitingReaction,
                    ws,
                    es,
                    rs,
                    rr,
                ));
                return RunState::AwaitingInput;
            },
            _ => {
                proof {
                    let ws2 = ws.push(world@);
                    let es2 = es.push(engine@);
                    let rs2 = rs.push(rr);
                    assert forall|k: int| 0 <= k < rs2.len() implies {
                        &&& (#[trigger] step_pre(ws2[k], es2[k])).3 == StepKind::Resolved
                        &&& step_result(ws2[k], es2[k], ws2[k + 1], es2[k + 1], rs2[k])
                    } by {
                        if k < rs.len() {
                            assert(ws2[k] == ws[k] && es2[k] == es[k] && ws2[k + 1] == ws[k + 1] && es2[k + 1] == es[k + 1]);
                            assert(rs2[k] == rs[k]);
                        }
                    }
                    ws = ws2;
                    es = es2;
                    rs = rs2;
                }
            },
        }
    }
}

/// One step of the visual-only drain: the top event is a particle event and
/// is popped and resolved with dice `r`.
pub open spec fn particle_link(w: WorldView, e: EngineView, w1: WorldView, e1: EngineView, r: EventRolls) -> bool {
    &&& e.stack.len() > 0
    &&& e.stack.last().event_type is ParticleSpawn
    &&& event_rolls_ok(EngineView { stack: e.stack.drop_last(), ..e }, e.stack.last(), r)
    &&& (w1, e1) == process_event_view(w, EngineView { stack: e.stack.drop_last(), ..e }, e.stack.last(), r)
}

pub open spec fn particle_chain(ws: Seq<WorldView>, es: Seq<EngineView>, rs: Seq<EventRolls>) -> bool {
    &&& ws.len() >= 1
    &&& es.len() == ws.len()
    &&& rs.len() + 1 == ws.len()
    &&& forall|k: int| 0 <= k < rs.len() ==> #[trigger] particle_link(ws[k], es[k], ws[k + 1], es[k + 1], rs[k])
}

/// The particle events popped from `(w0, e0)` were resolved one by one, ending in `(w1, e1)`.
pub open spec fn visual_witness(
    w0: WorldView,
    e0: EngineView,
    w1: WorldView,
    e1: EngineView,
    ws: Seq<WorldView>,
    es: Seq<EngineView>,
    rs: Seq<EventRolls>,
) -> bool {
    &&& particle_chain(ws, es, rs)
    &&& ws[0] == w0
    &&& es[0] == e0
    &&& ws.last() == w1
    &&& es.last() == e1
}

/// Resolves the particle events on top of the stack and stops at the first
/// other event, which stays on the stack; true when the stack ran empty.
pub fn process_stack_visual_only(world: &mut World, engine: &mut EventEngine, rng: &mut RandomNumberGenerator) -> (r: bool)
    requires
        old(world).wf(),
    ensures
        final(world).wf(),
        same_frame(*old(world), *final(world)),
        final(engine)@.processing == old(engine)@.processing,
        exists|ws: Seq<WorldView>, es: Seq<EngineView>, rs: Seq<EventRolls>|
            #[trigger] visual_witness(old(world)@, old(engine)@, final(world)@, final(engine)@, ws, es, rs),
        r ==> final(engine)@.stack.len() == 0,
        !r ==> final(engine)@.stack.len() > 0 && !(final(engine)@.stack.last().event_type is ParticleSpawn),
{
    let ghost mut ws: Seq<WorldView> = seq![world@];
    let ghost mut es: Seq<EngineView> = seq![engine@];
    let ghost mut rs: Seq<EventRolls> = Seq::empty();
    loop
        invariant
            world.wf(),
            same_frame(*old(world), *world),
            engine@.processing == old(engine)@.processing,
            visual_witness(old(world)@, old(engine)@, world@, engine@, ws, es, rs),
        decreases stack_weight(engine@.stack),
    {
        let ghost s0 = engine@.stack;
        let ghost w0 = world@;
        let ghost e0 = engine@;
        let popped = engine.pop();
        match popped {
            None => {
                assert(visual_witness(old(world)@, old(engine)@, world@, engine@, ws, es, rs));
                return true;
            },
            Some(event) => {
                match event.event_type {
                    EventType::ParticleSpawn { .. } => {
                        let ghost e1 = engine@;
                        process_event(world, engine, rng, event);
                        proof {
                            let rr = choose|rr: EventRolls| #![auto] event_rolls_ok(e1, event@, rr) && (world@, engine@) == process_event_view(w0, e1, event@, rr);
                            lemma_weight_process_event(w0, e1, event@, rr);
                            assert(e1.stack == s0.drop_last());
                            assert(stack_weight(s0) == stack_weight(s0.drop_last()) + event_weight(event@));
                            assert(e1 == EngineView { stack: e0.stack.drop_last(), ..e0 });
                            assert(particle_link(w0, e0, world@, engine@, rr));
                            let ws2 = ws.push(world@);
                            let es2 = es.push(engine@);
                            let rs2 = rs.push(rr);
                            assert forall|k: int| 0 <= k < rs2.len() implies #[trigger] particle_link(ws2[k], es2[k], ws2[k + 1], es2[k + 1], rs2[k]) by {
                                if k < rs.len() {
                                    assert(ws2[k] == ws[k] && es2[k] == es[k] && ws2[k + 1] == ws[k + 1] && es2[k + 1] == es[k + 1]);
                                    assert(rs2[k] == rs[k]);
                                    assert(particle_link(ws[k], es[k], ws[k + 1], es[k + 1], rs[k]));
                                }
                            }
                            ws = ws2;
                            es = es2;
                            rs = rs2;
                        }
                    },
                    _ => {
                        engine.push(event);
                        proof {
                            assert(engine@.stack =~= s0);
                            assert(engine@ == e0);
                        }
                        return false;
                    },
                }
            },
        }
    }
}

} // verus!
