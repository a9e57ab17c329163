use vstd::prelude::*;
use rltk::RandomNumberGenerator;
use crate::geometry::{Point, sign};
use crate::components::{Entity, EntityData, Health, ParticleKind, ParticleRequest, Pickup, empty_entity};
use crate::deck::{attack_type_for_roll, attack_type_of_roll};
use crate::map::{in_bounds, tile_index};
use crate::world::{World, WorldView, hit, resolves, same_frame, contains_point};
use crate::events::{EventEngine, EventView, EngineView, add_particle_event};
use crate::rng::roll;

verus! {

broadcast use vstd::std_specs::hash::group_hash_axioms;

/// How long a hit particle stays on screen.
pub const PARTICLE_HIT_LIFETIME_MS: u32 = 600;

/// The glyph of a hit particle (a full block in code page 437).
pub const PARTICLE_HIT_SYMBOL: u16 = 219;

#[derive(Clone, Copy, Debug, PartialEq, Eq, Structural)]
pub enum DropType {
    Skill,
    Health,
}

/// The kind of a queued event, with what its resolution needs.
#[derive(Clone, Copy, Debug, PartialEq, Eq, Structural)]
pub enum EventType {
    Damage { amount: i32 },
    Push { source_pos: Point, amount: i32 },
    Movement,
    ParticleSpawn { request: ParticleRequest },
    ItemDrop { drop_type: DropType, quality: i32 },
}

/// The dice an item drop uses: a heal roll, or three rolls on the card table.
#[derive(Clone, Copy, Debug, PartialEq, Eq, Structural)]
pub struct DropRolls {
    pub heal: i32,
    pub first: i32,
    pub second: i32,
    pub third: i32,
}

/// The rolls fall in the ranges that the event kind draws them from.
pub open spec fn drop_rolls_ok(et: EventType, r: DropRolls) -> bool {
    match et {
        EventType::ItemDrop { drop_type: DropType::Health, quality } => half_toward_zero(quality as int) <= r.heal
            < half_toward_zero(quality as int) + 2,
        EventType::ItemDrop { drop_type: DropType::Skill, quality: _ } => 0 <= r.first < 8 && 0 <= r.second < 8
            && 0 <= r.third < 8,
        _ => true,
    }
}

/// Half of `q`, rounded toward zero.
pub open spec fn half_toward_zero(q: int) -> int {
    if q >= 0 { q / 2 } else { -((-q) / 2) }
}

fn half(q: i32) -> (r: i32)
    ensures
        r == half_toward_zero(q as int),
{
    q / 2
}

pub open spec fn hit_particle(p: Point) -> ParticleRequest {
    ParticleRequest {
        position: p,
        kind: ParticleKind::Hit,
        symbol: PARTICLE_HIT_SYMBOL,
        lifetime_ms: PARTICLE_HIT_LIFETIME_MS,
    }
}

/// An untargeted event that shows `request`.
pub open spec fn particle_event(request: ParticleRequest) -> EventView {
    EventView {
        event_type: EventType::ParticleSpawn { request },
        attack_intent: None,
        source: None,
        targets: Seq::empty(),
        invokes_reaction: false,
    }
}

/// One hit particle per target tile, in order.
pub open spec fn hit_particles(targets: Seq<Point>) -> Seq<EventView> {
    Seq::new(targets.len(), |i: int| particle_event(hit_particle(targets[i])))
}

/// The events that resolving an event pushes onto the stack.
pub open spec fn pushed_events(et: EventType, targets: Seq<Point>) -> Seq<EventView> {
    match et {
        EventType::Damage { .. } => hit_particles(targets),
        EventType::Push { .. } => hit_particles(targets),
        _ => Seq::empty(),
    }
}

pub open spec fn clamp_i32(v: int) -> i32 {
    if v < i32::MIN {
        i32::MIN
    } else if v > i32::MAX {
        i32::MAX
    } else {
        v as i32
    }
}

/// Damage that gets through: a block absorbs up to its amount.
pub open spec fn damage_through(amount: int, d: EntityData) -> int {
    match d.block {
        Some(b) => if amount - b.block_amount > 0 { amount - b.block_amount } else { 0 },
        None => amount,
    }
}

/// A hit of `amount` on one entity: its block is spent, its health drops.
pub open spec fn damage_one(d: EntityData, amount: int) -> EntityData {
    let dmg = damage_through(amount, d);
    EntityData {
        block: None,
        health: match d.health {
            Some(h) => Some(Health { current: clamp_i32(h.current - dmg), ..h }),
            None => None,
        },
        ..d
    }
}

pub open spec fn damage_entities(ents: Seq<EntityData>, amount: int, targets: Seq<Point>) -> Seq<EntityData> {
    Seq::new(ents.len(), |i: int| if hit(ents[i], targets) { damage_one(ents[i], amount) } else { ents[i] })
}

pub open spec fn open_tile(w: int, h: int, blocked: Seq<bool>, x: int, y: int) -> bool {
    0 <= x < w && 0 <= y < h && !blocked[y * w + x]
}

/// Where a push of up to `n` steps along `(dx, dy)` from `p` stops: before the
/// first tile that is out of bounds or blocked.
pub open spec fn push_dest(w: int, h: int, blocked: Seq<bool>, p: Point, dx: int, dy: int, n: int) -> Point
    decreases n,
{
    if n <= 0 {
        p
    } else if !open_tile(w, h, blocked, p.x + dx, p.y + dy) {
        p
    } else {
        push_dest(w, h, blocked, Point { x: (p.x + dx) as i32, y: (p.y + dy) as i32 }, dx, dy, n - 1)
    }
}

/// Pushes the entity in slot `i` away from `src`, moving its block along.
pub open spec fn push_one(
    w: int,
    h: int,
    ents: Seq<EntityData>,
    blocked: Seq<bool>,
    i: int,
    src: Point,
    amount: int,
) -> (Seq<EntityData>, Seq<bool>) {
    let d = ents[i];
    let p = d.position->0;
    if !in_bounds(w, h, p) {
        (ents, blocked)
    } else {
        let dest = push_dest(w, h, blocked, p, sign(p.x - src.x), sign(p.y - src.y), amount);
        (
            ents.update(i, EntityData { position: Some(dest), ..d }),
            blocked.update(tile_index(w, p), false).update(tile_index(w, dest), true),
        )
    }
}

/// The pushes of the first `n` slots, in slot order, of the entities that
/// stood on the target tiles before any of them moved.
pub open spec fn push_upto(
    w: int,
    h: int,
    ents0: Seq<EntityData>,
    blocked0: Seq<bool>,
    targets: Seq<Point>,
    src: Point,
    amount: int,
    n: int,
) -> (Seq<EntityData>, Seq<bool>)
    decreases n,
{
    if n <= 0 {
        (ents0, blocked0)
    } else {
        let prev = push_upto(w, h, ents0, blocked0, targets, src, amount, n - 1);
        if hit(ents0[n - 1], targets) {
            push_one(w, h, prev.0, prev.1, n - 1, src, amount)
        } else {
            prev
        }
    }
}

/// Moves the source to the first target tile, if that tile is open.
pub open spec fn move_view(w: WorldView, source: Option<Entity>, targets: Seq<Point>) -> WorldView {
    match source {
        Some(s) => {
            if resolves(w.entities, s) && w.entities[s.index as int].position is Some && targets.len() > 0 {
                let d = w.entities[s.index as int];
                let p = d.position->0;
                let t = targets[0];
                if !in_bounds(w.width, w.height, t) || w.blocked[tile_index(w.width, t)] {
                    w
                } else {
                    let b1 = if in_bounds(w.width, w.height, p) {
                        w.blocked.update(tile_index(w.width, p), false)
                    } else {
                        w.blocked
                    };
                    WorldView {
                        entities: w.entities.update(s.index as int, EntityData { position: Some(t), ..d }),
                        blocked: b1.update(tile_index(w.width, t), true),
                        ..w
                    }
                }
            } else {
                w
            }
        },
        None => w,
    }
}

pub open spec fn heal_amount(r: int) -> u32 {
    if r > 1 { r as u32 } else { 1 }
}

pub open spec fn dropped_pickup(drop_type: DropType, r: DropRolls) -> Pickup {
    match drop_type {
        DropType::Health => Pickup::Heal { amount: heal_amount(r.heal as int) },
        DropType::Skill => Pickup::SkillChoice {
            first: attack_type_of_roll(r.first as int),
            second: attack_type_of_roll(r.second as int),
            third: attack_type_of_roll(r.third as int),
        },
    }
}

/// Spawns the pickup at the first target tile and indexes it there when the
/// tile is on the map and holds no item yet.
pub open spec fn drop_view(w: WorldView, drop_type: DropType, targets: Seq<Point>, r: DropRolls) -> WorldView {
    if targets.len() == 0 {
        w
    } else {
        let pt = targets[0];
        let item = EntityData { position: Some(pt), pickup: Some(dropped_pickup(drop_type, r)), ..empty_entity() };
        let ent = Entity { index: w.entities.len() as usize, generation: 0 };
        let key = tile_index(w.width, pt) as usize;
        WorldView {
            entities: w.entities.push(item),
            items: if in_bounds(w.width, w.height, pt) && !w.items.contains_key(key) {
                w.items.insert(key, ent)
            } else {
                w.items
            },
            ..w
        }
    }
}

/// What resolving an event of kind `et` does to the world.
pub open spec fn resolve_view(
    w: WorldView,
    et: EventType,
    source: Option<Entity>,
    targets: Seq<Point>,
    r: DropRolls,
) -> WorldView {
    match et {
        EventType::Damage { amount } => WorldView {
            entities: damage_entities(w.entities, amount as int, targets),
            ..w
        },
        EventType::Push { source_pos, amount } => {
            let res = push_upto(
                w.width,
                w.height,
                w.entities,
                w.blocked,
                targets,
                source_pos,
                amount as int,
                w.entities.len() as int,
            );
            WorldView { entities: res.0, blocked: res.1, ..w }
        },
        EventType::Movement => move_view(w, source, targets),
        EventType::ParticleSpawn { request } => WorldView { particles: w.particles.push(request), ..w },
        EventType::ItemDrop { drop_type, quality: _ } => drop_view(w, drop_type, targets, r),
    }
}

/// The engine after an event of kind `et` resolved: its pushes are on top.
pub open spec fn resolve_engine(e: EngineView, et: EventType, targets: Seq<Point>) -> EngineView {
    EngineView { stack: e.stack + pushed_events(et, targets), ..e }
}

/// The resolution contract every resolver meets.
pub open spec fn resolves_as(
    w0: World,
    e0: EngineView,
    w1: World,
    e1: EngineView,
    et: EventType,
    source: Option<Entity>,
    targets: Seq<Point>,
    r: DropRolls,
) -> bool {
    &&& w1.wf()
    &&& same_frame(w0, w1)
    &&& w1@ == resolve_view(w0@, et, source, targets, r)
    &&& e1 == resolve_engine(e0, et, targets)
}

fn clamp_to_i32(v: i64) -> (r: i32)
    ensures
        r == clamp_i32(v as int),
{
    if v < i32::MIN as i64 {
        i32::MIN
    } else if v > i32::MAX as i64 {
        i32::MAX
    } else {
        v as i32
    }
}

/// Queues a hit particle on each target tile, in order.
fn add_hit_particles(engine: &mut EventEngine, targets: &Vec<Point>)
    ensures
        final(engine)@ == (EngineView { stack: old(engine)@.stack + hit_particles(targets@), ..old(engine)@ }),
{
    let mut k: usize = 0;
    while k < targets.len()
        invariant
            k <= targets@.len(),
            engine@ == (EngineView {
                stack: old(engine)@.stack + hit_particles(targets@.take(k as int)),
                ..old(engine)@
            }),
        decreases targets@.len() - k,
    {
        add_particle_event(engine, targets[k], ParticleKind::Hit, PARTICLE_HIT_LIFETIME_MS);
        assert(hit_particles(targets@.take(k + 1)) =~= hit_particles(targets@.take(k as int)).push(
            particle_event(hit_particle(targets@[k as int])),
        ));
        assert(old(engine)@.stack + hit_particles(targets@.take(k + 1)) =~= (old(engine)@.stack
            + hit_particles(targets@.take(k as int))).push(particle_event(hit_particle(targets@[k as int]))));
        k = k + 1;
    }
    assert(targets@.take(targets@.len() as int) =~= targets@);
}

/// Damages every live entity on the target tiles: a block absorbs up to its
/// amount and is spent, the rest comes off health.
pub fn resolve_damage(world: &mut World, engine: &mut EventEngine, amount: i32, targets: &Vec<Point>)
    requires
        old(world).wf(),
    ensures
        resolves_as(
            *old(world),
            old(engine)@,
            *final(world),
            final(engine)@,
            EventType::Damage { amount },
            None,
            targets@,
            DropRolls { heal: 0, first: 0, second: 0, third: 0 },
        ),
{
    add_hit_particles(engine, targets);
    let ghost ents0 = world.entities@;
    let mut i: usize = 0;
    while i < world.entities.len()
        invariant
            world.wf(),
            same_frame(*old(world), *world),
            world.map == old(world).map,
            world.particles == old(world).particles,
            world.cards == old(world).cards,
            world.intents == old(world).intents,
            ents0 == old(world).entities@,
            world.entities@.len() == ents0.len(),
            i <= ents0.len(),
            forall|j: int| 0 <= j < i ==> world.entities@[j] == (if hit(ents0[j], targets@) {
                damage_one(ents0[j], amount as int)
            } else {
                ents0[j]
            }),
            forall|j: int| i <= j < ents0.len() ==> world.entities@[j] == ents0[j],
        decreases ents0.len() - i,
    {
        let d = world.entities[i];
        if d.alive {
            if let Some(p) = d.position {
                if contains_point(targets, p) {
                    let dmg: i64 = match d.block {
                        Some(b) => {
                            let v = amount as i64 - b.block_amount as i64;
                            if v > 0 {
                                v
                            } else {
                                0
                            }
                        },
                        None => amount as i64,
                    };
                    let health = match d.health {
                        Some(h) => Some(Health { current: clamp_to_i32(h.current as i64 - dmg), ..h }),
                        None => None,
                    };
                    world.entities.set(i, EntityData { block: None, health, ..d });
                }
            }
        }
        i = i + 1;
    }
    assert(world.entities@ =~= damage_entities(ents0, amount as int, targets@));
}

/// Pushes every live entity on the target tiles away from `source_pos`.
pub fn resolve_push(world: &mut World, engine: &mut EventEngine, source_pos: Point, amount: i32, targets: &Vec<Point>)
    requires
        old(world).wf(),
    ensures
        resolves_as(
            *old(world),
            old(engine)@,
            *final(world),
            final(engine)@,
            EventType::Push { source_pos, amount },
            None,
            targets@,
            DropRolls { heal: 0, first: 0, second: 0, third: 0 },
        ),
{
    add_hit_particles(engine, targets);
    let ghost ents0 = world.entities@;
    let ghost blocked0 = world.map.blocked_tiles@;
    let ghost w = world.map.width as int;
    let ghost h = world.map.height as int;
    let mut i: usize = 0;
    while i < world.entities.len()
        invariant
            world.wf(),
            same_frame(*old(world), *world),
            world.map.item_map == old(world).map.item_map,
            world.particles == old(world).particles,
            world.cards == old(world).cards,
            world.intents == old(world).intents,
            ents0 == old(world).entities@,
            blocked0 == old(world).map.blocked_tiles@,
            w == world.map.width,
            h == world.map.height,
            i <= ents0.len(),
            world.entities@.len() == ents0.len(),
            (world.entities@, world.map.blocked_tiles@) == push_upto(w, h, ents0, blocked0, targets@, source_pos, amount as int, i as int),
            forall|j: int| i <= j < ents0.len() ==> world.entities@[j] == ents0[j],
        decreases ents0.len() - i,
    {
        let d = world.entities[i];
        if d.alive {
            if let Some(p) = d.position {
                if contains_point(targets, p) {
                    push_entity(world, i, source_pos, amount);
                }
            }
        }
        i = i + 1;
    }
}

/// Pushes the entity in slot `i` away from `src` by up to `amount` tiles.
fn push_entity(world: &mut World, i: usize, src: Point, amount: i32)
    requires
        old(world).wf(),
        i < old(world).entities@.len(),
        old(world).entities@[i as int].position is Some,
    ensures
        final(world).wf(),
        same_frame(*old(world), *final(world)),
        final(world).map.item_map == old(world).map.item_map,
        final(world).particles == old(world).particles,
        final(world).cards == old(world).cards,
        final(world).intents == old(world).intents,
        (final(world).entities@, final(world).map.blocked_tiles@) == push_one(
            old(world).map.width as int,
            old(world).map.height as int,
            old(world).entities@,
            old(world).map.blocked_tiles@,
            i as int,
            src,
            amount as int,
        ),
{
    let d = world.entities[i];
    let p = d.position.unwrap();
    if !world.map.in_bounds(p) {
        return;
    }
    let ghost w = world.map.width as int;
    let ghost h = world.map.height as int;
    let ghost blocked = world.map.blocked_tiles@;
    let dx: i32 = if p.x > src.x { 1 } else if p.x < src.x { -1 } else { 0 };
    let dy: i32 = if p.y > src.y { 1 } else if p.y < src.y { -1 } else { 0 };
    let mut next = p;
    let mut k: i32 = 0;
    let mut stopped = false;
    while k < amount && !stopped
        invariant
            stopped ==> push_dest(w, h, blocked, next, dx as int, dy as int, amount - k) == next,
            world.wf(),
            world.map.blocked_tiles@ == blocked,
            w == world.map.width,
            h == world.map.height,
            -1 <= dx <= 1,
            -1 <= dy <= 1,
            0 <= k <= amount || (amount <= 0 && k == 0),
            in_bounds(w, h, next),
            push_dest(w, h, blocked, next, dx as int, dy as int, amount - k)
                == push_dest(w, h, blocked, p, dx as int, dy as int, amount as int),
        decreases amount - k + (if stopped { 0int } else { 1int }),
    {
        let possible = Point { x: next.x + dx, y: next.y + dy };
        if !world.map.is_open(possible) {
            assert(push_dest(w, h, blocked, next, dx as int, dy as int, amount - k) == next);
            stopped = true;
        } else {
            next = possible;
            k = k + 1;
        }
    }
    assert(push_dest(w, h, blocked, next, dx as int, dy as int, amount - k) == next);
    let affected_index = world.map.point2d_to_index(p);
    let next_index = world.map.point2d_to_index(next);
    world.map.blocked_tiles.set(affected_index, false);
    world.map.blocked_tiles.set(next_index, true);
    world.entities.set(i, EntityData { position: Some(next), ..d });
}

/// Moves the source onto the first target tile, if it is on the map and open.
pub fn resolve_movement(world: &mut World, engine: &mut EventEngine, source: Option<Entity>, targets: &Vec<Point>)
    requires
        old(world).wf(),
    ensures
        resolves_as(
            *old(world),
            old(engine)@,
            *final(world),
            final(engine)@,
            EventType::Movement,
            source,
            targets@,
            DropRolls { heal: 0, first: 0, second: 0, third: 0 },
        ),
{
    assert(pushed_events(EventType::Movement, targets@) =~= Seq::<EventView>::empty());
    assert(old(engine)@.stack + Seq::<EventView>::empty() =~= old(engine)@.stack);
    if let Some(s) = source {
        if world.is_live(s) {
            let d = world.entities[s.index];
            if let Some(p) = d.position {
                if targets.len() > 0 {
                    let target = targets[0];
                    if !world.map.is_open(target) {
                        return;
                    }
                    if world.map.in_bounds(p) {
                        let source_index = world.map.point2d_to_index(p);
                        world.map.blocked_tiles.set(source_index, false);
                    }
                    let target_index = world.map.point2d_to_index(target);
                    world.map.blocked_tiles.set(target_index, true);
                    world.entities.set(s.index, EntityData { position: Some(target), ..d });
                }
            }
        }
    }
}

/// Hands a particle to the renderer.
pub fn resolve_particle(world: &mut World, engine: &mut EventEngine, request: ParticleRequest)
    requires
        old(world).wf(),
    ensures
        resolves_as(
            *old(world),
            old(engine)@,
            *final(world),
            final(engine)@,
            EventType::ParticleSpawn { request },
            None,
            Seq::empty(),
            DropRolls { heal: 0, first: 0, second: 0, third: 0 },
        ),
{
    assert(old(engine)@.stack + Seq::<EventView>::empty() =~= old(engine)@.stack);
    world.particles.push(request);
}

/// Spawns a pickup on the first target tile, its contents read from `rolls`.
pub fn resolve_drop(world: &mut World, engine: &mut EventEngine, drop_type: DropType, quality: i32, targets: &Vec<Point>, rolls: DropRolls)
    requires
        old(world).wf(),
    ensures
        resolves_as(
            *old(world),
            old(engine)@,
            *final(world),
            final(engine)@,
            EventType::ItemDrop { drop_type, quality },
            None,
            targets@,
            rolls,
        ),
{
    assert(old(engine)@.stack + Seq::<EventView>::empty() =~= old(engine)@.stack);
    if targets.len() == 0 {
        return;
    }
    let drop_point = targets[0];
    let pickup = match drop_type {
        DropType::Health => {
            let amount: u32 = if rolls.heal > 1 { rolls.heal as u32 } else { 1 };
            Pickup::Heal { amount }
        },
        DropType::Skill => Pickup::SkillChoice {
            first: attack_type_for_roll(rolls.first),
            second: attack_type_for_roll(rolls.second),
            third: attack_type_for_roll(rolls.third),
        },
    };
    let mut item = EntityData::bare();
    item.position = Some(drop_point);
    item.pickup = Some(pickup);
    let ent = world.spawn(item);
    if world.map.in_bounds(drop_point) {
        world.map.track_item(ent, drop_point);
    }
    proof {
        let w0 = old(world)@;
        let key = tile_index(w0.width, drop_point) as usize;
        assert(world.entities@ == w0.entities.push(
            EntityData { position: Some(drop_point), pickup: Some(dropped_pickup(drop_type, rolls)), ..empty_entity() },
        ));
        assert(world.map.item_map@ == (if in_bounds(w0.width, w0.height, drop_point) && !w0.items.contains_key(key) {
            w0.items.insert(key, ent)
        } else {
            w0.items
        }));
    }
}

/// Draws the dice an item drop needs; other kinds draw none.
pub fn draw_drop_rolls(rng: &mut RandomNumberGenerator, et: &EventType) -> (r: DropRolls)
    ensures
        drop_rolls_ok(*et, r),
{
    match et {
        EventType::ItemDrop { drop_type: DropType::Health, quality } => {
            let lo = half(*quality);
            let heal = roll(rng, lo, lo + 2);
            DropRolls { heal, first: 0, second: 0, third: 0 }
        },
        EventType::ItemDrop { drop_type: DropType::Skill, quality: _ } => {
            let first = roll(rng, 0, 8);
            let second = roll(rng, 0, 8);
            let third = roll(rng, 0, 8);
            DropRolls { heal: 0, first, second, third }
        },
        _ => DropRolls { heal: 0, first: 0, second: 0, third: 0 },
    }
}

/// Resolves an event of kind `event_type` from `source` over `targets`.
pub fn resolve(
    world: &mut World,
    engine: &mut EventEngine,
    event_type: EventType,
    source: Option<Entity>,
    targets: &Vec<Point>,
    rolls: DropRolls,
)
    requires
        old(world).wf(),
    ensures
        resolves_as(*old(world), old(engine)@, *final(world), final(engine)@, event_type, source, targets@, rolls),
{
    match event_type {
        EventType::Damage { amount } => resolve_damage(world, engine, amount, targets),
        EventType::Push { source_pos, amount } => resolve_push(world, engine, source_pos, amount, targets),
        EventType::Movement => resolve_movement(world, engine, source, targets),
        EventType::ParticleSpawn { request } => {
            resolve_particle(world, engine, request);
            assert(pushed_events(event_type, targets@) =~= Seq::<EventView>::empty());
            assert(old(engine)@.stack + Seq::<EventView>::empty() =~= old(engine)@.stack);
        },
        EventType::ItemDrop { drop_type, quality } => resolve_drop(world, engine, drop_type, quality, targets, rolls),
    }
}

} // verus!
