use card_combat::{
    add_damage_event, add_event, check_interrupt, compare_speed, get_attack_intent, process_next,
    process_stack, process_stack_visual_only, queue_attack, resolve_contest, resolve_range_at, run_attack_system,
    AttackIntent, AttackTrait, AttackType, BlockAttack, CanActFlag, ContestRolls, Deck, DropRolls, DropType,
    Entity, EntityData, Event, EventEngine, EventType, GameMap, Health, ParticleKind, ParticleRequest, Pickup,
    Point, RangeType, RunState, Schedulable, StepKind, World,
};
use rltk::RandomNumberGenerator;

fn open_map(w: i32, h: i32) -> GameMap {
    let mut map = GameMap::new(w, h, 0);
    for t in map.tiles.iter_mut() {
        *t = card_combat::TileType::Floor;
    }
    map.set_blocked_tiles();
    map
}

fn fighter(world: &mut World, x: i32, y: i32, hp: i32) -> Entity {
    let mut d = EntityData::bare();
    d.position = Some(Point::new(x, y));
    d.health = Some(Health { current: hp, max: hp });
    d.blocks_tile = true;
    let e = world.spawn(d);
    let idx = world.map.get_index(x, y);
    world.map.blocked_tiles[idx] = true;
    e
}

fn new_world() -> World {
    World::new(open_map(10, 10), Entity { index: 0, generation: 0 })
}

fn hp(world: &World, e: Entity) -> i32 {
    world.entities[e.index].health.unwrap().current
}

fn pos(world: &World, e: Entity) -> Point {
    world.entities[e.index].position.unwrap()
}

fn no_drop() -> DropRolls {
    DropRolls { heal: 0, first: 0, second: 0, third: 0 }
}

fn drain_all(world: &mut World, engine: &mut EventEngine, rng: &mut RandomNumberGenerator) -> RunState {
    process_stack(world, engine, rng)
}

#[test]
fn square_range_covers_nine_tiles_around_center() {
    let tiles = resolve_range_at(&RangeType::Square { size: 1 }, Point::new(5, 5));
    assert_eq!(tiles.len(), 9);
    for x in 4..=6 {
        for y in 4..=6 {
            assert!(tiles.contains(&Point::new(x, y)));
        }
    }
}

#[test]
fn square_range_at_corner_clips_to_four_tiles() {
    let map = open_map(10, 10);
    let tiles = resolve_range_at(&RangeType::Square { size: 1 }, Point::new(0, 0));
    assert_eq!(tiles.len(), 9);
    let clipped = map.clip_to_map(&tiles);
    assert_eq!(clipped.len(), 4);
    for p in [Point::new(0, 0), Point::new(1, 0), Point::new(0, 1), Point::new(1, 1)] {
        assert!(clipped.contains(&p));
    }
}

#[test]
fn single_empty_and_custom_ranges() {
    assert_eq!(resolve_range_at(&RangeType::Single, Point::new(3, 4)), vec![Point::new(3, 4)]);
    assert!(resolve_range_at(&RangeType::Empty, Point::new(3, 4)).is_empty());
    let custom = RangeType::Custom { offsets: vec![Point::new(1, 0), Point::new(-2, 3)] };
    assert_eq!(resolve_range_at(&custom, Point::new(3, 4)), vec![Point::new(4, 4), Point::new(1, 7)]);
    assert_eq!(resolve_range_at(&RangeType::Square { size: 0 }, Point::new(3, 4)), vec![Point::new(3, 4)]);
    assert!(resolve_range_at(&RangeType::Square { size: -1 }, Point::new(3, 4)).is_empty());
}

#[test]
fn damage_is_reduced_by_block_and_block_breaks() {
    let mut world = new_world();
    let mut engine = EventEngine::new();
    let mut rng = RandomNumberGenerator::seeded(7);
    let a = fighter(&mut world, 2, 2, 10);
    let b = fighter(&mut world, 6, 6, 10);
    world.entities[a.index].block = Some(BlockAttack { block_amount: 1 });
    world.entities[b.index].block = Some(BlockAttack { block_amount: 3 });
    add_event(&mut engine, &EventType::Damage { amount: 2 }, None, None, &RangeType::Single, Point::new(2, 2), false);
    add_event(&mut engine, &EventType::Damage { amount: 2 }, None, None, &RangeType::Single, Point::new(6, 6), false);
    assert_eq!(drain_all(&mut world, &mut engine, &mut rng), RunState::Running);
    assert_eq!(hp(&world, a), 9);
    assert_eq!(hp(&world, b), 10);
    assert!(world.entities[a.index].block.is_none());
    assert!(world.entities[b.index].block.is_none());
    // one hit particle per target tile
    assert_eq!(world.particles.len(), 2);
    assert_eq!(world.particles[0].kind, ParticleKind::Hit);
}

#[test]
fn damage_without_block_lowers_health_below_zero() {
    let mut world = new_world();
    let mut engine = EventEngine::new();
    let mut rng = RandomNumberGenerator::seeded(7);
    let a = fighter(&mut world, 2, 2, 1);
    add_event(&mut engine, &EventType::Damage { amount: 3 }, None, None, &RangeType::Single, Point::new(2, 2), false);
    drain_all(&mut world, &mut engine, &mut rng);
    assert_eq!(hp(&world, a), -2);
}

#[test]
fn push_moves_away_and_updates_grid() {
    let mut world = new_world();
    let mut engine = EventEngine::new();
    let mut rng = RandomNumberGenerator::seeded(7);
    let target = fighter(&mut world, 5, 5, 5);
    let push = EventType::Push { source_pos: Point::new(4, 4), amount: 2 };
    add_event(&mut engine, &push, None, None, &RangeType::Single, Point::new(5, 5), false);
    drain_all(&mut world, &mut engine, &mut rng);
    assert_eq!(pos(&world, target), Point::new(7, 7));
    assert!(world.map.blocked_tiles[world.map.get_index(7, 7)]);
    assert!(!world.map.blocked_tiles[world.map.get_index(5, 5)]);
}

#[test]
fn push_stops_before_blocked_tile_and_map_edge() {
    let mut world = new_world();
    let mut engine = EventEngine::new();
    let mut rng = RandomNumberGenerator::seeded(7);
    let target = fighter(&mut world, 5, 5, 5);
    let _wall = fighter(&mut world, 8, 5, 5);
    let edge = fighter(&mut world, 1, 8, 5);
    add_event(&mut engine, &EventType::Push { source_pos: Point::new(4, 5), amount: 5 }, None, None, &RangeType::Single, Point::new(5, 5), false);
    add_event(&mut engine, &EventType::Push { source_pos: Point::new(0, 7), amount: 5 }, None, None, &RangeType::Single, Point::new(1, 8), false);
    drain_all(&mut world, &mut engine, &mut rng);
    assert_eq!(pos(&world, target), Point::new(7, 5));
    assert_eq!(pos(&world, edge), Point::new(2, 9));
}

#[test]
fn movement_goes_to_open_tile_only() {
    let mut world = new_world();
    let mut engine = EventEngine::new();
    let mut rng = RandomNumberGenerator::seeded(7);
    let mover = fighter(&mut world, 1, 1, 5);
    let _other = fighter(&mut world, 3, 3, 5);
    add_event(&mut engine, &EventType::Movement, None, Some(mover), &RangeType::Single, Point::new(3, 3), false);
    drain_all(&mut world, &mut engine, &mut rng);
    assert_eq!(pos(&world, mover), Point::new(1, 1));
    add_event(&mut engine, &EventType::Movement, None, Some(mover), &RangeType::Single, Point::new(2, 1), false);
    drain_all(&mut world, &mut engine, &mut rng);
    assert_eq!(pos(&world, mover), Point::new(2, 1));
    assert!(!world.map.blocked_tiles[world.map.get_index(1, 1)]);
    assert!(world.map.blocked_tiles[world.map.get_index(2, 1)]);
}

#[test]
fn empty_shape_event_skips_matching_and_reactions() {
    let mut world = new_world();
    let mut engine = EventEngine::new();
    let mut rng = RandomNumberGenerator::seeded(7);
    let reactor = fighter(&mut world, 0, 0, 5);
    world.entities[reactor.index].can_react = true;
    let request = ParticleRequest { position: Point::new(0, 0), kind: ParticleKind::Hit, symbol: 1, lifetime_ms: 5 };
    add_event(&mut engine, &EventType::ParticleSpawn { request }, None, None, &RangeType::Empty, Point::new(0, 0), true);
    assert_eq!(drain_all(&mut world, &mut engine, &mut rng), RunState::Running);
    assert_eq!(world.particles.len(), 1);
    assert!(world.entities[reactor.index].can_act.is_none());
    assert!(engine.processing.is_none());
}

#[test]
fn reaction_stashes_then_resumes_once() {
    let mut world = new_world();
    let mut engine = EventEngine::new();
    let mut rng = RandomNumberGenerator::seeded(7);
    let attacker = fighter(&mut world, 4, 4, 5);
    let reactor = fighter(&mut world, 5, 5, 5);
    let bystander = fighter(&mut world, 8, 8, 5);
    world.entities[reactor.index].can_react = true;
    world.entities[reactor.index].can_act = Some(CanActFlag { is_reaction: false, reaction_target: None });
    world.entities[reactor.index].schedule = Some(Schedulable { current: 10, base: 4, delta: 1 });
    world.entities[attacker.index].can_react = true;
    world.entities[bystander.index].can_react = true;
    let intent = get_attack_intent(&AttackType::Punch, Point::new(5, 5), None);
    add_damage_event(&mut engine, &intent, Some(attacker), true);

    assert_eq!(drain_all(&mut world, &mut engine, &mut rng), RunState::AwaitingInput);
    assert!(engine.processing.is_some());
    assert_eq!(hp(&world, reactor), 5);
    assert_eq!(
        world.entities[reactor.index].can_act,
        Some(CanActFlag { is_reaction: true, reaction_target: Some(attacker) })
    );
    assert_eq!(world.entities[reactor.index].schedule.unwrap().current, 6);
    assert!(world.entities[attacker.index].can_act.is_none());
    assert!(world.entities[bystander.index].can_act.is_none());
    assert!(world.entities[attacker.index].attack_in_progress);

    assert_eq!(drain_all(&mut world, &mut engine, &mut rng), RunState::HitPause { remaining_time_ms: 600 });
    assert_eq!(hp(&world, reactor), 4);
    assert!(engine.processing.is_none());
    assert!(!world.entities[attacker.index].attack_in_progress);

    assert_eq!(drain_all(&mut world, &mut engine, &mut rng), RunState::Running);
    assert_eq!(hp(&world, reactor), 4);
}

#[test]
fn source_cannot_react_to_itself() {
    let mut world = new_world();
    let mut engine = EventEngine::new();
    let mut rng = RandomNumberGenerator::seeded(7);
    let attacker = fighter(&mut world, 4, 4, 5);
    world.entities[attacker.index].can_react = true;
    let intent = get_attack_intent(&AttackType::Punch, Point::new(4, 4), None);
    add_damage_event(&mut engine, &intent, Some(attacker), true);
    assert_eq!(drain_all(&mut world, &mut engine, &mut rng), RunState::Running);
    assert_eq!(hp(&world, attacker), 4);
}

#[test]
fn nested_events_resolve_before_the_event_beneath() {
    let mut world = new_world();
    let mut engine = EventEngine::new();
    let mut rng = RandomNumberGenerator::seeded(7);
    let mover = fighter(&mut world, 1, 1, 5);
    let victim = fighter(&mut world, 6, 6, 5);
    add_event(&mut engine, &EventType::Movement, None, Some(mover), &RangeType::Single, Point::new(2, 2), false);
    add_event(&mut engine, &EventType::Damage { amount: 1 }, None, None, &RangeType::Square { size: 1 }, Point::new(6, 6), false);

    assert_eq!(process_next(&mut world, &mut engine, &mut rng), StepKind::Resolved);
    assert_eq!(hp(&world, victim), 4);
    assert_eq!(engine.stack.len(), 10);
    for _ in 0..9 {
        assert_eq!(process_next(&mut world, &mut engine, &mut rng), StepKind::Resolved);
        assert_eq!(pos(&world, mover), Point::new(1, 1));
    }
    assert_eq!(world.particles.len(), 9);
    assert_eq!(process_next(&mut world, &mut engine, &mut rng), StepKind::Resolved);
    assert_eq!(pos(&world, mover), Point::new(2, 2));
    assert_eq!(process_next(&mut world, &mut engine, &mut rng), StepKind::Idle);
}

fn contest_world() -> (World, Entity, Entity) {
    let mut world = World::new(open_map(10, 10), Entity { index: 1, generation: 0 });
    let enemy = fighter(&mut world, 4, 4, 10);
    let player = fighter(&mut world, 5, 5, 10);
    (world, enemy, player)
}

fn damage_event(intent: AttackIntent, source: Entity, target: Point) -> Event {
    Event {
        event_type: EventType::Damage { amount: card_combat::get_intent_power(&intent) },
        attack_intent: Some(intent),
        source: Some(source),
        target_tiles: vec![target],
        invokes_reaction: false,
    }
}

#[test]
fn speed_tie_resolves_attacker_first() {
    let atk = get_attack_intent(&AttackType::Punch, Point::new(5, 5), None);
    let def = get_attack_intent(&AttackType::Punch, Point::new(4, 4), None);
    let rolls = ContestRolls { atk_speed: 2, def_speed: 2, def_guard: 5, atk_power: 0 };
    assert_eq!(compare_speed(&atk, &def, &rolls), 0);
    let (mut world, enemy, player) = contest_world();
    let mut engine = EventEngine::new();
    resolve_contest(&mut world, &mut engine, damage_event(atk, enemy, Point::new(5, 5)), damage_event(def, player, Point::new(4, 4)), rolls, no_drop(), no_drop());
    assert!(world.intents.rolls.attacker_first);
    assert_eq!(world.intents.rolls.atk_speed, 2);
    assert_eq!(world.intents.rolls.def_guard, 5);
    assert!(!world.intents.hidden);
    // guard 0 + 5 + 1 beats stun 0 + 0: both hits land
    assert_eq!(hp(&world, player), 9);
    assert_eq!(hp(&world, enemy), 9);
}

#[test]
fn interrupt_drops_second_event() {
    // Punch (speed 1) against Super (speed -2): the attacker is 3 faster.
    let atk = get_attack_intent(&AttackType::Punch, Point::new(5, 5), None);
    let def = get_attack_intent(&AttackType::Super, Point::new(4, 4), None);
    let rolls = ContestRolls { atk_speed: 0, def_speed: 0, def_guard: 0, atk_power: 0 };
    assert_eq!(compare_speed(&atk, &def, &rolls), 3);
    // stun 3 + 0 against guard 1 + 0 + 1
    assert!(check_interrupt(&atk, &def, &rolls));
    let (mut world, enemy, player) = contest_world();
    let mut engine = EventEngine::new();
    resolve_contest(&mut world, &mut engine, damage_event(atk, enemy, Point::new(5, 5)), damage_event(def, player, Point::new(4, 4)), rolls, no_drop(), no_drop());
    assert_eq!(hp(&world, player), 9);
    assert_eq!(hp(&world, enemy), 10);
}

#[test]
fn guard_holds_and_both_events_apply() {
    let atk = get_attack_intent(&AttackType::Punch, Point::new(5, 5), None);
    let def = get_attack_intent(&AttackType::Super, Point::new(4, 4), None);
    let rolls = ContestRolls { atk_speed: 0, def_speed: 0, def_guard: 2, atk_power: 1 };
    // stun 3 + 1 against guard 1 + 2 + 1
    assert!(!check_interrupt(&atk, &def, &rolls));
    let (mut world, enemy, player) = contest_world();
    let mut engine = EventEngine::new();
    resolve_contest(&mut world, &mut engine, damage_event(atk, enemy, Point::new(5, 5)), damage_event(def, player, Point::new(4, 4)), rolls, no_drop(), no_drop());
    assert_eq!(hp(&world, player), 9);
    assert_eq!(hp(&world, enemy), 8);
}

#[test]
fn faster_defender_resolves_first_and_can_stun() {
    // Quick-modified punch (speed 5) defends against a Super (speed -2).
    let atk = get_attack_intent(&AttackType::Super, Point::new(5, 5), None);
    let def = get_attack_intent(&AttackType::Punch, Point::new(4, 4), Some(AttackType::Quick));
    let rolls = ContestRolls { atk_speed: 0, def_speed: 0, def_guard: 0, atk_power: 0 };
    assert_eq!(compare_speed(&atk, &def, &rolls), -7);
    let (mut world, enemy, player) = contest_world();
    let mut engine = EventEngine::new();
    resolve_contest(&mut world, &mut engine, damage_event(atk, enemy, Point::new(5, 5)), damage_event(def, player, Point::new(4, 4)), rolls, no_drop(), no_drop());
    assert!(!world.intents.rolls.attacker_first);
    // the defender's quick punch has power max(1 - 1, 0) = 0 and stuns the super
    assert_eq!(hp(&world, enemy), 10);
    assert_eq!(hp(&world, player), 10);
}

#[test]
fn contest_happens_when_player_counter_is_beneath() {
    let (mut world, enemy, player) = contest_world();
    let mut engine = EventEngine::new();
    let mut rng = RandomNumberGenerator::seeded(3);
    let counter = get_attack_intent(&AttackType::Punch, Point::new(4, 4), None);
    add_damage_event(&mut engine, &counter, Some(player), false);
    let attack = get_attack_intent(&AttackType::Punch, Point::new(5, 5), None);
    add_damage_event(&mut engine, &attack, Some(enemy), false);
    assert_eq!(process_next(&mut world, &mut engine, &mut rng), StepKind::Resolved);
    // both damage events are gone from the stack; only hit particles remain
    assert!(!engine.stack.is_empty());
    assert!(engine.stack.iter().all(|e| matches!(e.event_type, EventType::ParticleSpawn { .. })));
    assert!(hp(&world, player) == 9 || hp(&world, player) == 10);
    assert_eq!(world.cards.len(), 1);
}

#[test]
fn counter_from_any_entity_is_contested() {
    let (mut world, enemy, _player) = contest_world();
    let other = fighter(&mut world, 8, 8, 10);
    let mut engine = EventEngine::new();
    let mut rng = RandomNumberGenerator::seeded(3);
    let counter = get_attack_intent(&AttackType::Punch, Point::new(4, 4), None);
    add_damage_event(&mut engine, &counter, Some(other), false);
    let attack = get_attack_intent(&AttackType::Punch, Point::new(8, 8), None);
    add_damage_event(&mut engine, &attack, Some(enemy), false);
    assert_eq!(process_next(&mut world, &mut engine, &mut rng), StepKind::Resolved);
    // both damage events were taken off the stack by the contest
    assert!(!engine.stack.is_empty());
    assert!(engine.stack.iter().all(|e| matches!(e.event_type, EventType::ParticleSpawn { .. })));
    assert!(hp(&world, other) == 9 || hp(&world, other) == 10);
    assert!(hp(&world, enemy) == 9 || hp(&world, enemy) == 10);
    assert!(hp(&world, other) + hp(&world, enemy) <= 19);
}

#[test]
fn counter_without_intent_is_not_contested_and_record_resets() {
    let (mut world, enemy, player) = contest_world();
    world.intents.rolls.atk_speed = 4;
    world.intents.rolls.def_guard = 3;
    world.intents.rolls.attacker_first = true;
    let mut engine = EventEngine::new();
    let mut rng = RandomNumberGenerator::seeded(3);
    add_event(&mut engine, &EventType::Movement, None, Some(enemy), &RangeType::Single, Point::new(3, 3), false);
    let attack = get_attack_intent(&AttackType::Punch, Point::new(5, 5), None);
    add_damage_event(&mut engine, &attack, Some(enemy), false);
    assert_eq!(process_next(&mut world, &mut engine, &mut rng), StepKind::Resolved);
    assert_eq!(hp(&world, player), 9);
    assert_eq!(pos(&world, enemy), Point::new(4, 4));
    assert_eq!(world.intents.rolls.atk_speed, 0);
    assert_eq!(world.intents.rolls.def_guard, 0);
    assert!(!world.intents.rolls.attacker_first);
    // the movement beneath stays, under the hit particle
    assert_eq!(engine.stack.len(), 2);
    assert_eq!(engine.stack[0].event_type, EventType::Movement);
    assert_eq!(drain_all(&mut world, &mut engine, &mut rng), RunState::Running);
    assert_eq!(pos(&world, enemy), Point::new(3, 3));
}

#[test]
fn pending_reaction_grant_is_not_refunded_again() {
    let mut world = new_world();
    let mut engine = EventEngine::new();
    let mut rng = RandomNumberGenerator::seeded(7);
    let attacker = fighter(&mut world, 4, 4, 5);
    let reactor = fighter(&mut world, 5, 5, 5);
    world.entities[reactor.index].can_react = true;
    world.entities[reactor.index].can_act = Some(CanActFlag { is_reaction: true, reaction_target: None });
    world.entities[reactor.index].schedule = Some(Schedulable { current: 10, base: 4, delta: 1 });
    let intent = get_attack_intent(&AttackType::Punch, Point::new(5, 5), None);
    add_damage_event(&mut engine, &intent, Some(attacker), true);
    assert_eq!(drain_all(&mut world, &mut engine, &mut rng), RunState::AwaitingInput);
    assert_eq!(world.entities[reactor.index].schedule.unwrap().current, 10);
    assert_eq!(
        world.entities[reactor.index].can_act,
        Some(CanActFlag { is_reaction: true, reaction_target: Some(attacker) })
    );
}

#[test]
fn reactor_that_moved_away_before_pop_gets_no_window() {
    let mut world = new_world();
    let mut engine = EventEngine::new();
    let mut rng = RandomNumberGenerator::seeded(7);
    let attacker = fighter(&mut world, 4, 4, 5);
    let reactor = fighter(&mut world, 5, 5, 5);
    world.entities[reactor.index].can_react = true;
    let intent = get_attack_intent(&AttackType::Punch, Point::new(5, 5), None);
    add_damage_event(&mut engine, &intent, Some(attacker), true);
    world.entities[reactor.index].position = Some(Point::new(7, 7));
    assert_eq!(drain_all(&mut world, &mut engine, &mut rng), RunState::Running);
    assert!(world.entities[reactor.index].can_act.is_none());
    assert_eq!(hp(&world, reactor), 5);
}

#[test]
fn lone_attack_resets_contest_record() {
    let (mut world, enemy, player) = contest_world();
    world.intents.rolls.atk_speed = 4;
    world.intents.rolls.attacker_first = true;
    let mut engine = EventEngine::new();
    let mut rng = RandomNumberGenerator::seeded(3);
    let attack = get_attack_intent(&AttackType::Punch, Point::new(5, 5), None);
    add_damage_event(&mut engine, &attack, Some(enemy), false);
    drain_all(&mut world, &mut engine, &mut rng);
    assert_eq!(world.intents.rolls.atk_speed, 0);
    assert!(!world.intents.rolls.attacker_first);
    assert!(!world.intents.hidden);
    assert_eq!(hp(&world, player), 9);
    assert_eq!(world.intents.prev_incoming_intent, Some(attack));
}

#[test]
fn health_drop_spawns_tracked_pickup() {
    let mut world = new_world();
    let mut engine = EventEngine::new();
    let mut rng = RandomNumberGenerator::seeded(11);
    let drop = EventType::ItemDrop { drop_type: DropType::Health, quality: 4 };
    add_event(&mut engine, &drop, None, None, &RangeType::Single, Point::new(3, 3), false);
    drain_all(&mut world, &mut engine, &mut rng);
    assert_eq!(world.entities.len(), 1);
    let item = world.entities[0];
    assert_eq!(item.position, Some(Point::new(3, 3)));
    match item.pickup {
        Some(Pickup::Heal { amount }) => assert!(amount == 2 || amount == 3),
        _ => panic!("expected a heal pickup"),
    }
    let key = world.map.get_index(3, 3);
    assert_eq!(world.map.item_map.get(&key), Some(&Entity { index: 0, generation: 0 }));
}

#[test]
fn skill_drop_offers_three_cards() {
    let mut world = new_world();
    let mut engine = EventEngine::new();
    let mut rng = RandomNumberGenerator::seeded(5);
    let drop = EventType::ItemDrop { drop_type: DropType::Skill, quality: 1 };
    add_event(&mut engine, &drop, None, None, &RangeType::Single, Point::new(2, 3), false);
    drain_all(&mut world, &mut engine, &mut rng);
    match world.entities[0].pickup {
        Some(Pickup::SkillChoice { first, second, third }) => {
            for c in [first, second, third] {
                assert!(c != AttackType::Punch);
            }
        },
        _ => panic!("expected a skill pickup"),
    }
}

#[test]
fn visual_drain_stops_at_first_gameplay_event() {
    let mut world = new_world();
    let mut engine = EventEngine::new();
    let mut rng = RandomNumberGenerator::seeded(5);
    add_event(&mut engine, &EventType::Damage { amount: 1 }, None, None, &RangeType::Single, Point::new(1, 1), false);
    card_combat::add_particle_event(&mut engine, Point::new(2, 2), ParticleKind::Hit, 600);
    card_combat::add_particle_event(&mut engine, Point::new(3, 3), ParticleKind::Hit, 600);
    assert!(!process_stack_visual_only(&mut world, &mut engine, &mut rng));
    assert_eq!(world.particles.len(), 2);
    assert_eq!(engine.stack.len(), 1);
    drain_all(&mut world, &mut engine, &mut rng);
    assert!(process_stack_visual_only(&mut world, &mut engine, &mut rng));
}

#[test]
fn attack_system_queues_events_per_trait() {
    let mut world = World::new(open_map(10, 10), Entity { index: 0, generation: 0 });
    let mut engine = EventEngine::new();
    let mut deck = Deck::new(vec![AttackType::Sweep, AttackType::Stun]);
    let player = fighter(&mut world, 2, 2, 5);
    let pusher = fighter(&mut world, 6, 6, 5);
    world.entities[player.index].attack_intent = Some(get_attack_intent(&AttackType::Ponder, Point::new(2, 2), None));
    world.entities[pusher.index].attack_intent = Some(get_attack_intent(&AttackType::Push, Point::new(6, 7), None));
    run_attack_system(&mut world, &mut engine, &mut deck);
    assert_eq!(deck.hand, vec![AttackType::Stun, AttackType::Sweep]);
    assert_eq!(engine.stack.len(), 1);
    assert_eq!(engine.stack[0].event_type, EventType::Push { source_pos: Point::new(6, 6), amount: 2 });
    assert_eq!(engine.stack[0].target_tiles, vec![Point::new(6, 7)]);
    assert!(world.entities.iter().all(|d| d.attack_intent.is_none()));
}

#[test]
fn queue_attack_damage_and_heal() {
    let mut world = World::new(open_map(10, 10), Entity { index: 5, generation: 0 });
    let mut engine = EventEngine::new();
    let mut deck = Deck::new(vec![]);
    let a = fighter(&mut world, 2, 2, 5);
    world.entities[a.index].health = Some(Health { current: 3, max: 5 });
    let intent = AttackIntent { main: AttackType::Sweep, modifier: None, loc: Point::new(3, 3) };
    queue_attack(&mut world, &mut engine, &mut deck, a, intent);
    assert_eq!(engine.stack.len(), 1);
    assert_eq!(engine.stack[0].event_type, EventType::Damage { amount: 1 });
    assert!(engine.stack[0].invokes_reaction);
    assert_eq!(engine.stack[0].target_tiles.len(), 9);
    assert_eq!(hp(&world, a), 3);
    assert!(deck.hand.is_empty());
}

#[test]
fn stale_reference_is_not_live() {
    let mut world = new_world();
    let a = fighter(&mut world, 2, 2, 5);
    assert!(world.is_live(a));
    world.despawn(a);
    assert!(!world.is_live(a));
    assert!(world.get(a).is_none());
    let fresh = Entity { index: a.index, generation: a.generation + 1 };
    assert!(!world.is_live(fresh));
}

#[test]
fn movement_system_steps_onto_free_tiles_in_slot_order() {
    let mut world = new_world();
    let a = fighter(&mut world, 1, 1, 5);
    let b = fighter(&mut world, 3, 1, 5);
    let c = fighter(&mut world, 5, 5, 5);
    world.entities[a.index].move_intent = Some(Point::new(2, 1));
    world.entities[b.index].move_intent = Some(Point::new(2, 1));
    world.entities[c.index].move_intent = Some(Point::new(10, 5));
    card_combat::run_movement_system(&mut world);
    assert_eq!(pos(&world, a), Point::new(2, 1));
    assert_eq!(pos(&world, b), Point::new(3, 1));
    assert_eq!(pos(&world, c), Point::new(5, 5));
    assert!(!world.map.blocked_tiles[world.map.get_index(1, 1)]);
    assert!(world.map.blocked_tiles[world.map.get_index(2, 1)]);
    assert!(world.entities.iter().all(|d| d.move_intent.is_none()));
}
