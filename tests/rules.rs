use card_combat::{
    attack_type_for_roll, attack_type_table, end_turn_cleanup, format_roll_bonuses, get_attack_guard,
    get_attack_intent, get_attack_name, get_attack_power, get_attack_range, get_attack_shape, get_attack_speed,
    get_attack_timing, get_attack_traits, get_intent_guard, get_intent_name, get_intent_power, get_intent_speed,
    get_intent_traits, is_attack_valid, pluralize, AttackTiming, AttackTrait, AttackType, CanActFlag, CardRequest,
    Deck, Entity, EntityData, GameMap, IntentRolls, Point, RangeType, Room, SelectionResult, Spawner, TileType,
    World, HAND_LIMIT,
};
use rltk::RandomNumberGenerator;

#[test]
fn move_table_values() {
    assert_eq!(get_attack_power(&AttackType::Super), 2);
    assert_eq!(get_attack_power(&AttackType::Quick), -1);
    assert_eq!(get_attack_speed(&AttackType::Quick), 4);
    assert_eq!(get_attack_guard(&AttackType::Dodge), -2);
    assert_eq!(get_attack_name(&AttackType::Ponder), "ponder");
    assert_eq!(get_attack_timing(&AttackType::Push), AttackTiming::Slow);
    assert_eq!(get_attack_timing(&AttackType::Stun), AttackTiming::Fast);
    assert!(matches!(get_attack_range(&AttackType::Dodge), RangeType::Square { size: 2 }));
    assert!(matches!(get_attack_shape(&AttackType::Sweep), RangeType::Square { size: 1 }));
    assert!(get_attack_shape(&AttackType::Quick).is_empty());
    assert_eq!(get_attack_traits(&AttackType::Push), vec![AttackTrait::Knockback { amount: 2 }]);
}

#[test]
fn intent_combines_modifier_and_main() {
    let plain = get_attack_intent(&AttackType::Punch, Point::new(1, 2), None);
    assert_eq!(get_intent_name(&plain), "punch");
    assert_eq!(get_intent_power(&plain), 1);
    let quick = get_attack_intent(&AttackType::Punch, Point::new(1, 2), Some(AttackType::Quick));
    assert_eq!(get_intent_name(&quick), "quick punch");
    assert_eq!(get_intent_power(&quick), 0);
    assert_eq!(get_intent_speed(&quick), 5);
    assert_eq!(get_intent_guard(&quick), -2);
    assert_eq!(get_intent_traits(&quick), vec![AttackTrait::Damage, AttackTrait::Modifier]);
    let supered = get_attack_intent(&AttackType::Stun, Point::new(0, 0), Some(AttackType::Super));
    assert_eq!(get_intent_power(&supered), 2);
    assert_eq!(get_intent_speed(&supered), 0);
    assert_eq!(get_intent_guard(&supered), 1);
    assert_eq!(get_intent_traits(&supered), vec![AttackTrait::Damage, AttackTrait::Modifier]);
    let pushed = get_attack_intent(&AttackType::Push, Point::new(0, 0), Some(AttackType::Quick));
    assert_eq!(get_intent_traits(&pushed), vec![AttackTrait::Knockback { amount: 2 }, AttackTrait::Modifier]);
}

#[test]
fn lone_negative_move_has_zero_power() {
    let lone = get_attack_intent(&AttackType::Quick, Point::new(0, 0), None);
    assert_eq!(get_intent_power(&lone), 0);
}

#[test]
fn power_never_drops_below_zero_with_modifier() {
    let i = get_attack_intent(&AttackType::Stun, Point::new(0, 0), Some(AttackType::Quick));
    assert_eq!(get_intent_power(&i), 0);
}

#[test]
fn attack_validity_finds_aim_tile() {
    assert_eq!(is_attack_valid(&AttackType::Punch, Point::new(5, 5), Point::new(6, 6)), Some(Point::new(6, 6)));
    assert_eq!(is_attack_valid(&AttackType::Punch, Point::new(5, 5), Point::new(7, 7)), None);
    assert_eq!(is_attack_valid(&AttackType::Sweep, Point::new(5, 5), Point::new(6, 4)), Some(Point::new(5, 5)));
    assert_eq!(is_attack_valid(&AttackType::Super, Point::new(5, 5), Point::new(5, 5)), None);
}

#[test]
fn card_table_rolls() {
    assert_eq!(attack_type_for_roll(0), AttackType::Sweep);
    assert_eq!(attack_type_for_roll(5), AttackType::Dodge);
    assert_eq!(attack_type_for_roll(6), AttackType::Dodge);
    assert_eq!(attack_type_for_roll(7), AttackType::Ponder);
    assert_eq!(attack_type_for_roll(8), AttackType::Punch);
    let mut rng = RandomNumberGenerator::seeded(9);
    for _ in 0..20 {
        assert!(attack_type_table(&mut rng) != AttackType::Punch);
    }
}

#[test]
fn deck_draws_from_top_and_respects_hand_limit() {
    let mut deck = Deck::new(vec![AttackType::Punch, AttackType::Dodge, AttackType::Stun]);
    deck.draw();
    assert_eq!(deck.hand, vec![AttackType::Stun]);
    assert_eq!(deck.cards_remaining(), 2);
    let mut big = Deck::new(vec![AttackType::Punch; 10]);
    for _ in 0..10 {
        big.draw();
    }
    assert_eq!(big.hand.len(), HAND_LIMIT);
    assert_eq!(big.cards_remaining(), 3);
}

#[test]
fn deck_discards_selected_card() {
    let mut deck = Deck::new(vec![AttackType::Punch, AttackType::Dodge]);
    deck.draw();
    deck.draw();
    deck.selected = 0;
    deck.discard_selected();
    assert_eq!(deck.hand, vec![AttackType::Punch]);
    assert_eq!(deck.cards_discarded(), 1);
    assert_eq!(deck.selected, -1);
    deck.selected = 4;
    deck.discard_selected();
    assert_eq!(deck.hand.len(), 1);
    assert_eq!(deck.selected, 4);
}

#[test]
fn deck_refills_from_discard_when_empty() {
    let mut deck = Deck::new(vec![AttackType::Sweep]);
    deck.add(AttackType::Stun);
    deck.draw();
    deck.draw();
    deck.selected = 1;
    deck.discard_selected();
    deck.selected = 0;
    deck.discard_selected();
    assert_eq!(deck.cards_remaining(), 0);
    assert_eq!(deck.cards_discarded(), 2);
    deck.draw();
    assert_eq!(deck.hand.len(), 1);
    assert_eq!(deck.cards_remaining(), 1);
    assert_eq!(deck.cards_discarded(), 0);
    let mut all = vec![deck.hand[0], deck.cards[0]];
    all.sort_by_key(|c| get_attack_name(c));
    assert_eq!(all, vec![AttackType::Stun, AttackType::Sweep]);
    let mut empty = Deck::new(vec![]);
    empty.draw();
    assert!(empty.hand.is_empty());
}

#[test]
fn starting_hand_has_five_cards() {
    let mut rng = RandomNumberGenerator::seeded(1);
    let deck = Deck::new_starting_hand(&mut rng);
    assert_eq!(deck.cards.len(), 5);
    assert_eq!(&deck.cards[0..3], &[AttackType::Punch, AttackType::Punch, AttackType::Dodge]);
}

#[test]
fn pluralize_counts() {
    assert_eq!(pluralize("card".to_string(), 1), "1 card");
    assert_eq!(pluralize("card".to_string(), 3), "3 cards");
    assert_eq!(pluralize("card".to_string(), 0), "0 cards");
    assert_eq!(pluralize("card".to_string(), -12), "-12 cards");
    assert_eq!(pluralize("card".to_string(), 1070), "1070 cards");
    assert_eq!(pluralize("card".to_string(), i32::MIN), "-2147483648 cards");
    assert_eq!(pluralize("card".to_string(), i32::MAX), "2147483647 cards");
}

#[test]
fn roll_bonuses_by_side() {
    let rolls = IntentRolls { atk_speed: 1, def_speed: 2, def_guard: 3, atk_power: 4, attacker_first: true };
    let attacker = ("+4".to_string(), "+1".to_string(), " 0".to_string());
    let defender = (" 0".to_string(), "+2".to_string(), "+3".to_string());
    assert_eq!(format_roll_bonuses(rolls, true, true), attacker);
    assert_eq!(format_roll_bonuses(rolls, true, false), defender);
    assert_eq!(format_roll_bonuses(rolls, false, true), defender);
    assert_eq!(format_roll_bonuses(rolls, false, false), attacker);
}

fn floor_map() -> GameMap {
    let mut map = GameMap::new(6, 4, 1);
    for t in map.tiles.iter_mut() {
        *t = TileType::Floor;
    }
    map.tiles[0] = TileType::Wall;
    map.set_blocked_tiles();
    map
}

#[test]
fn map_indexing_and_blocking() {
    let map = floor_map();
    assert_eq!(map.get_index(2, 3), 20);
    assert_eq!(map.point2d_to_index(Point::new(5, 0)), 5);
    assert!(map.blocked_tiles[0]);
    assert!(!map.blocked_tiles[1]);
    assert!(map.in_bounds(Point::new(5, 3)));
    assert!(!map.in_bounds(Point::new(6, 0)));
    assert!(!map.in_bounds(Point::new(0, -1)));
    assert!(map.is_exit_valid(1, 1));
    assert!(!map.is_exit_valid(0, 1));
}

#[test]
fn map_tracks_items_and_creatures() {
    let mut map = floor_map();
    let a = Entity { index: 1, generation: 0 };
    let b = Entity { index: 2, generation: 0 };
    assert!(map.track_item(a, Point::new(1, 1)));
    assert!(!map.track_item(b, Point::new(1, 1)));
    assert_eq!(map.untrack_item(Point::new(1, 1)), Some(a));
    assert_eq!(map.untrack_item(Point::new(1, 1)), None);
    assert!(map.track_creature(a, Point::new(2, 2)));
    assert!(map.blocked_tiles[map.get_index(2, 2)]);
    assert!(!map.track_creature(b, Point::new(2, 2)));
    assert!(map.move_creature(a, Point::new(2, 2), Point::new(3, 2)));
    assert!(!map.blocked_tiles[map.get_index(2, 2)]);
    assert!(map.blocked_tiles[map.get_index(3, 2)]);
    assert!(map.track_creature(b, Point::new(4, 2)));
    assert!(!map.move_creature(a, Point::new(3, 2), Point::new(4, 2)));
    assert_eq!(map.untrack_creature(Point::new(3, 2)), Some(a));
    assert!(!map.blocked_tiles[map.get_index(3, 2)]);
}

#[test]
fn end_turn_clears_rights_and_cards() {
    let mut world = World::new(floor_map(), Entity { index: 0, generation: 0 });
    let mut d = EntityData::bare();
    d.can_act = Some(CanActFlag { is_reaction: false, reaction_target: None });
    d.can_react = true;
    let e = world.spawn(d);
    world.cards.push(CardRequest {
        attack_intent: get_attack_intent(&AttackType::Punch, Point::new(1, 1), None),
        source: None,
        offset: 0,
        affected: vec![Point::new(1, 1)],
    });
    end_turn_cleanup(&mut world);
    assert!(world.entities[e.index].can_act.is_none());
    assert!(world.entities[e.index].can_react);
    assert!(world.cards.is_empty());
}

#[test]
fn spawner_claims_free_tiles_inside_room() {
    let mut blocked = vec![false; 100];
    blocked[55] = true;
    let mut spawner = Spawner::new(blocked, 44, 10);
    let mut rng = RandomNumberGenerator::seeded(4);
    let room = Room { x1: 2, y1: 2, x2: 8, y2: 8 };
    let points = spawner.build(&mut rng, room, 3, 6);
    assert!(points.len() < 6);
    for p in &points {
        assert!(p.x > 2 && p.x < 8 && p.y > 2 && p.y < 8);
        let idx = (p.y * 10 + p.x) as usize;
        assert!(idx != 44 && idx != 55);
        assert!(spawner.blocked_tiles[idx]);
    }
    assert!(spawner.can_spawn_at(0));
    assert!(!spawner.can_spawn_at(44));
    assert!(!spawner.can_spawn_at(55));
    assert!(!spawner.can_spawn_at(100));
}

#[test]
fn selection_results_compare() {
    assert_eq!(SelectionResult::Selected, SelectionResult::Selected);
    assert_ne!(SelectionResult::Canceled, SelectionResult::NoResponse);
}

#[test]
fn card_table_draws_vary() {
    let mut rng = RandomNumberGenerator::seeded(21);
    let first = attack_type_table(&mut rng);
    let mut varied = false;
    for _ in 0..40 {
        if attack_type_table(&mut rng) != first {
            varied = true;
        }
    }
    assert!(varied);
}

#[test]
fn refill_shuffles_discard_pile() {
    let order = vec![
        AttackType::Sweep,
        AttackType::Punch,
        AttackType::Super,
        AttackType::Stun,
        AttackType::Quick,
        AttackType::Push,
        AttackType::Dodge,
        AttackType::Ponder,
    ];
    let mut reordered = false;
    for _ in 0..3 {
        let mut deck = Deck::new(vec![]);
        deck.discard = order.clone();
        deck.draw();
        assert_eq!(deck.hand.len(), 1);
        assert_eq!(deck.cards.len(), 7);
        let mut seen = deck.cards.clone();
        seen.push(deck.hand[0]);
        let mut names: Vec<String> = seen.iter().map(|c| get_attack_name(c)).collect();
        names.sort();
        let mut expected: Vec<String> = order.iter().map(|c| get_attack_name(c)).collect();
        expected.sort();
        assert_eq!(names, expected);
        if seen != order {
            reordered = true;
        }
    }
    assert!(reordered);
}

#[test]
fn only_fast_cards_that_reach_may_counter() {
    assert_eq!(card_combat::counter_aim(&AttackType::Punch, Point::new(5, 5), Point::new(6, 5)), Some(Point::new(6, 5)));
    assert_eq!(card_combat::counter_aim(&AttackType::Punch, Point::new(5, 5), Point::new(8, 5)), None);
    assert_eq!(card_combat::counter_aim(&AttackType::Push, Point::new(5, 5), Point::new(6, 5)), None);
    assert_eq!(card_combat::counter_aim(&AttackType::Super, Point::new(5, 5), Point::new(5, 5)), None);
}
