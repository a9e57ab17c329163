//! A turn-based tactical combat core: an event stack whose events resolve
//! against a small entity store, with reaction windows and contested
//! resolution of colliding attacks.

mod geometry;
mod range_type;
mod move_type;
mod rng;
mod deck;
mod components;
mod map;
mod world;
mod event_type;
mod events;
mod arbiter;
mod dispatch;
mod attack;
mod text;
mod player;
mod spawner;
mod movement;
pub mod laws;

pub use geometry::Point;
pub use range_type::{RangeType, resolve_range_at};
pub use move_type::{
    AttackIntent, AttackTiming, AttackTrait, AttackType, get_attack_guard, get_attack_intent,
    get_attack_name, get_attack_power, get_attack_range, get_attack_shape, get_attack_speed,
    get_attack_timing, get_attack_traits, get_intent_guard, get_intent_name, get_intent_power,
    get_intent_speed, get_intent_traits, is_attack_valid,
};
pub use deck::{Deck, HAND_LIMIT, attack_type_for_roll, attack_type_table};
pub use components::{
    BlockAttack, CanActFlag, CardRequest, Entity, EntityData, Health, IntentData, IntentRolls,
    ParticleKind, ParticleRequest, Pickup, Schedulable,
};
pub use map::{GameMap, TileType};
pub use world::{
    World, contains_point, current_active_card_count, entity_can_react, get_affected_entities,
};
pub use event_type::{
    DropRolls, DropType, EventType, PARTICLE_HIT_LIFETIME_MS, PARTICLE_HIT_SYMBOL, draw_drop_rolls, resolve,
    resolve_damage, resolve_drop, resolve_movement, resolve_particle, resolve_push,
};
pub use events::{Event, EventEngine, add_damage_event, add_event, add_particle_event};
pub use arbiter::{
    ATK_SPD_BONUS, ContestRolls, DEF_GUARD_BONUS, GUARD_ROLL_RANGE, SPEED_ROLL_RANGE, check_interrupt,
    compare_speed,
};
pub use dispatch::{
    HIT_PAUSE_MS, RunState, StepKind, process_event, process_next, process_stack, process_stack_visual_only,
    resolve_contest,
};
pub use attack::{queue_attack, run_attack_system};
pub use text::{format_roll_bonuses, pluralize};
pub use player::{SelectionResult, counter_aim, end_turn_cleanup};
pub use spawner::{Room, Spawner};
pub use movement::run_movement_system;
