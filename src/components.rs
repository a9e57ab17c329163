use vstd::prelude::*;
use crate::geometry::Point;
use crate::move_type::{AttackIntent, AttackType};

verus! {

/// A generation-checked reference to a slot of the entity store.
#[derive(Clone, Copy, Debug, PartialEq, Eq, Structural)]
pub struct Entity {
    pub index: usize,
    pub generation: u32,
}

#[derive(Clone, Copy, Debug, PartialEq, Eq, Structural)]
pub struct Health {
    pub current: i32,
    pub max: i32,
}

/// Absorbs part of the next hit, then goes away.
#[derive(Clone, Copy, Debug, PartialEq, Eq, Structural)]
pub struct BlockAttack {
    pub block_amount: u32,
}

/// The right to act; a reaction grant names whom it answers.
#[derive(Clone, Copy, Debug, PartialEq, Eq, Structural)]
pub struct CanActFlag {
    pub is_reaction: bool,
    pub reaction_target: Option<Entity>,
}

/// Turn schedule counters.
#[derive(Clone, Copy, Debug, PartialEq, Eq, Structural)]
pub struct Schedulable {
    pub current: i32,
    pub base: i32,
    pub delta: i32,
}

/// What an item on the floor gives when picked up.
#[derive(Clone, Copy, Debug, PartialEq, Eq, Structural)]
pub enum Pickup {
    Heal { amount: u32 },
    SkillChoice { first: AttackType, second: AttackType, third: AttackType },
}

/// The components of one slot of the entity store.
#[derive(Clone, Copy, Debug, PartialEq, Eq, Structural)]
pub struct EntityData {
    pub generation: u32,
    pub alive: bool,
    pub position: Option<Point>,
    pub health: Option<Health>,
    pub block: Option<BlockAttack>,
    pub can_act: Option<CanActFlag>,
    pub can_react: bool,
    pub schedule: Option<Schedulable>,
    pub attack_in_progress: bool,
    pub blocks_tile: bool,
    pub pickup: Option<Pickup>,
    /// The attack this entity has committed to and not yet queued.
    pub attack_intent: Option<AttackIntent>,
    /// The tile this entity means to step onto.
    pub move_intent: Option<Point>,
}

impl EntityData {
    /// A live slot with no components.
    pub fn bare() -> (r: EntityData)
        ensures
            r == empty_entity(),
    {
        EntityData {
            generation: 0,
            alive: true,
            position: None,
            health: None,
            block: None,
            can_act: None,
            can_react: false,
            schedule: None,
            attack_in_progress: false,
            blocks_tile: false,
            pickup: None,
            attack_intent: None,
            move_intent: None,
        }
    }
}

pub open spec fn empty_entity() -> EntityData {
    EntityData {
        generation: 0,
        alive: true,
        position: None,
        health: None,
        block: None,
        can_act: None,
        can_react: false,
        schedule: None,
        attack_in_progress: false,
        blocks_tile: false,
        pickup: None,
        attack_intent: None,
        move_intent: None,
    }
}

/// How a particle looks.
#[derive(Clone, Copy, Debug, PartialEq, Eq, Structural)]
pub enum ParticleKind {
    Hit,
}

/// A fire-and-forget request to show a particle.
#[derive(Clone, Copy, Debug, PartialEq, Eq, Structural)]
pub struct ParticleRequest {
    pub position: Point,
    pub kind: ParticleKind,
    pub symbol: u16,
    pub lifetime_ms: u32,
}

/// A matchup to show: an intent, who plays it, and the tiles it covers.
pub struct CardRequest {
    pub attack_intent: AttackIntent,
    pub source: Option<Entity>,
    pub offset: i32,
    pub affected: Vec<Point>,
}

pub struct CardView {
    pub attack_intent: AttackIntent,
    pub source: Option<Entity>,
    pub offset: i32,
    pub affected: Seq<Point>,
}

impl View for CardRequest {
    type V = CardView;

    open spec fn view(&self) -> CardView {
        CardView {
            attack_intent: self.attack_intent,
            source: self.source,
            offset: self.offset,
            affected: self.affected@,
        }
    }
}

pub open spec fn cards_view(s: Seq<CardRequest>) -> Seq<CardView> {
    s.map_values(|c: CardRequest| c@)
}

/// The dice of the last contest: the speed rolls of both sides, the
/// defender's guard roll, the attacker's power roll, and whether the
/// attacker went first.
#[derive(Clone, Copy, Debug, PartialEq, Eq, Structural)]
pub struct IntentRolls {
    pub atk_speed: i32,
    pub def_speed: i32,
    pub def_guard: i32,
    pub atk_power: i32,
    pub attacker_first: bool,
}

pub open spec fn zero_rolls() -> IntentRolls {
    IntentRolls { atk_speed: 0, def_speed: 0, def_guard: 0, atk_power: 0, attacker_first: false }
}

/// Shared display state of the last contest and of the player's intents.
#[derive(Clone, Copy, Debug, PartialEq, Eq, Structural)]
pub struct IntentData {
    pub hidden: bool,
    pub prev_incoming_intent: Option<AttackIntent>,
    pub prev_outgoing_intent: Option<AttackIntent>,
    pub rolls: IntentRolls,
}

impl IntentData {
    pub fn new() -> (r: IntentData)
        ensures
            r == (IntentData {
                hidden: true,
                prev_incoming_intent: None,
                prev_outgoing_intent: None,
                rolls: zero_rolls(),
            }),
    {
        IntentData {
            hidden: true,
            prev_incoming_intent: None,
            prev_outgoing_intent: None,
            rolls: IntentRolls { atk_speed: 0, def_speed: 0, def_guard: 0, atk_power: 0, attacker_first: false },
        }
    }
}

} // verus!
