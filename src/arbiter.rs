use vstd::prelude::*;
use crate::move_type::{AttackIntent, intent_guard, intent_speed, get_intent_guard, get_intent_speed};

verus! {

/// Flat speed bonus of the side that initiated the attack.
pub const ATK_SPD_BONUS: i32 = 0;

/// Flat guard bonus of a defender that lost the speed roll.
pub const DEF_GUARD_BONUS: i32 = 1;

/// Speed rolls are drawn from `0..SPEED_ROLL_RANGE`.
pub const SPEED_ROLL_RANGE: i32 = 6;

/// Guard and power rolls are drawn from `0..GUARD_ROLL_RANGE`.
pub const GUARD_ROLL_RANGE: i32 = 6;

/// The dice of one contest.
#[derive(Clone, Copy, Debug, PartialEq, Eq, Structural)]
pub struct ContestRolls {
    pub atk_speed: i32,
    pub def_speed: i32,
    pub def_guard: i32,
    pub atk_power: i32,
}

pub open spec fn contest_rolls_ok(r: ContestRolls) -> bool {
    &&& 0 <= r.atk_speed < SPEED_ROLL_RANGE
    &&& 0 <= r.def_speed < SPEED_ROLL_RANGE
    &&& 0 <= r.def_guard < GUARD_ROLL_RANGE
    &&& 0 <= r.atk_power < GUARD_ROLL_RANGE
}

pub open spec fn attacker_total(atk: AttackIntent, r: ContestRolls) -> int {
    intent_speed(atk) + r.atk_speed + ATK_SPD_BONUS
}

pub open spec fn defender_total(def: AttackIntent, r: ContestRolls) -> int {
    intent_speed(def) + r.def_speed
}

/// Attacker's speed total minus the defender's.
pub open spec fn speed_diff(atk: AttackIntent, def: AttackIntent, r: ContestRolls) -> int {
    attacker_total(atk, r) - defender_total(def, r)
}

/// The attacker resolves first unless the defender is strictly faster.
pub open spec fn attacker_first(atk: AttackIntent, def: AttackIntent, r: ContestRolls) -> bool {
    speed_diff(atk, def, r) >= 0
}

/// Guard of the side that resolves second; it gets the bonus when it is the defender.
pub open spec fn second_guard(atk: AttackIntent, def: AttackIntent, r: ContestRolls) -> int {
    if attacker_first(atk, def, r) {
        intent_guard(def) + r.def_guard + DEF_GUARD_BONUS
    } else {
        intent_guard(atk) + r.def_guard
    }
}

pub open spec fn stun_power(atk: AttackIntent, def: AttackIntent, r: ContestRolls) -> int {
    let d = speed_diff(atk, def, r);
    (if d >= 0 { d } else { -d }) + r.atk_power
}

/// A damaging first mover stuns the second when its power beats the second's guard.
pub open spec fn interrupts(atk: AttackIntent, def: AttackIntent, r: ContestRolls) -> bool {
    stun_power(atk, def, r) > second_guard(atk, def, r)
}

/// Compares the two sides' speed; positive or zero means the attacker goes first.
pub fn compare_speed(atk: &AttackIntent, def: &AttackIntent, rolls: &ContestRolls) -> (r: i32)
    requires
        contest_rolls_ok(*rolls),
    ensures
        r == speed_diff(*atk, *def, *rolls),
{
    let atk_speed = get_intent_speed(atk) + rolls.atk_speed + ATK_SPD_BONUS;
    let def_speed = get_intent_speed(def) + rolls.def_speed;
    atk_speed - def_speed
}

/// Whether the first mover's power overcomes the second mover's guard.
pub fn check_interrupt(atk: &AttackIntent, def: &AttackIntent, rolls: &ContestRolls) -> (r: bool)
    requires
        contest_rolls_ok(*rolls),
    ensures
        r == interrupts(*atk, *def, *rolls),
{
    let speed_diff = compare_speed(atk, def, rolls);
    let def_guard = if speed_diff >= 0 {
        get_intent_guard(def) + rolls.def_guard + DEF_GUARD_BONUS
    } else {
        get_intent_guard(atk) + rolls.def_guard
    };
    let abs_diff = if speed_diff >= 0 { speed_diff } else { -speed_diff };
    let stun_power = abs_diff + rolls.atk_power;
    stun_power > def_guard
}

/// Ties go to the attacker: equal totals always let the attacker resolve first.
pub proof fn lemma_tie_goes_to_attacker(atk: AttackIntent, def: AttackIntent, r: ContestRolls)
    requires
        attacker_total(atk, r) == defender_total(def, r),
    ensures
        attacker_first(atk, def, r),
{
}

} // verus!
