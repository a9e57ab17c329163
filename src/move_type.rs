use vstd::prelude::*;
use vstd::string::*;
use crate::geometry::Point;
use crate::geometry::chebyshev;
use crate::range_type::{RangeType, range_tiles, range_fits, resolve_range_at, lemma_square_tile_near, square_side};

verus! {

/// The moves a combatant can play.
#[derive(Clone, Copy, Debug, PartialEq, Eq, Structural)]
pub enum AttackType {
    Sweep,
    Punch,
    Super,
    Stun,
    Quick,
    Push,
    Dodge,
    Ponder,
}

#[derive(Clone, Copy, Debug, PartialEq, Eq, Structural)]
pub enum AttackTiming {
    Slow,
    Fast,
}

/// What a move does once it resolves.
#[derive(Clone, Copy, Debug, PartialEq, Eq, Structural)]
pub enum AttackTrait {
    Damage,
    Knockback { amount: i32 },
    Movement,
    Modifier,
    Draw { amount: i32 },
    Heal { amount: i32 },
    Equipment,
}

/// A main move, an optional modifier played before it, and the tile aimed at.
#[derive(Clone, Copy, Debug, PartialEq, Eq, Structural)]
pub struct AttackIntent {
    pub main: AttackType,
    pub modifier: Option<AttackType>,
    pub loc: Point,
}

pub open spec fn attack_range_of(a: AttackType) -> RangeType {
    match a {
        AttackType::Sweep => RangeType::Single,
        AttackType::Punch => RangeType::Square { size: 1 },
        AttackType::Super => RangeType::Empty,
        AttackType::Stun => RangeType::Square { size: 1 },
        AttackType::Quick => RangeType::Empty,
        AttackType::Push => RangeType::Square { size: 1 },
        AttackType::Dodge => RangeType::Square { size: 2 },
        AttackType::Ponder => RangeType::Empty,
    }
}

pub open spec fn attack_shape_of(a: AttackType) -> RangeType {
    match a {
        AttackType::Sweep => RangeType::Square { size: 1 },
        AttackType::Punch => RangeType::Single,
        AttackType::Super => RangeType::Empty,
        AttackType::Stun => RangeType::Single,
        AttackType::Quick => RangeType::Empty,
        AttackType::Push => RangeType::Single,
        AttackType::Dodge => RangeType::Single,
        AttackType::Ponder => RangeType::Empty,
    }
}

pub open spec fn attack_power_of(a: AttackType) -> int {
    match a {
        AttackType::Sweep => 1,
        AttackType::Punch => 1,
        AttackType::Super => 2,
        AttackType::Stun => 0,
        AttackType::Quick => -1,
        AttackType::Push => 0,
        AttackType::Dodge => 0,
        AttackType::Ponder => 0,
    }
}

pub open spec fn attack_speed_of(a: AttackType) -> int {
    match a {
        AttackType::Sweep => 0,
        AttackType::Punch => 1,
        AttackType::Super => -2,
        AttackType::Stun => 2,
        AttackType::Quick => 4,
        AttackType::Push => 0,
        AttackType::Dodge => 2,
        AttackType::Ponder => 0,
    }
}

pub open spec fn attack_guard_of(a: AttackType) -> int {
    match a {
        AttackType::Sweep => 0,
        AttackType::Punch => 0,
        AttackType::Super => 1,
        AttackType::Stun => 0,
        AttackType::Quick => -2,
        AttackType::Push => 0,
        AttackType::Dodge => -2,
        AttackType::Ponder => 0,
    }
}

pub open spec fn attack_name_of(a: AttackType) -> Seq<char> {
    match a {
        AttackType::Sweep => "sweep"@,
        AttackType::Punch => "punch"@,
        AttackType::Super => "super"@,
        AttackType::Stun => "stun"@,
        AttackType::Quick => "quick"@,
        AttackType::Push => "push"@,
        AttackType::Dodge => "dodge"@,
        AttackType::Ponder => "ponder"@,
    }
}

pub open spec fn attack_timing_of(a: AttackType) -> AttackTiming {
    match a {
        AttackType::Sweep => AttackTiming::Fast,
        AttackType::Punch => AttackTiming::Fast,
        AttackType::Super => AttackTiming::Slow,
        AttackType::Stun => AttackTiming::Fast,
        AttackType::Quick => AttackTiming::Slow,
        AttackType::Push => AttackTiming::Slow,
        AttackType::Dodge => AttackTiming::Fast,
        AttackType::Ponder => AttackTiming::Slow,
    }
}

pub open spec fn attack_traits_of(a: AttackType) -> Seq<AttackTrait> {
    match a {
        AttackType::Sweep => seq![AttackTrait::Damage],
        AttackType::Punch => seq![AttackTrait::Damage],
        AttackType::Super => seq![AttackTrait::Damage, AttackTrait::Modifier],
        AttackType::Stun => seq![AttackTrait::Damage],
        AttackType::Quick => seq![AttackTrait::Modifier],
        AttackType::Push => seq![AttackTrait::Knockback { amount: 2 }],
        AttackType::Dodge => seq![AttackTrait::Movement],
        AttackType::Ponder => seq![AttackTrait::Draw { amount: 2 }],
    }
}

/// Where a move can be aimed from.
pub fn get_attack_range(attack_type: &AttackType) -> (r: RangeType)
    ensures
        r == attack_range_of(*attack_type),
{
    match attack_type {
        AttackType::Sweep => RangeType::Single,
        AttackType::Punch => RangeType::Square { size: 1 },
        AttackType::Super => RangeType::Empty,
        AttackType::Stun => RangeType::Square { size: 1 },
        AttackType::Quick => RangeType::Empty,
        AttackType::Push => RangeType::Square { size: 1 },
        AttackType::Dodge => RangeType::Square { size: 2 },
        AttackType::Ponder => RangeType::Empty,
    }
}

/// The area a move affects once aimed.
pub fn get_attack_shape(attack_type: &AttackType) -> (r: RangeType)
    ensures
        r == attack_shape_of(*attack_type),
{
    match attack_type {
        AttackType::Sweep => RangeType::Square { size: 1 },
        AttackType::Punch => RangeType::Single,
        AttackType::Super => RangeType::Empty,
        AttackType::Stun => RangeType::Single,
        AttackType::Quick => RangeType::Empty,
        AttackType::Push => RangeType::Single,
        AttackType::Dodge => RangeType::Single,
        AttackType::Ponder => RangeType::Empty,
    }
}

pub fn get_attack_power(attack_type: &AttackType) -> (r: i32)
    ensures
        r == attack_power_of(*attack_type),
{
    match attack_type {
        AttackType::Sweep => 1,
        AttackType::Punch => 1,
        AttackType::Super => 2,
        AttackType::Stun => 0,
        AttackType::Quick => -1,
        AttackType::Push => 0,
        AttackType::Dodge => 0,
        AttackType::Ponder => 0,
    }
}

pub fn get_attack_speed(attack_type: &AttackType) -> (r: i32)
    ensures
        r == attack_speed_of(*attack_type),
{
    match attack_type {
        AttackType::Sweep => 0,
        AttackType::Punch => 1,
        AttackType::Super => -2,
        AttackType::Stun => 2,
        AttackType::Quick => 4,
        AttackType::Push => 0,
        AttackType::Dodge => 2,
        AttackType::Ponder => 0,
    }
}

pub fn get_attack_guard(attack_type: &AttackType) -> (r: i32)
    ensures
        r == attack_guard_of(*attack_type),
{
    match attack_type {
        AttackType::Sweep => 0,
        AttackType::Punch => 0,
        AttackType::Super => 1,
        AttackType::Stun => 0,
        AttackType::Quick => -2,
        AttackType::Push => 0,
        AttackType::Dodge => -2,
        AttackType::Ponder => 0,
    }
}

pub fn get_attack_name(attack_type: &AttackType) -> (r: String)
    ensures
        r@ == attack_name_of(*attack_type),
{
    let name = match attack_type {
        AttackType::Sweep => "sweep",
        AttackType::Punch => "punch",
        AttackType::Super => "super",
        AttackType::Stun => "stun",
        AttackType::Quick => "quick",
        AttackType::Push => "push",
        AttackType::Dodge => "dodge",
        AttackType::Ponder => "ponder",
    };
    String::from_str(name)
}

pub fn get_attack_timing(attack_type: &AttackType) -> (r: AttackTiming)
    ensures
        r == attack_timing_of(*attack_type),
{
    match attack_type {
        AttackType::Sweep => AttackTiming::Fast,
        AttackType::Punch => AttackTiming::Fast,
        AttackType::Super => AttackTiming::Slow,
        AttackType::Stun => AttackTiming::Fast,
        AttackType::Quick => AttackTiming::Slow,
        AttackType::Push => AttackTiming::Slow,
        AttackType::Dodge => AttackTiming::Fast,
        AttackType::Ponder => AttackTiming::Slow,
    }
}

pub fn get_attack_traits(attack_type: &AttackType) -> (r: Vec<AttackTrait>)
    ensures
        r@ == attack_traits_of(*attack_type),
{
    let r = match attack_type {
        AttackType::Sweep => vec![AttackTrait::Damage],
        AttackType::Punch => vec![AttackTrait::Damage],
        AttackType::Super => vec![AttackTrait::Damage, AttackTrait::Modifier],
        AttackType::Stun => vec![AttackTrait::Damage],
        AttackType::Quick => vec![AttackTrait::Modifier],
        AttackType::Push => vec![AttackTrait::Knockback { amount: 2 }],
        AttackType::Dodge => vec![AttackTrait::Movement],
        AttackType::Ponder => vec![AttackTrait::Draw { amount: 2 }],
    };
    assert(r@ =~= attack_traits_of(*attack_type));
    r
}

/// Bundles a move, the tile it is aimed at and an optional modifier.
pub fn get_attack_intent(attack_type: &AttackType, loc: Point, attack_modifier: Option<AttackType>) -> (r:
    AttackIntent)
    ensures
        r == (AttackIntent { main: *attack_type, modifier: attack_modifier, loc }),
{
    AttackIntent { main: *attack_type, modifier: attack_modifier, loc }
}

pub open spec fn intent_name(i: AttackIntent) -> Seq<char> {
    match i.modifier {
        None => attack_name_of(i.main),
        Some(m) => attack_name_of(m) + " "@ + attack_name_of(i.main),
    }
}

pub open spec fn intent_power(i: AttackIntent) -> int {
    match i.modifier {
        None => {
            let p = attack_power_of(i.main);
            if p > 0 { p } else { 0 }
        },
        Some(m) => {
            let p = attack_power_of(i.main) + attack_power_of(m);
            if p > 0 { p } else { 0 }
        },
    }
}

pub open spec fn intent_speed(i: AttackIntent) -> int {
    match i.modifier {
        None => attack_speed_of(i.main),
        Some(m) => attack_speed_of(i.main) + attack_speed_of(m),
    }
}

pub open spec fn intent_guard(i: AttackIntent) -> int {
    match i.modifier {
        None => attack_guard_of(i.main),
        Some(m) => attack_guard_of(i.main) + attack_guard_of(m),
    }
}

/// `a` followed by the items of `b` it does not hold yet, each once.
pub open spec fn trait_union(a: Seq<AttackTrait>, b: Seq<AttackTrait>) -> Seq<AttackTrait>
    decreases b.len(),
{
    if b.len() == 0 {
        a
    } else {
        let u = trait_union(a, b.drop_last());
        if u.contains(b.last()) {
            u
        } else {
            u.push(b.last())
        }
    }
}

pub open spec fn intent_traits(i: AttackIntent) -> Seq<AttackTrait> {
    match i.modifier {
        None => attack_traits_of(i.main),
        Some(m) => trait_union(attack_traits_of(i.main), attack_traits_of(m)),
    }
}

/// "modifier main" when a modifier is present, else the main move's name.
pub fn get_intent_name(intent: &AttackIntent) -> (r: String)
    ensures
        r@ == intent_name(*intent),
{
    let main = get_attack_name(&intent.main);
    match intent.modifier {
        None => main,
        Some(m) => {
            let mut r = get_attack_name(&m);
            r.append(" ");
            r.append(main.as_str());
            r
        },
    }
}

pub fn get_intent_power(intent: &AttackIntent) -> (r: i32)
    ensures
        r == intent_power(*intent),
{
    let p = get_attack_power(&intent.main);
    match intent.modifier {
        None => {
            if p > 0 {
                p
            } else {
                0
            }
        },
        Some(m) => {
            let sum = p + get_attack_power(&m);
            if sum > 0 {
                sum
            } else {
                0
            }
        },
    }
}

pub fn get_intent_speed(intent: &AttackIntent) -> (r: i32)
    ensures
        r == intent_speed(*intent),
        -4 <= r <= 8,
{
    let s = get_attack_speed(&intent.main);
    match intent.modifier {
        None => s,
        Some(m) => s + get_attack_speed(&m),
    }
}

pub fn get_intent_guard(intent: &AttackIntent) -> (r: i32)
    ensures
        r == intent_guard(*intent),
        -4 <= r <= 2,
{
    let g = get_attack_guard(&intent.main);
    match intent.modifier {
        None => g,
        Some(m) => g + get_attack_guard(&m),
    }
}

fn contains_trait(v: &Vec<AttackTrait>, t: AttackTrait) -> (r: bool)
    ensures
        r == v@.contains(t),
{
    let mut i: usize = 0;
    while i < v.len()
        invariant
            i <= v@.len(),
            forall|j: int| 0 <= j < i ==> v@[j] != t,
        decreases v@.len() - i,
    {
        if v[i] == t {
            return true;
        }
        i = i + 1;
    }
    false
}

/// The traits of the main move, then those of the modifier that are new.
pub fn get_intent_traits(intent: &AttackIntent) -> (r: Vec<AttackTrait>)
    ensures
        r@ == intent_traits(*intent),
{
    let mut x = get_attack_traits(&intent.main);
    match intent.modifier {
        None => x,
        Some(m) => {
            let y = get_attack_traits(&m);
            let ghost base = x@;
            let mut i: usize = 0;
            while i < y.len()
                invariant
                    i <= y@.len(),
                    x@ == trait_union(base, y@.take(i as int)),
                decreases y@.len() - i,
            {
                let item = y[i];
                assert(y@.take(i + 1).drop_last() =~= y@.take(i as int));
                if !contains_trait(&x, item) {
                    x.push(item);
                }
                i = i + 1;
            }
            assert(y@.take(y@.len() as int) =~= y@);
            x
        },
    }
}

/// The shapes of a move can be laid anywhere within three tiles of `p`.
pub open spec fn attack_fits_at(p: Point) -> bool {
    i32::MIN + 4 <= p.x <= i32::MAX - 4 && i32::MIN + 4 <= p.y <= i32::MAX - 4
}

fn contains_point(v: &Vec<Point>, p: Point) -> (r: bool)
    ensures
        r == v@.contains(p),
{
    let mut i: usize = 0;
    while i < v.len()
        invariant
            i <= v@.len(),
            forall|j: int| 0 <= j < i ==> v@[j] != p,
        decreases v@.len() - i,
    {
        if v[i] == p {
            return true;
        }
        i = i + 1;
    }
    false
}

/// The first tile in reach from `from` whose affected area holds `target`.
pub open spec fn first_valid_tile(a: AttackType, tiles: Seq<Point>, target: Point, i: int) -> Option<Point>
    decreases tiles.len() - i,
{
    if i >= tiles.len() || i < 0 {
        None
    } else if range_tiles(attack_shape_of(a), tiles[i]).contains(target) {
        Some(tiles[i])
    } else {
        first_valid_tile(a, tiles, target, i + 1)
    }
}

pub proof fn lemma_small_square_fits()
    ensures
        square_side(1) * square_side(1) == 9,
        square_side(2) * square_side(2) == 25,
{
    let a = square_side(1);
    let b = square_side(2);
    assert(a == 3 && b == 5);
    assert(a * a == 9 && b * b == 25) by (nonlinear_arith)
        requires
            a == 3,
            b == 5,
    ;
}

/// Checks whether a move played from `from_point` can hit `target`; returns the tile to aim at.
pub fn is_attack_valid(attack_type: &AttackType, from_point: Point, target: Point) -> (r: Option<Point>)
    requires
        attack_fits_at(from_point),
    ensures
        r == first_valid_tile(*attack_type, range_tiles(attack_range_of(*attack_type), from_point), target, 0),
{
    let range_type = get_attack_range(attack_type);
    let shape = get_attack_shape(attack_type);
    assert(range_fits(range_type, from_point)) by {
        lemma_small_square_fits();
    }
    let tiles = resolve_range_at(&range_type, from_point);
    let ghost all = tiles@;
    assert forall|k: int| 0 <= k < all.len() implies chebyshev(from_point, #[trigger] all[k]) <= 2 by {
        match range_type {
            RangeType::Square { size } => {
                lemma_square_tile_near(from_point, size as int, k);
            },
            _ => {},
        }
    }
    let mut i: usize = 0;
    while i < tiles.len()
        invariant
            tiles@ == all,
            all == range_tiles(attack_range_of(*attack_type), from_point),
            shape == attack_shape_of(*attack_type),
            attack_fits_at(from_point),
            i <= all.len(),
            first_valid_tile(*attack_type, all, target, 0) == first_valid_tile(*attack_type, all, target, i as int),
            forall|k: int| 0 <= k < all.len() ==> chebyshev(from_point, #[trigger] all[k]) <= 2,
        decreases all.len() - i,
    {
        let tile = tiles[i];
        assert(range_fits(shape, tile)) by {
            lemma_small_square_fits();
        }
        let affected = resolve_range_at(&shape, tile);
        if contains_point(&affected, target) {
            return Some(tile);
        }
        i = i + 1;
    }
    None
}

} // verus!
