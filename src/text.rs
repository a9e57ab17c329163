use vstd::prelude::*;
use vstd::string::*;
use crate::components::IntentRolls;

verus! {

pub open spec fn digit_char(d: int) -> char {
    if d == 0 { '0' } else if d == 1 { '1' } else if d == 2 { '2' } else if d == 3 { '3' } else if d == 4 { '4' }
    else if d == 5 { '5' } else if d == 6 { '6' } else if d == 7 { '7' } else if d == 8 { '8' } else { '9' }
}

/// The decimal digits of `n`, most significant first.
pub open spec fn digits(n: nat) -> Seq<char>
    decreases n,
{
    if n < 10 {
        seq![digit_char(n as int)]
    } else {
        digits(n / 10).push(digit_char((n % 10) as int))
    }
}

/// `n` in decimal, with a leading '-' when negative.
pub open spec fn decimal(n: int) -> Seq<char> {
    if n < 0 { seq!['-'] + digits((-n) as nat) } else { digits(n as nat) }
}

/// The text of one decimal digit.
fn digit_str(d: u64) -> (r: &'static str)
    requires
        d < 10,
    ensures
        r@ == seq![digit_char(d as int)],
{
    proof {
        reveal_strlit("0");
        reveal_strlit("1");
        reveal_strlit("2");
        reveal_strlit("3");
        reveal_strlit("4");
        reveal_strlit("5");
        reveal_strlit("6");
        reveal_strlit("7");
        reveal_strlit("8");
        reveal_strlit("9");
    }
    match d {
        0 => "0",
        1 => "1",
        2 => "2",
        3 => "3",
        4 => "4",
        5 => "5",
        6 => "6",
        7 => "7",
        8 => "8",
        _ => "9",
    }
}

/// Appends the decimal digits of `m`.
fn push_digits(r: &mut String, m: u64)
    ensures
        final(r)@ == old(r)@ + digits(m as nat),
    decreases m,
{
    if m >= 10 {
        push_digits(r, m / 10);
    }
    let ghost mid = r@;
    r.append(digit_str(m % 10));
    proof {
        if m >= 10 {
            assert(digits(m as nat) == digits((m / 10) as nat).push(digit_char((m % 10) as int)));
            assert(r@ =~= old(r)@ + digits(m as nat));
        } else {
            assert(r@ =~= old(r)@ + digits(m as nat));
        }
    }
}

/// `n` in decimal, with a leading '-' when negative.
fn int_to_string(n: i32) -> (r: String)
    ensures
        r@ == decimal(n as int),
{
    let mut r = String::new();
    if n < 0 {
        proof {
            reveal_strlit("-");
        }
        r.append("-");
        let m: u64 = (-(n as i64)) as u64;
        push_digits(&mut r, m);
        assert(r@ =~= decimal(n as int));
    } else {
        push_digits(&mut r, n as u64);
        assert(r@ =~= decimal(n as int));
    }
    r
}

/// "1 card", or "{count} cards" for any other count.
pub fn pluralize(root: String, count: i32) -> (r: String)
    ensures
        count == 1 ==> r@ == "1 "@ + root@,
        count != 1 ==> r@ == decimal(count as int) + " "@ + root@ + "s"@,
{
    if count != 1 {
        let mut r = int_to_string(count);
        r.append(" ");
        r.append(root.as_str());
        r.append("s");
        r
    } else {
        let mut r = String::from_str("1 ");
        r.append(root.as_str());
        r
    }
}

/// A '+' followed by `n` in decimal.
fn signed_bonus(n: i32) -> (r: String)
    ensures
        r@ == "+"@ + decimal(n as int),
{
    let mut r = String::from_str("+");
    let d = int_to_string(n);
    r.append(d.as_str());
    r
}

/// The power, speed and guard bonuses a side rolled, as shown beside its card:
/// the attacker has speed and power rolls, the defender speed and guard rolls.
pub open spec fn roll_bonus_text(rolls: IntentRolls, speed_check: bool, incoming: bool) -> (Seq<char>, Seq<char>, Seq<char>) {
    let attacker = ("+"@ + decimal(rolls.atk_power as int), "+"@ + decimal(rolls.atk_speed as int), " 0"@);
    let defender = (" 0"@, "+"@ + decimal(rolls.def_speed as int), "+"@ + decimal(rolls.def_guard as int));
    if speed_check == incoming { attacker } else { defender }
}

/// Formats the rolls of the last contest for one side's card.
pub fn format_roll_bonuses(rolls: IntentRolls, speed_check: bool, incoming: bool) -> (r: (String, String, String))
    ensures
        (r.0@, r.1@, r.2@) == roll_bonus_text(rolls, speed_check, incoming),
{
    let incoming_strings = (signed_bonus(rolls.atk_power), signed_bonus(rolls.atk_speed), String::from_str(" 0"));
    let outgoing_strings = (String::from_str(" 0"), signed_bonus(rolls.def_speed), signed_bonus(rolls.def_guard));
    if speed_check {
        if incoming {
            incoming_strings
        } else {
            outgoing_strings
        }
    } else {
        if incoming {
            outgoing_strings
        } else {
            incoming_strings
        }
    }
}

} // verus!
