//! Numbers in decimal.

use vstd::prelude::*;

verus! {

/// The decimal digits of `n`, without leading zeros.
pub open spec fn decimal(n: nat) -> Seq<char>
    decreases n,
{
    if n < 10 {
        seq![(('0' as int) + n) as char]
    } else {
        decimal(n / 10).push((('0' as int) + n % 10) as char)
    }
}

/// A single digit.
fn digit(d: u64) -> (r: &'static str)
    requires
        d < 10,
    ensures
        r@ == seq![(('0' as int) + d) as char],
{
    proof {
        reveal_strlit("0");
        reveal_strlit("1");
        reveal_strlit("2");
        reveal_strlit("3");
        reveal_strlit("4");
        reveal_strlit("5");
        reveal_strlit("6");
        reveal_strlit("7");
        reveal_strlit("8");
        reveal_strlit("9");
    }
    match d {
        0 => "0",
        1 => "1",
        2 => "2",
        3 => "3",
        4 => "4",
        5 => "5",
        6 => "6",
        7 => "7",
        8 => "8",
        _ => "9",
    }
}

/// The number in decimal.
pub fn decimal_string(n: u64) -> (r: String)
    ensures
        r@ == decimal(n as nat),
    decreases n,
{
    if n < 10 {
        String::from_str(digit(n))
    } else {
        let mut s = decimal_string(n / 10);
        s.append(digit(n % 10));
        assert(s@ =~= decimal(n as nat));
        s
    }
}

/// The number that decimal digits stand for.
pub open spec fn digits_value(s: Seq<char>) -> int
    decreases s.len(),
{
    if s.len() == 0 {
        0
    } else {
        10 * digits_value(s.drop_last()) + (s.last() as int - '0' as int)
    }
}

/// A number is written in digits that stand for it, without a leading zero
/// unless it is zero itself.
pub proof fn digits_stand_for_their_number(n: nat)
    ensures
        digits_value(decimal(n)) == n,
        decimal(n).len() > 0,
        forall|i: int| 0 <= i < decimal(n).len() ==> '0' as int <= (#[trigger] decimal(n)[i]) as int <= '9' as int,
        n > 0 ==> decimal(n)[0] != '0',
    decreases n,
{
    reveal_with_fuel(digits_value, 2);
    if n >= 10 {
        digits_stand_for_their_number(n / 10);
        let d = decimal(n / 10);
        let c = (('0' as int) + n % 10) as char;
        assert(decimal(n) == d.push(c));
        assert(d.push(c).drop_last() =~= d);
        assert(d.push(c).last() == c);
        assert(d.push(c)[0] == d[0]);
    } else {
        let s = decimal(n);
        assert(s.drop_last() =~= seq![]);
        assert(s.last() == (('0' as int) + n) as char);
    }
}

} // verus!
