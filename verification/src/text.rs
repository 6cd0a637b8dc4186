//! Decimal rendering of integers and small string helpers.

use vstd::prelude::*;

verus! {

/// The character that stands for the decimal digit `d`.
pub open spec fn digit_char(d: nat) -> char
    recommends
        d < 10,
{
    if d == 0 {
        '0'
    } else if d == 1 {
        '1'
    } else if d == 2 {
        '2'
    } else if d == 3 {
        '3'
    } else if d == 4 {
        '4'
    } else if d == 5 {
        '5'
    } else if d == 6 {
        '6'
    } else if d == 7 {
        '7'
    } else if d == 8 {
        '8'
    } else {
        '9'
    }
}

/// The decimal numeral of `n`, most significant digit first, without
/// leading zeros.
pub open spec fn decimal(n: nat) -> Seq<char>
    decreases n,
{
    if n < 10 {
        seq![digit_char(n)]
    } else {
        decimal(n / 10).push(digit_char(n % 10))
    }
}

/// The decimal numeral of a signed integer: a minus sign in front of the
/// numeral of its magnitude when it is negative.
pub open spec fn signed_decimal(n: int) -> Seq<char> {
    if n < 0 {
        seq!['-'] + decimal((-n) as nat)
    } else {
        decimal(n as nat)
    }
}

/// The numerals of `ids` separated by single commas.
pub open spec fn comma_joined(ids: Seq<u8>) -> Seq<char>
    decreases ids.len(),
{
    if ids.len() == 0 {
        Seq::<char>::empty()
    } else if ids.len() == 1 {
        decimal(ids[0] as nat)
    } else {
        comma_joined(ids.drop_last()) + seq![','] + decimal(ids.last() as nat)
    }
}

fn digit_str(d: u8) -> (s: &'static str)
    requires
        d < 10,
    ensures
        s@ == seq![digit_char(d as nat)],
{
    proof {
        reveal_strlit("0");
        reveal_strlit("1");
        reveal_strlit("2");
        reveal_strlit("3");
        reveal_strlit("4");
        reveal_strlit("5");
        reveal_strlit("6");
        reveal_strlit("7");
        reveal_strlit("8");
        reveal_strlit("9");
    }
    let s = if d == 0 {
        "0"
    } else if d == 1 {
        "1"
    } else if d == 2 {
        "2"
    } else if d == 3 {
        "3"
    } else if d == 4 {
        "4"
    } else if d == 5 {
        "5"
    } else if d == 6 {
        "6"
    } else if d == 7 {
        "7"
    } else if d == 8 {
        "8"
    } else {
        "9"
    };
    assert(s@ =~= seq![digit_char(d as nat)]);
    s
}

/// Renders `n` in decimal.
pub fn u64_to_string(n: u64) -> (s: String)
    ensures
        s@ == decimal(n as nat),
    decreases n,
{
    if n < 10 {
        String::from_str(digit_str(n as u8))
    } else {
        let mut s = u64_to_string(n / 10);
        s.append(digit_str((n % 10) as u8));
        assert(s@ =~= decimal(n as nat));
        s
    }
}

/// Renders a signed 32-bit integer in decimal.
pub fn i32_to_string(n: i32) -> (s: String)
    ensures
        s@ == signed_decimal(n as int),
{
    if n < 0 {
        let magnitude: u64 = (-(n as i64)) as u64;
        let mut s = String::from_str("-");
        let digits = u64_to_string(magnitude);
        s.append(digits.as_str());
        proof {
            reveal_strlit("-");
            assert("-"@ =~= seq!['-']);
        }
        s
    } else {
        u64_to_string(n as u64)
    }
}

/// Renders `ids` in decimal, separated by single commas.
pub fn join_with_commas(ids: &Vec<u8>) -> (s: String)
    ensures
        s@ == comma_joined(ids@),
{
    let mut s = String::new();
    let mut k: usize = 0;
    while k < ids.len()
        invariant
            k <= ids.len(),
            s@ == comma_joined(ids@.take(k as int)),
        decreases ids.len() - k,
    {
        let digits = u64_to_string(ids[k] as u64);
        if k > 0 {
            s.append(",");
        }
        s.append(digits.as_str());
        proof {
            reveal_strlit(",");
            assert(","@ =~= seq![',']);
            let next = ids@.take(k as int + 1);
            assert(next.drop_last() =~= ids@.take(k as int));
            assert(next.last() == ids@[k as int]);
            assert(s@ =~= comma_joined(next));
        }
        k += 1;
    }
    assert(ids@.take(k as int) =~= ids@);
    s
}

/// Whether `s` holds exactly the characters of `literal`.
pub fn string_is(s: &String, literal: &str) -> (same: bool)
    ensures
        same == (s@ == literal@),
{
    let other = String::from_str(literal);
    *s == other
}

} // verus!
