//! Numbers written as text.

use vstd::prelude::*;

verus! {

/// The character that writes a decimal digit.
pub open spec fn digit_char(d: int) -> char {
    if d == 0 {
        '0'
    } else if d == 1 {
        '1'
    } else if d == 2 {
        '2'
    } else if d == 3 {
        '3'
    } else if d == 4 {
        '4'
    } else if d == 5 {
        '5'
    } else if d == 6 {
        '6'
    } else if d == 7 {
        '7'
    } else if d == 8 {
        '8'
    } else {
        '9'
    }
}

/// A natural number in decimal, without leading zeros.
pub open spec fn decimal_nat(n: nat) -> Seq<char>
    decreases n,
{
    if n < 10 {
        seq![digit_char(n as int)]
    } else {
        decimal_nat(n / 10).push(digit_char((n % 10) as int))
    }
}

/// An integer in decimal: a `-` before the digits of a negative one.
pub open spec fn decimal(v: int) -> Seq<char> {
    if v < 0 {
        seq!['-'] + decimal_nat((-v) as nat)
    } else {
        decimal_nat(v as nat)
    }
}

/// Appends one decimal digit.
fn push_digit(s: &mut String, d: u64)
    requires
        d < 10,
    ensures
        final(s)@ == old(s)@.push(digit_char(d as int)),
{
    proof {
        reveal_strlit("0");
        reveal_strlit("1");
        reveal_strlit("2");
        reveal_strlit("3");
        reveal_strlit("4");
        reveal_strlit("5");
        reveal_strlit("6");
        reveal_strlit("7");
        reveal_strlit("8");
        reveal_strlit("9");
    }
    let ghost before = s@;
    let word = if d == 0 {
        "0"
    } else if d == 1 {
        "1"
    } else if d == 2 {
        "2"
    } else if d == 3 {
        "3"
    } else if d == 4 {
        "4"
    } else if d == 5 {
        "5"
    } else if d == 6 {
        "6"
    } else if d == 7 {
        "7"
    } else if d == 8 {
        "8"
    } else {
        "9"
    };
    assert(word@ =~= seq![digit_char(d as int)]);
    s.append(word);
    assert(s@ =~= before.push(digit_char(d as int)));
}

/// Appends a natural number in decimal.
pub fn push_decimal_nat(s: &mut String, n: u64)
    ensures
        final(s)@ == old(s)@ + decimal_nat(n as nat),
    decreases n,
{
    let ghost before = s@;
    if n < 10 {
        push_digit(s, n);
        assert(s@ =~= before + decimal_nat(n as nat));
    } else {
        push_decimal_nat(s, n / 10);
        push_digit(s, n % 10);
        assert(s@ =~= before + decimal_nat(n as nat));
    }
}

/// Appends an integer in decimal.
pub fn push_decimal(s: &mut String, v: i64)
    ensures
        final(s)@ == old(s)@ + decimal(v as int),
{
    let ghost before = s@;
    if v < 0 {
        s.append("-");
        proof {
            reveal_strlit("-");
            assert(s@ =~= before + seq!['-']);
        }
        push_decimal_nat(s, (-(v as i128)) as u64);
        assert(s@ =~= before + decimal(v as int));
    } else {
        push_decimal_nat(s, v as u64);
    }
}

} // verus!
