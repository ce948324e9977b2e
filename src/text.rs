use vstd::prelude::*;
use vstd::string::*;

verus! {

/// The ASCII digit for a value below ten.
pub open spec fn digit_char(d: int) -> char {
    if d == 0 { '0' }
    else if d == 1 { '1' }
    else if d == 2 { '2' }
    else if d == 3 { '3' }
    else if d == 4 { '4' }
    else if d == 5 { '5' }
    else if d == 6 { '6' }
    else if d == 7 { '7' }
    else if d == 8 { '8' }
    else { '9' }
}

/// Appends the ASCII digit of `d`.
pub fn push_digit(s: &mut String, d: u32)
    requires
        d < 10,
    ensures
        final(s)@ == old(s)@.push(digit_char(d as int)),
{
    let lit: &str;
    if d == 0 {
        lit = "0";
        proof { reveal_strlit("0"); }
    } else if d == 1 {
        lit = "1";
        proof { reveal_strlit("1"); }
    } else if d == 2 {
        lit = "2";
        proof { reveal_strlit("2"); }
    } else if d == 3 {
        lit = "3";
        proof { reveal_strlit("3"); }
    } else if d == 4 {
        lit = "4";
        proof { reveal_strlit("4"); }
    } else if d == 5 {
        lit = "5";
        proof { reveal_strlit("5"); }
    } else if d == 6 {
        lit = "6";
        proof { reveal_strlit("6"); }
    } else if d == 7 {
        lit = "7";
        proof { reveal_strlit("7"); }
    } else if d == 8 {
        lit = "8";
        proof { reveal_strlit("8"); }
    } else {
        lit = "9";
        proof { reveal_strlit("9"); }
    }
    assert(lit@ =~= seq![digit_char(d as int)]);
    s.append(lit);
}

/// The decimal digits of `n`, without leading zeros.
pub open spec fn decimal_text(n: nat) -> Seq<char>
    decreases n,
{
    if n < 10 {
        seq![digit_char(n as int)]
    } else {
        decimal_text(n / 10).push(digit_char((n % 10) as int))
    }
}

/// Appends the decimal digits of `n`.
pub fn push_decimal(s: &mut String, n: u64)
    ensures
        final(s)@ == old(s)@ + decimal_text(n as nat),
    decreases n,
{
    if n < 10 {
        push_digit(s, n as u32);
        assert(decimal_text(n as nat) =~= seq![digit_char(n as int)]);
    } else {
        push_decimal(s, n / 10);
        push_digit(s, (n % 10) as u32);
    }
}

} // verus!
