//! Decimal rendering of non-negative numbers, used to build anchor
//! signatures and location facts deterministically.

use vstd::prelude::*;
use vstd::string::StringExecFns;

verus! {

/// The character for one decimal digit.
pub open spec fn dec_digit(d: int) -> char {
    if d == 0 { '0' }
    else if d == 1 { '1' }
    else if d == 2 { '2' }
    else if d == 3 { '3' }
    else if d == 4 { '4' }
    else if d == 5 { '5' }
    else if d == 6 { '6' }
    else if d == 7 { '7' }
    else if d == 8 { '8' }
    else { '9' }
}

/// The decimal numeral of `n` as characters, most significant digit first.
pub open spec fn dec_str(n: int) -> Seq<char>
    recommends n >= 0,
    decreases n,
{
    if n < 10 { seq![dec_digit(n)] } else { dec_str(n / 10) + seq![dec_digit(n % 10)] }
}

/// The decimal numeral of `n` as ASCII bytes, most significant digit first.
pub open spec fn dec_bytes(n: int) -> Seq<u8>
    recommends n >= 0,
    decreases n,
{
    if n < 10 { seq![(48 + n) as u8] } else { dec_bytes(n / 10) + seq![(48 + n % 10) as u8] }
}

fn digit_str(d: u32) -> (r: &'static str)
    requires d < 10,
    ensures r@ == seq![dec_digit(d as int)],
{
    proof {
        reveal_strlit("0");
        reveal_strlit("1");
        reveal_strlit("2");
        reveal_strlit("3");
        reveal_strlit("4");
        reveal_strlit("5");
        reveal_strlit("6");
        reveal_strlit("7");
        reveal_strlit("8");
        reveal_strlit("9");
    }
    match d {
        0 => "0",
        1 => "1",
        2 => "2",
        3 => "3",
        4 => "4",
        5 => "5",
        6 => "6",
        7 => "7",
        8 => "8",
        _ => "9",
    }
}

/// Renders `n` in decimal as a string.
pub fn dec_string(n: u32) -> (r: String)
    ensures r@ == dec_str(n as int),
    decreases n,
{
    if n < 10 {
        digit_str(n).to_owned()
    } else {
        let mut s = dec_string(n / 10);
        s.append(digit_str(n % 10));
        s
    }
}

/// Renders `n` in decimal as ASCII bytes.
pub fn dec_vec(n: u32) -> (r: Vec<u8>)
    ensures r@ == dec_bytes(n as int),
    decreases n,
{
    if n < 10 {
        let mut v: Vec<u8> = Vec::new();
        v.push((48 + n) as u8);
        proof {
            assert(v@ =~= dec_bytes(n as int));
        }
        v
    } else {
        let mut v = dec_vec(n / 10);
        v.push((48 + n % 10) as u8);
        proof {
            assert(v@ =~= dec_bytes(n as int));
        }
        v
    }
}

} // verus!
