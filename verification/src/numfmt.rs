//! Verified decimal formatting for the human-readable log lines.

use vstd::prelude::*;

verus! {

pub open spec fn digit_char(d: int) -> char {
    if d == 0 {
        '0'
    } else if d == 1 {
        '1'
    } else if d == 2 {
        '2'
    } else if d == 3 {
        '3'
    } else if d == 4 {
        '4'
    } else if d == 5 {
        '5'
    } else if d == 6 {
        '6'
    } else if d == 7 {
        '7'
    } else if d == 8 {
        '8'
    } else {
        '9'
    }
}

/// The decimal digits of `n`, most significant first.
pub open spec fn dec_spec(n: int) -> Seq<char>
    decreases n,
{
    if n < 10 {
        seq![digit_char(if n < 0 { 0 } else { n })]
    } else {
        dec_spec(n / 10).push(digit_char(n % 10))
    }
}

fn digit_exec(d: u64) -> (c: char)
    requires
        d < 10,
    ensures
        c == digit_char(d as int),
{
    if d == 0 {
        '0'
    } else if d == 1 {
        '1'
    } else if d == 2 {
        '2'
    } else if d == 3 {
        '3'
    } else if d == 4 {
        '4'
    } else if d == 5 {
        '5'
    } else if d == 6 {
        '6'
    } else if d == 7 {
        '7'
    } else if d == 8 {
        '8'
    } else {
        '9'
    }
}

fn push_dec(s: &mut String, x: u64)
    ensures
        final(s)@ == old(s)@ + dec_spec(x as int),
    decreases x,
{
    if x < 10 {
        crate::ext::push_char(s, digit_exec(x));
        proof {
            assert(s@ =~= old(s)@ + dec_spec(x as int));
        }
    } else {
        push_dec(s, x / 10);
        crate::ext::push_char(s, digit_exec(x % 10));
        proof {
            assert(s@ =~= old(s)@ + dec_spec(x as int));
        }
    }
}

/// Format a number in decimal.
pub fn u64_to_string(x: u64) -> (r: String)
    ensures
        r@ == dec_spec(x as int),
{
    let mut s = String::new();
    push_dec(&mut s, x);
    proof {
        assert(s@ =~= dec_spec(x as int));
    }
    s
}

} // verus!
