use vstd::prelude::*;

use vstd::string::*;

verus! {

// ---------------------------------------------------------------------------
// Decimal text of integers.

pub open spec fn digit_char(d: nat) -> char {
    if d == 0 {
        '0'
    } else if d == 1 {
        '1'
    } else if d == 2 {
        '2'
    } else if d == 3 {
        '3'
    } else if d == 4 {
        '4'
    } else if d == 5 {
        '5'
    } else if d == 6 {
        '6'
    } else if d == 7 {
        '7'
    } else if d == 8 {
        '8'
    } else {
        '9'
    }
}

/// The decimal digits of `n`, without leading zeros.
pub open spec fn nat_text(n: nat) -> Seq<char>
    decreases n,
{
    if n < 10 {
        seq![digit_char(n)]
    } else {
        nat_text(n / 10).push(digit_char(n % 10))
    }
}

/// The decimal text of `n`, with a minus sign when it is negative.
pub open spec fn int_text(n: int) -> Seq<char> {
    if n < 0 {
        seq!['-'] + nat_text((-n) as nat)
    } else {
        nat_text(n as nat)
    }
}

/// `s` followed by the digit `d`.
fn push_digit(s: String, d: u64) -> (r: String)
    requires
        d < 10,
    ensures
        r@ == s@.push(digit_char(d as nat)),
{
    proof {
        reveal_strlit("0");
        reveal_strlit("1");
        reveal_strlit("2");
        reveal_strlit("3");
        reveal_strlit("4");
        reveal_strlit("5");
        reveal_strlit("6");
        reveal_strlit("7");
        reveal_strlit("8");
        reveal_strlit("9");
    }
    let r = if d == 0 {
        s.concat("0")
    } else if d == 1 {
        s.concat("1")
    } else if d == 2 {
        s.concat("2")
    } else if d == 3 {
        s.concat("3")
    } else if d == 4 {
        s.concat("4")
    } else if d == 5 {
        s.concat("5")
    } else if d == 6 {
        s.concat("6")
    } else if d == 7 {
        s.concat("7")
    } else if d == 8 {
        s.concat("8")
    } else {
        s.concat("9")
    };
    assert(r@ =~= s@.push(digit_char(d as nat)));
    r
}

/// `s` followed by the decimal digits of `n`.
pub fn push_nat(s: String, n: u64) -> (r: String)
    ensures
        r@ == s@ + nat_text(n as nat),
    decreases n,
{
    if n < 10 {
        let r = push_digit(s, n);
        assert(r@ =~= s@ + nat_text(n as nat));
        r
    } else {
        let t = push_nat(s, n / 10);
        let r = push_digit(t, n % 10);
        assert(r@ =~= s@ + nat_text(n as nat));
        r
    }
}

/// `s` followed by the decimal text of `n`.
pub fn push_int(s: String, n: i32) -> (r: String)
    ensures
        r@ == s@ + int_text(n as int),
{
    if n < 0 {
        proof {
            reveal_strlit("-");
        }
        let t = s.concat("-");
        let m: u64 = (0i64 - (n as i64)) as u64;
        let r = push_nat(t, m);
        assert(r@ =~= s@ + int_text(n as int));
        r
    } else {
        push_nat(s, n as u64)
    }
}

/// `s` followed by `t`.
pub fn push_str(s: String, t: &str) -> (r: String)
    ensures
        r@ == s@ + t@,
{
    s.concat(t)
}

} // verus!
