//! Decimal text of integers, for messages.
use vstd::prelude::*;
use vstd::string::StringExecFns;

verus! {

/// The character of a decimal digit.
pub open spec fn digit(d: int) -> char {
    if d == 0 {
        '0'
    } else if d == 1 {
        '1'
    } else if d == 2 {
        '2'
    } else if d == 3 {
        '3'
    } else if d == 4 {
        '4'
    } else if d == 5 {
        '5'
    } else if d == 6 {
        '6'
    } else if d == 7 {
        '7'
    } else if d == 8 {
        '8'
    } else {
        '9'
    }
}

/// The decimal digits of `n`, most significant first, without leading zeros.
pub open spec fn nat_text(n: nat) -> Seq<char>
    decreases n,
{
    if n < 10 {
        seq![digit(n as int)]
    } else {
        nat_text(n / 10).push(digit((n % 10) as int))
    }
}

/// The decimal text of `n`: a minus sign for a negative number, then its digits.
pub open spec fn i64_text(n: i64) -> Seq<char> {
    if n < 0 {
        seq!['-'] + nat_text((-(n as int)) as nat)
    } else {
        nat_text(n as nat)
    }
}

/// The decimal text of `n`.
pub open spec fn u64_text(n: u64) -> Seq<char> {
    nat_text(n as nat)
}

fn digit_text(d: u64) -> (r: &'static str)
    requires
        d < 10,
    ensures
        r@ == seq![digit(d as int)],
{
    proof {
        reveal_strlit("0");
        reveal_strlit("1");
        reveal_strlit("2");
        reveal_strlit("3");
        reveal_strlit("4");
        reveal_strlit("5");
        reveal_strlit("6");
        reveal_strlit("7");
        reveal_strlit("8");
        reveal_strlit("9");
    }
    if d == 0 {
        "0"
    } else if d == 1 {
        "1"
    } else if d == 2 {
        "2"
    } else if d == 3 {
        "3"
    } else if d == 4 {
        "4"
    } else if d == 5 {
        "5"
    } else if d == 6 {
        "6"
    } else if d == 7 {
        "7"
    } else if d == 8 {
        "8"
    } else {
        "9"
    }
}

pub(crate) fn u64_to_text(n: u64) -> (r: String)
    ensures
        r@ == u64_text(n),
{
    let mut s = String::new();
    let mut m: u64 = n;
    proof {
        reveal_strlit("");
    }
    loop
        invariant_except_break
            nat_text(n as nat) == nat_text(m as nat) + s@,
        ensures
            nat_text(n as nat) == s@,
        decreases m,
    {
        let d = m % 10;
        let ghost old_s = s@;
        let ghost old_m = m;
        s = String::from_str(digit_text(d)).concat(s.as_str());
        m = m / 10;
        proof {
            if old_m < 10 {
                assert(nat_text(old_m as nat) == seq![digit(old_m as int)]);
                assert(d == old_m);
                assert(nat_text(n as nat) =~= s@);
            } else {
                assert(nat_text(old_m as nat) == nat_text(m as nat).push(digit(d as int)));
                assert(nat_text(n as nat) =~= nat_text(m as nat) + s@);
            }
        }
        if m == 0 {
            proof {
                if old_m >= 10 {
                    assert(false);
                }
            }
            break;
        }
    }
    s
}

pub(crate) fn i64_to_text(n: i64) -> (r: String)
    ensures
        r@ == i64_text(n),
{
    proof {
        reveal_strlit("-");
    }
    if n < 0 {
        let magnitude: u64 = (-(n as i128)) as u64;
        let digits = u64_to_text(magnitude);
        let r = String::from_str("-").concat(digits.as_str());
        assert(r@ =~= seq!['-'] + nat_text((-(n as int)) as nat));
        r
    } else {
        u64_to_text(n as u64)
    }
}

} // verus!
