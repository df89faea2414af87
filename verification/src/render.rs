//! Rendering integers and simple classifications as text.

use vstd::prelude::*;

verus! {

/// The character for a decimal digit value.
pub open spec fn digit_char(d: int) -> char
    recommends
        0 <= d < 10,
{
    if d == 0 {
        '0'
    } else if d == 1 {
        '1'
    } else if d == 2 {
        '2'
    } else if d == 3 {
        '3'
    } else if d == 4 {
        '4'
    } else if d == 5 {
        '5'
    } else if d == 6 {
        '6'
    } else if d == 7 {
        '7'
    } else if d == 8 {
        '8'
    } else {
        '9'
    }
}

/// The decimal digits of a nonnegative integer, most significant first.
pub open spec fn dec_rep(n: nat) -> Seq<char>
    decreases n,
{
    if n < 10 {
        seq![digit_char(n as int)]
    } else {
        dec_rep(n / 10).push(digit_char((n % 10) as int))
    }
}

/// The decimal rendering of a signed integer: a minus sign, if negative,
/// then the digits of the magnitude.
pub open spec fn int_rep(n: int) -> Seq<char> {
    if n < 0 {
        seq!['-'] + dec_rep((-n) as nat)
    } else {
        dec_rep(n as nat)
    }
}

fn digit_str(d: u32) -> (r: &'static str)
    requires
        d < 10,
    ensures
        r@ == seq![digit_char(d as int)],
{
    let s: &'static str = if d == 0 {
        "0"
    } else if d == 1 {
        "1"
    } else if d == 2 {
        "2"
    } else if d == 3 {
        "3"
    } else if d == 4 {
        "4"
    } else if d == 5 {
        "5"
    } else if d == 6 {
        "6"
    } else if d == 7 {
        "7"
    } else if d == 8 {
        "8"
    } else {
        "9"
    };
    proof {
        reveal_strlit("0");
        reveal_strlit("1");
        reveal_strlit("2");
        reveal_strlit("3");
        reveal_strlit("4");
        reveal_strlit("5");
        reveal_strlit("6");
        reveal_strlit("7");
        reveal_strlit("8");
        reveal_strlit("9");
        assert(s@ =~= seq![digit_char(d as int)]);
    }
    s
}

fn u32_to_decimal(n: u32) -> (r: String)
    ensures
        r@ == dec_rep(n as nat),
    decreases n,
{
    if n < 10 {
        String::from_str(digit_str(n))
    } else {
        let mut s = u32_to_decimal(n / 10);
        s.append(digit_str(n % 10));
        proof {
            assert(dec_rep((n as nat) / 10) + seq![digit_char((n as nat % 10) as int)] =~= dec_rep(
                (n as nat) / 10,
            ).push(digit_char((n as nat % 10) as int)));
        }
        s
    }
}

/// Renders a signed integer in decimal, as `format!` would.
pub fn int_to_decimal(v: i32) -> (r: String)
    ensures
        r@ == int_rep(v as int),
{
    if v < 0 {
        let m: i64 = -(v as i64);
        let mag: u32 = m as u32;
        let mut s = String::from_str("-");
        let d = u32_to_decimal(mag);
        s.append(d.as_str());
        proof {
            reveal_strlit("-");
            assert(s@ =~= seq!['-'] + dec_rep(mag as nat));
        }
        s
    } else {
        u32_to_decimal(v as u32)
    }
}

/// The label `classify_number` assigns: by sign, and for positives by
/// whether the value is at most one hundred.
pub open spec fn classify_spec(n: int) -> Seq<char> {
    if n < 0 {
        "negative"@
    } else if n == 0 {
        "zero"@
    } else if n <= 100 {
        "small positive"@
    } else {
        "large positive"@
    }
}

/// Names the band a number falls in: negative, zero, small or large
/// positive.
pub fn classify_number(n: i32) -> (r: &'static str)
    ensures
        r@ == classify_spec(n as int),
{
    if n < 0 {
        "negative"
    } else if n == 0 {
        "zero"
    } else if n <= 100 {
        "small positive"
    } else {
        "large positive"
    }
}

/// The phrase `describe_option` produces.
pub open spec fn describe_spec(opt: Option<i32>) -> Seq<char> {
    match opt {
        Option::None => "nothing"@,
        Option::Some(n) => if n > 0 {
            "positive value: "@ + int_rep(n as int)
        } else if n == 0 {
            "zero"@
        } else {
            "negative value: "@ + int_rep(n as int)
        },
    }
}

/// Describes an optional number in words, spelling out its sign and value.
pub fn describe_option(opt: Option<i32>) -> (r: String)
    ensures
        r@ == describe_spec(opt),
{
    match opt {
        Option::Some(n) => {
            if n > 0 {
                let mut s = String::from_str("positive value: ");
                let d = int_to_decimal(n);
                s.append(d.as_str());
                s
            } else if n == 0 {
                String::from_str("zero")
            } else {
                let mut s = String::from_str("negative value: ");
                let d = int_to_decimal(n);
                s.append(d.as_str());
                s
            }
        },
        Option::None => String::from_str("nothing"),
    }
}

} // verus!
