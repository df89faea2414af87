//! Parsing a signed decimal integer out of a string.
//!
//! The input is trimmed of leading and trailing whitespace first. A blank
//! input is one kind of failure; anything that is not an optional sign
//! followed by at least one decimal digit, or that lies outside `i64`
//! range, is the other.

use vstd::prelude::*;

verus! {

/// Why a string failed to parse as a number.
#[derive(Debug)]
pub enum ParseError {
    /// The input was empty after trimming whitespace.
    Empty,
    /// The trimmed input (carried along) is not a decimal integer in `i64`
    /// range.
    NotANumber(String),
}

impl ParseError {
    /// The wording of the failure, as `Display` would show it.
    pub fn message(&self) -> (r: String)
        ensures
            *self matches ParseError::Empty ==> r@ == "input was empty"@,
            *self matches ParseError::NotANumber(s) ==> r@ == "\""@ + s@
                + "\" is not a valid number"@,
    {
        match self {
            ParseError::Empty => String::from_str("input was empty"),
            ParseError::NotANumber(s) => {
                let mut m = String::from_str("\"");
                m.append(s.as_str());
                m.append("\" is not a valid number");
                m
            },
        }
    }
}

/// The characters `str::trim` removes: the Unicode whitespace set.
pub open spec fn is_space_char(c: char) -> bool {
    let u = c as u32;
    (9 <= u && u <= 13) || u == 0x20 || u == 0x85 || u == 0xA0 || u == 0x1680 || (0x2000 <= u
        && u <= 0x200A) || u == 0x2028 || u == 0x2029 || u == 0x202F || u == 0x205F || u == 0x3000
}

/// The input with its leading whitespace removed.
pub open spec fn trim_start_spec(s: Seq<char>) -> Seq<char>
    decreases s.len(),
{
    if s.len() > 0 && is_space_char(s[0]) {
        trim_start_spec(s.drop_first())
    } else {
        s
    }
}

/// The input with its trailing whitespace removed.
pub open spec fn trim_end_spec(s: Seq<char>) -> Seq<char>
    decreases s.len(),
{
    if s.len() > 0 && is_space_char(s.last()) {
        trim_end_spec(s.drop_last())
    } else {
        s
    }
}

/// The input with whitespace removed from both ends.
pub open spec fn trim_spec(s: Seq<char>) -> Seq<char> {
    trim_end_spec(trim_start_spec(s))
}

/// A decimal digit.
pub open spec fn is_digit_char(c: char) -> bool {
    0x30 <= c as u32 && c as u32 <= 0x39
}

/// The numeric value of a decimal digit.
pub open spec fn digit_val(c: char) -> int {
    c as u32 - 0x30
}

/// The value of a sequence of decimal digits, most significant first.
pub open spec fn digits_val(s: Seq<char>) -> int
    decreases s.len(),
{
    if s.len() == 0 {
        0
    } else {
        10 * digits_val(s.drop_last()) + digit_val(s.last())
    }
}

/// Every character of `s` is a decimal digit.
pub open spec fn all_digits(s: Seq<char>) -> bool {
    forall|k: int| 0 <= k < s.len() ==> is_digit_char(s[k])
}

/// Whether `s` opens with an explicit sign.
pub open spec fn has_sign(s: Seq<char>) -> bool {
    s.len() > 0 && (s[0] == '+' || s[0] == '-')
}

/// The digits of `s`: everything after the sign, if there is one.
pub open spec fn digits_part(s: Seq<char>) -> Seq<char> {
    if has_sign(s) {
        s.drop_first()
    } else {
        s
    }
}

/// `s` denotes a negative number.
pub open spec fn is_negative(s: Seq<char>) -> bool {
    s.len() > 0 && s[0] == '-'
}

/// `s` is a decimal integer literal: an optional sign, then at least one
/// digit.
pub open spec fn is_int_literal(s: Seq<char>) -> bool {
    digits_part(s).len() > 0 && all_digits(digits_part(s))
}

/// The mathematical value a decimal integer literal denotes.
pub open spec fn literal_val(s: Seq<char>) -> int
    recommends
        is_int_literal(s),
{
    if is_negative(s) {
        -digits_val(digits_part(s))
    } else {
        digits_val(digits_part(s))
    }
}

/// `s` is a decimal integer literal whose value fits in `i64`: exactly the
/// strings `i64` parsing accepts.
pub open spec fn parses_to_i64(s: Seq<char>) -> bool {
    is_int_literal(s) && i64::MIN as int <= literal_val(s) <= i64::MAX as int
}

/// Ten to the `k`.
pub open spec fn pow10(k: nat) -> int
    decreases k,
{
    if k == 0 {
        1
    } else {
        10 * pow10((k - 1) as nat)
    }
}

proof fn lemma_pow10_mono(a: nat, b: nat)
    requires
        a <= b,
    ensures
        pow10(a) <= pow10(b),
        pow10(a) >= 1,
    decreases b,
{
    if a < b {
        lemma_pow10_mono(a, (b - 1) as nat);
    } else if a > 0 {
        lemma_pow10_mono((a - 1) as nat, (a - 1) as nat);
    }
}

proof fn lemma_digits_val_bounds(s: Seq<char>)
    requires
        all_digits(s),
    ensures
        0 <= digits_val(s) < pow10(s.len()),
    decreases s.len(),
{
    if s.len() > 0 {
        assert(all_digits(s.drop_last())) by {
            assert(forall|k: int|
                0 <= k < s.len() - 1 ==> s.drop_last()[k] == s[k] && is_digit_char(s[k]));
        }
        lemma_digits_val_bounds(s.drop_last());
    }
}

proof fn lemma_digits_val_lower(s: Seq<char>)
    requires
        all_digits(s),
        s.len() > 0,
        s[0] as u32 != 0x30,
    ensures
        digits_val(s) >= pow10((s.len() - 1) as nat),
    decreases s.len(),
{
    if s.len() == 1 {
        assert(is_digit_char(s[0]));
        assert(digits_val(s.drop_last()) == 0);
        assert(digit_val(s[0]) >= 1);
    } else {
        assert(all_digits(s.drop_last())) by {
            assert(forall|k: int|
                0 <= k < s.len() - 1 ==> s.drop_last()[k] == s[k] && is_digit_char(s[k]));
        }
        assert(s.drop_last()[0] == s[0]);
        lemma_digits_val_lower(s.drop_last());
        assert(is_digit_char(s.last()));
        assert(digit_val(s.last()) >= 0);
    }
}

proof fn lemma_digits_strip_zero(s: Seq<char>)
    requires
        s.len() > 0,
        s[0] == '0',
    ensures
        digits_val(s) == digits_val(s.drop_first()),
    decreases s.len(),
{
    if s.len() == 1 {
        assert(s.drop_last() =~= s.drop_first());
    } else {
        lemma_digits_strip_zero(s.drop_last());
        assert(s.drop_last().drop_first() =~= s.drop_first().drop_last());
        assert(s.drop_first().last() == s.last());
    }
}

proof fn lemma_digits_strip_zeros(s: Seq<char>, z: int)
    requires
        0 <= z <= s.len(),
        forall|k: int| 0 <= k < z ==> s[k] == '0',
    ensures
        digits_val(s) == digits_val(s.subrange(z, s.len() as int)),
    decreases z,
{
    if z == 0 {
        assert(s.subrange(0, s.len() as int) =~= s);
    } else {
        lemma_digits_strip_zero(s);
        assert(forall|k: int| 0 <= k < z - 1 ==> s.drop_first()[k] == s[k + 1]);
        lemma_digits_strip_zeros(s.drop_first(), z - 1);
        assert(s.drop_first().subrange(z - 1, s.drop_first().len() as int) =~= s.subrange(
            z,
            s.len() as int,
        ));
    }
}

proof fn lemma_trim_start_at(s: Seq<char>, i: int)
    requires
        0 <= i <= s.len(),
        forall|k: int| 0 <= k < i ==> is_space_char(s[k]),
        i == s.len() || !is_space_char(s[i]),
    ensures
        trim_start_spec(s) == s.subrange(i, s.len() as int),
    decreases i,
{
    if i == 0 {
        assert(s.subrange(0, s.len() as int) =~= s);
    } else {
        assert(is_space_char(s[0]));
        let t = s.drop_first();
        assert(forall|k: int| 0 <= k < i - 1 ==> t[k] == s[k + 1]);
        lemma_trim_start_at(t, i - 1);
        assert(t.subrange(i - 1, t.len() as int) =~= s.subrange(i, s.len() as int));
    }
}

proof fn lemma_trim_end_at(s: Seq<char>, j: int)
    requires
        0 <= j <= s.len(),
        forall|k: int| j <= k < s.len() ==> is_space_char(s[k]),
        j == 0 || !is_space_char(s[j - 1]),
    ensures
        trim_end_spec(s) == s.subrange(0, j),
    decreases s.len() - j,
{
    if j == s.len() {
        assert(s.subrange(0, j) =~= s);
    } else {
        assert(is_space_char(s.last()));
        let t = s.drop_last();
        lemma_trim_end_at(t, j);
        assert(t.subrange(0, j) =~= s.subrange(0, j));
    }
}

fn is_space(c: char) -> (r: bool)
    ensures
        r == is_space_char(c),
{
    let u: u32 = c as u32;
    (9 <= u && u <= 13) || u == 0x20 || u == 0x85 || u == 0xA0 || u == 0x1680 || (0x2000 <= u
        && u <= 0x200A) || u == 0x2028 || u == 0x2029 || u == 0x202F || u == 0x205F || u == 0x3000
}

fn is_digit(c: char) -> (r: bool)
    ensures
        r == is_digit_char(c),
{
    let u: u32 = c as u32;
    0x30 <= u && u <= 0x39
}

/// Removes leading and trailing whitespace, as `str::trim` does.
pub fn trim(s: &str) -> (r: &str)
    ensures
        r@ == trim_spec(s@),
{
    let n: usize = s.unicode_len();
    let mut i: usize = 0;
    while i < n
        invariant
            i <= n,
            n == s@.len(),
            forall|k: int| 0 <= k < i ==> is_space_char(s@[k]),
        ensures
            i <= n,
            n == s@.len(),
            forall|k: int| 0 <= k < i ==> is_space_char(s@[k]),
            i == n || !is_space_char(s@[i as int]),
        decreases n - i,
    {
        if !is_space(s.get_char(i)) {
            break ;
        }
        i = i + 1;
    }
    let mut j: usize = n;
    while j > i
        invariant
            i <= j <= n,
            n == s@.len(),
            forall|k: int| j <= k < n ==> is_space_char(s@[k]),
        ensures
            i <= j <= n,
            n == s@.len(),
            forall|k: int| j <= k < n ==> is_space_char(s@[k]),
            j == i || !is_space_char(s@[j - 1]),
        decreases j,
    {
        if !is_space(s.get_char(j - 1)) {
            break ;
        }
        j = j - 1;
    }
    proof {
        lemma_trim_start_at(s@, i as int);
        let t = s@.subrange(i as int, n as int);
        assert(forall|k: int| j - i <= k < t.len() ==> t[k] == s@[k + i]);
        lemma_trim_end_at(t, j - i as int);
        assert(t.subrange(0, j - i as int) =~= s@.subrange(i as int, j as int));
    }
    s.substring_char(i, j)
}

/// Parses a decimal integer, ignoring surrounding whitespace.
///
/// Succeeds exactly on inputs whose trimmed form is an optional sign
/// followed by decimal digits, with a value in `i64` range; a blank input
/// and a malformed or out-of-range one fail with distinct errors, the
/// latter carrying the trimmed input.
pub fn parse_number(input: &str) -> (r: Result<i64, ParseError>)
    ensures
        trim_spec(input@).len() == 0 ==> (r matches Err(ParseError::Empty)),
        trim_spec(input@).len() > 0 && parses_to_i64(trim_spec(input@)) ==> (r matches Ok(v)
            && v as int == literal_val(trim_spec(input@))),
        trim_spec(input@).len() > 0 && !parses_to_i64(trim_spec(input@)) ==> (r matches Err(
            ParseError::NotANumber(s),
        ) && s@ == trim_spec(input@)),
{
    let t: &str = trim(input);
    let n: usize = t.unicode_len();
    if n == 0 {
        return Err(ParseError::Empty);
    }
    let first: char = t.get_char(0);
    let neg: bool = first == '-';
    let signed: bool = neg || first == '+';
    let ds: usize = if signed {
        1
    } else {
        0
    };
    proof {
        assert(digits_part(t@) =~= t@.subrange(ds as int, n as int));
    }
    if ds == n {
        // A bare sign has no digits.
        return Err(ParseError::NotANumber(t.to_owned()));
    }
    let mut i: usize = ds;
    while i < n
        invariant
            ds <= i <= n,
            n == t@.len(),
            t@ == trim_spec(input@),
            digits_part(t@) == t@.subrange(ds as int, n as int),
            forall|k: int| ds <= k < i ==> is_digit_char(t@[k]),
        decreases n - i,
    {
        if !is_digit(t.get_char(i)) {
            proof {
                assert(digits_part(t@)[i as int - ds as int] == t@[i as int]);
            }
            return Err(ParseError::NotANumber(t.to_owned()));
        }
        i = i + 1;
    }
    let ghost digits = t@.subrange(ds as int, n as int);
    proof {
        assert(all_digits(digits));
    }
    // Skip leading zeros so that the digit count bounds the magnitude.
    let mut z: usize = ds;
    while z < n
        invariant
            ds <= z <= n,
            n == t@.len(),
            forall|k: int| ds <= k < z ==> t@[k] == '0',
        ensures
            ds <= z <= n,
            n == t@.len(),
            forall|k: int| ds <= k < z ==> t@[k] == '0',
            z == n || t@[z as int] as u32 != 0x30,
        decreases n - z,
    {
        let c: char = t.get_char(z);
        if c != '0' {
            proof {
                assert(c as u32 != 0x30);
            }
            break ;
        }
        z = z + 1;
    }
    let ghost stripped = t@.subrange(z as int, n as int);
    proof {
        assert(forall|k: int| 0 <= k < z - ds ==> digits[k] == '0');
        lemma_digits_strip_zeros(digits, z - ds as int);
        assert(digits.subrange(z - ds as int, digits.len() as int) =~= stripped);
        assert(all_digits(stripped));
        reveal_with_fuel(pow10, 21);
    }
    if n - z > 19 {
        // At least twenty significant digits: out of `i64` range for
        // either sign.
        proof {
            assert(stripped[0] == t@[z as int]);
            lemma_digits_val_lower(stripped);
            lemma_pow10_mono(19, (stripped.len() - 1) as nat);
        }
        return Err(ParseError::NotANumber(t.to_owned()));
    }
    let mut mag: u64 = 0;
    let mut i2: usize = z;
    while i2 < n
        invariant
            z <= i2 <= n,
            n == t@.len(),
            n - z <= 19,
            all_digits(stripped),
            stripped == t@.subrange(z as int, n as int),
            mag as int == digits_val(t@.subrange(z as int, i2 as int)),
            (mag as int) < pow10((i2 - z) as nat),
        decreases n - i2,
    {
        let c: char = t.get_char(i2);
        proof {
            assert(stripped[i2 - z as int] == t@[i2 as int]);
            assert(is_digit_char(c));
            let pre = t@.subrange(z as int, i2 as int);
            assert(t@.subrange(z as int, i2 as int + 1).drop_last() =~= pre);
            lemma_pow10_mono((i2 - z + 1) as nat, 19);
            reveal_with_fuel(pow10, 21);
        }
        let d: u32 = c as u32 - 0x30;
        mag = mag * 10 + (d as u64);
        i2 = i2 + 1;
    }
    proof {
        assert(t@.subrange(z as int, n as int) =~= stripped);
        assert(mag as int == digits_val(digits));
        reveal_with_fuel(pow10, 21);
        lemma_pow10_mono((n - z) as nat, 19);
        lemma_digits_val_bounds(stripped);
    }
    if neg {
        if mag > 9223372036854775808u64 {
            return Err(ParseError::NotANumber(t.to_owned()));
        } else if mag == 9223372036854775808u64 {
            Ok(i64::MIN)
        } else {
            Ok(-(mag as i64))
        }
    } else {
        if mag > 9223372036854775807u64 {
            return Err(ParseError::NotANumber(t.to_owned()));
        }
        Ok(mag as i64)
    }
}

} // verus!
