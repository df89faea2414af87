//! Generic selection helpers over plain values.

use vstd::prelude::*;
use vstd::std_specs::cmp::PartialOrdSpec;

verus! {

/// The larger of two values: the first, unless the second compares
/// strictly greater. When the two do not compare, the second is returned,
/// as `a >= b` is then false.
pub fn largest<T: PartialOrd + Copy>(a: T, b: T) -> (r: T)
    ensures
        r == a || r == b,
        T::obeys_partial_cmp_spec() ==> ((a.partial_cmp_spec(&b) matches Some(
            core::cmp::Ordering::Greater
            | core::cmp::Ordering::Equal,
        )) ==> r == a),
        T::obeys_partial_cmp_spec() ==> (!(a.partial_cmp_spec(&b) matches Some(
            core::cmp::Ordering::Greater
            | core::cmp::Ordering::Equal,
        )) ==> r == b),
{
    if a >= b {
        a
    } else {
        b
    }
}

/// Appends one value at the end of the vector.
pub fn push_value(vec: &mut Vec<i32>, value: i32)
    ensures
        final(vec)@ == old(vec)@.push(value),
{
    vec.push(value);
}

/// The first even element of `s`, if it has one.
pub open spec fn find_even_spec(s: Seq<i32>) -> Option<i32>
    decreases s.len(),
{
    if s.len() == 0 {
        None
    } else if s[0] % 2 == 0 {
        Some(s[0])
    } else {
        find_even_spec(s.drop_first())
    }
}

proof fn lemma_find_even_at(s: Seq<i32>, i: int)
    requires
        0 <= i <= s.len(),
        forall|k: int| 0 <= k < i ==> s[k] % 2 != 0,
        i == s.len() || s[i] % 2 == 0,
    ensures
        find_even_spec(s) == (if i == s.len() {
            None
        } else {
            Some(s[i])
        }),
    decreases i,
{
    if i > 0 {
        let t = s.drop_first();
        assert(forall|k: int| 0 <= k < i - 1 ==> t[k] == s[k + 1]);
        lemma_find_even_at(t, i - 1);
    }
}

/// Scans left to right for the first even number.
pub fn find_even(numbers: &[i32]) -> (r: Option<i32>)
    ensures
        r == find_even_spec(numbers@),
{
    let n: usize = numbers.len();
    let mut i: usize = 0;
    while i < n
        invariant
            i <= n,
            n == numbers@.len(),
            forall|k: int| 0 <= k < i ==> numbers@[k] % 2 != 0,
        decreases n - i,
    {
        let v: i32 = numbers[i];
        if v % 2 == 0 {
            proof {
                lemma_find_even_at(numbers@, i as int);
            }
            return Some(v);
        }
        i = i + 1;
    }
    proof {
        lemma_find_even_at(numbers@, n as int);
    }
    None
}

} // verus!
