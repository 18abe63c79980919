//! Integer addition and division with an error for a zero divisor.

use vstd::prelude::*;

verus! {

/// The error message of a division by zero.
pub open spec fn division_by_zero_message() -> Seq<char> {
    "Division by zero"@
}

/// The error message of a quotient that does not fit in an `i32`.
pub open spec fn division_overflow_message() -> Seq<char> {
    "Division overflow"@
}

/// Quotient of `a` by `b` rounded toward zero, as Rust's `/` computes it.
pub open spec fn trunc_div(a: int, b: int) -> int {
    let q = abs(a) / abs(b);
    if (a < 0) != (b < 0) {
        -q
    } else {
        q
    }
}

/// Absolute value.
pub open spec fn abs(a: int) -> int {
    if a < 0 {
        -a
    } else {
        a
    }
}

proof fn lemma_div_neg_divisor(a: int, b: int)
    by (nonlinear_arith)
    requires
        a >= 0,
        b < 0,
    ensures
        a / b == -(a / (-b)),
        0 <= a / (-b) <= a,
        b <= -2 ==> a / (-b) <= a / 2,
{
}

/// Adds two numbers.
pub fn add(a: i32, b: i32) -> (r: i32)
    requires
        i32::MIN <= a + b <= i32::MAX,
    ensures
        r == a + b,
{
    a + b
}

/// Divides `a` by `b`, rounding toward zero. A zero divisor is an error,
/// and so is `i32::MIN / -1`, whose quotient does not fit in an `i32`.
pub fn divide(a: i32, b: i32) -> (r: Result<i32, String>)
    ensures
        (b == 0 || (a == i32::MIN && b == -1)) <==> r is Err,
        b == 0 ==> (r matches Err(m) && m@ == division_by_zero_message()),
        (a == i32::MIN && b == -1) ==> (r matches Err(m) && m@ == division_overflow_message()),
        r matches Ok(q) ==> q == trunc_div(a as int, b as int),
{
    if b == 0 {
        Err(String::from_str("Division by zero"))
    } else if a == i32::MIN && b == -1 {
        Err(String::from_str("Division overflow"))
    } else {
        let q = a / b;
        if a >= 0 && b > 0 {
            assert(q == (a as int) / (b as int));
        } else if a < 0 && b > 0 {
            assert(q == -((-(a as int)) / (b as int)));
        } else if a >= 0 && b < 0 {
            assert(q == -((a as int) / (-(b as int)))) by {
                lemma_div_neg_divisor(a as int, b as int);
            }
        } else {
            proof {
                lemma_div_neg_divisor(-(a as int), b as int);
            }
            assert(q == (-(a as int)) / (-(b as int)));
        }
        Ok(q)
    }
}

} // verus!
