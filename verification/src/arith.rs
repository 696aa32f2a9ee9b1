//! Stateless integer exports.
use vstd::prelude::*;

verus! {

/// The value that [`get_magic_number`] returns.
pub const MAGIC_NUMBER: i32 = 42;

/// Sum of two integers. The sum has to fit in an `i32`.
pub fn add(a: i32, b: i32) -> (sum: i32)
    requires
        i32::MIN <= a + b <= i32::MAX,
    ensures
        sum == a + b,
{
    a + b
}

/// Product of two integers. The product has to fit in an `i32`.
pub fn multiply(a: i32, b: i32) -> (product: i32)
    requires
        i32::MIN <= a * b <= i32::MAX,
    ensures
        product == a * b,
{
    a * b
}

/// Arithmetic negation. `i64::MIN` has no negation in `i64`.
pub fn negate_i64(x: i64) -> (negated: i64)
    requires
        x != i64::MIN,
    ensures
        negated == -x,
{
    -x
}

/// A fixed number, for callers that probe the module.
pub fn get_magic_number() -> (n: i32)
    ensures
        n == MAGIC_NUMBER,
{
    MAGIC_NUMBER
}

} // verus!
