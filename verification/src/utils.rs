//! Small arithmetic helpers.

use vstd::prelude::*;
use vstd::std_specs::ops::MulSpec;
use std::ops::Mul;

verus! {

/// The product of `x` with itself, for any type that has a multiplication.
pub fn square<T>(x: T) -> (r: T) where T: Copy + Mul<Output = T>
    requires
        x.mul_req(x),
    ensures
        T::obeys_mul_spec() ==> r == x.mul_spec(x),
{
    x * x
}

} // verus!
