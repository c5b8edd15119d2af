//! Integer 2D vectors, as used for movement intent.
use vstd::prelude::*;

verus! {

/// A 2D vector with integer components `[x, y]`.
pub type IVec2 = [i64; 2];

/// True iff both components are exactly zero.
pub fn vec2_is_zero(v: IVec2) -> (r: bool)
    ensures
        r == (v[0] == 0 && v[1] == 0),
{
    v[0] == 0 && v[1] == 0
}

/// Relies on vecmath::vec2_add: the component-wise sum of two vectors.
#[verifier::external_body]
pub(crate) fn vec2_add(a: IVec2, b: IVec2) -> (r: IVec2)
    requires
        i64::MIN <= a[0] + b[0] <= i64::MAX,
        i64::MIN <= a[1] + b[1] <= i64::MAX,
    ensures
        r[0] == a[0] + b[0],
        r[1] == a[1] + b[1],
{
    vecmath::vec2_add(a, b)
}

} // verus!
