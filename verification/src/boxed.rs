//! Boxed slices.

use vstd::prelude::*;

verus! {

/// `Vec::into_boxed_slice`: the same elements in the same order.
#[verifier::external_body]
pub(crate) fn into_boxed_slice<T>(v: Vec<T>) -> (r: Box<[T]>)
    ensures
        r@ == v@,
{
    v.into_boxed_slice()
}

} // verus!
