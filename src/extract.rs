//! Taking the chosen element out of an owned collection: the element is
//! moved out, and every other element is dropped with the collection.
use vstd::prelude::*;
use std::collections::VecDeque;

verus! {

/// Relies on `Vec::from` for arrays: the vector holds the array's items, in
/// order.
#[verifier::external_body]
fn array_into_vec<T, const LEN: usize>(input: [T; LEN]) -> (r: Vec<T>)
    ensures
        r@ == input@,
{
    Vec::from(input)
}

/// The element at `index`, moved out of `input`.
pub fn vec_to_single_element<T>(input: Vec<T>, index: usize) -> (r: T)
    requires
        index < input@.len(),
    ensures
        r == input@[index as int],
{
    let mut input = input;
    input.swap_remove(index)
}

/// The element at `index`, moved out of `input`.
pub fn array_to_single_element<T, const LEN: usize>(input: [T; LEN], index: usize) -> (r: T)
    requires
        index < LEN,
    ensures
        r == input@[index as int],
{
    let v = array_into_vec(input);
    vec_to_single_element(v, index)
}

/// The element at `index`, moved out of `input`.
pub fn vec_deque_to_single_element<T>(input: VecDeque<T>, index: usize) -> (r: T)
    requires
        index < input@.len(),
    ensures
        r == input@[index as int],
{
    let mut input = input;
    let r = input.remove(index);
    r.unwrap()
}

} // verus!
