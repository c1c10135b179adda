//! Random choice from a slice.

use vstd::prelude::*;
use rand::seq::SliceRandom;

verus! {

/// `SliceRandom::choose` with the thread-local generator: `None` exactly for
/// an empty slice, otherwise a reference to one of its elements. Which element
/// comes back rests on chance; nothing more is stated.
#[verifier::external_body]
pub(crate) fn choose_one<'a, T>(items: &'a [T]) -> (r: Option<&'a T>)
    ensures
        r is None <==> items@.len() == 0,
        r matches Some(x) ==> items@.contains(*x),
{
    items.choose(&mut rand::thread_rng())
}

} // verus!
