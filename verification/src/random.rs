//! The two random draws of the candidate selector, made by `rand`.
//!
//! A draw depends on chance, so its contract says only what holds of every
//! outcome. Two calls with the same arguments may differ.
//!
//! Both draws use `rand::thread_rng`, which the system seeds when a thread
//! first asks for it. On a system without a source of randomness that fails,
//! whatever the arguments; the contracts speak of the calls that return.

use vstd::prelude::*;
use rand::Rng;
use rand::seq::SliceRandom;
use crate::model::GroupId;

verus! {

/// Draws an id from `min..=max` with `Rng::gen_range` on the thread's generator.
///
/// Trusted: the id lies in the range. `gen_range` panics on an empty range,
/// which `requires` leaves out.
#[verifier::external_body]
pub(crate) fn random_in_range(min: GroupId, max: GroupId) -> (id: GroupId)
    requires
        min <= max,
    ensures
        min <= id <= max,
{
    rand::thread_rng().gen_range(min..=max)
}

/// Picks one of `ids` with `SliceRandom::choose` on the thread's generator.
///
/// Trusted: an empty list gives nothing; any other list gives one of its
/// elements.
#[verifier::external_body]
pub(crate) fn choose_id(ids: &Vec<GroupId>) -> (picked: Option<GroupId>)
    ensures
        ids@.len() == 0 ==> picked is None,
        ids@.len() > 0 ==> picked is Some && ids@.contains(picked->Some_0),
{
    ids.choose(&mut rand::thread_rng()).copied()
}

} // verus!
