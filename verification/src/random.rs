//! What chance decides: which loadout is tried next, and the name of the
//! directory of a run.

use vstd::prelude::*;
use rand::Rng;

verus! {

/// A place in a row of `len`, picked by chance.
///
/// This is `rand::thread_rng` followed by `Rng::gen_range` from zero to
/// `len`, which gives a number from zero up to, and without, `len`, and
/// panics on an empty range, hence the bound. Nothing is said of which
/// number comes. The generator is seeded by the system, and gives up
/// where the system has no random bytes to hand out.
#[verifier::external_body]
pub(crate) fn random_index(len: usize) -> (index: usize)
    requires
        len > 0,
    ensures
        index < len,
{
    rand::thread_rng().gen_range(0, len)
}

/// A name that no run before has had.
///
/// This is `uuid::Uuid::new_v4`, a random identifier, written out with
/// `to_string`. Nothing is said of the name. The identifier is drawn from
/// the system, and the call gives up where the system has no random bytes
/// to hand out.
#[verifier::external_body]
pub(crate) fn fresh_name() -> (name: String) {
    uuid::Uuid::new_v4().to_string()
}

} // verus!
