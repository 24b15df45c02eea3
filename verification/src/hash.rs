//! A reproducible digest of a shape, used to order shapes that are equally
//! hard to play.
use std::collections::hash_map::DefaultHasher;
use std::hash::Hash;
use std::hash::Hasher;
use vstd::prelude::*;
use vstd::std_specs::hash::DefaultHasherAdditionalSpecFns;

verus! {

/// The byte sequences that `Hash::hash` of a `Vec<Option<u8>>` with the
/// given slots writes into a hasher.
pub uninterp spec fn hash_writes(slots: Seq<Option<u8>>) -> Seq<Seq<u8>>;

/// Feeds the slots to the hasher through `std::hash::Hash::hash` of
/// `Vec<Option<u8>>`.
///
/// Not proved, but taken from the standard library: the hasher receives,
/// after whatever it had received before, a series of writes that depends
/// on the slots alone.
#[verifier::external_body]
fn feed_slots(slots: &Vec<Option<u8>>, state: &mut DefaultHasher)
    ensures
        final(state)@ == old(state)@ + hash_writes(slots@),
{
    slots.hash(state);
}

/// The digest of a sequence of slots.
pub open spec fn shape_hash(slots: Seq<Option<u8>>) -> u64 {
    DefaultHasher::spec_finish(hash_writes(slots))
}

/// Hashes a sequence of slots with the standard hasher in its fixed initial
/// state: equal sequences always give equal digests.
pub fn calculate_hash(t: &Vec<Option<u8>>) -> (h: u64)
    ensures
        h == shape_hash(t@),
{
    let mut s = DefaultHasher::new();
    feed_slots(t, &mut s);
    assert(s@ =~= hash_writes(t@));
    s.finish()
}

} // verus!
