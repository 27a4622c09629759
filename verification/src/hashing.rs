use vstd::prelude::*;

verus! {

/// The identifier that the runtime's hashing algorithm gives to the bytes of a
/// commodity's info.
pub uninterp spec fn commodity_hash(info: Seq<u8>) -> Seq<u8>;

/// Calls `<BlakeTwo256 as sp_runtime::traits::Hash>::hash_of` on the info and
/// returns the 32 bytes of the resulting `H256`.
///
/// Claimed: the result is a function of the info's bytes alone (named
/// `commodity_hash`). Not stated: which function that is (BLAKE2b-256 of the
/// SCALE encoding of the bytes). The SCALE encoding of a byte vector panics
/// where its length does not fit in a `u32`, so such infos are left out.
#[verifier::external_body]
pub(crate) fn hash_of_info(info: &Vec<u8>) -> (id: [u8; 32])
    requires
        info@.len() <= u32::MAX,
    ensures
        id@ == commodity_hash(info@),
{
    <sp_runtime::traits::BlakeTwo256 as sp_runtime::traits::Hash>::hash_of(info).0
}

} // verus!
