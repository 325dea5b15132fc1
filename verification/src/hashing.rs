//! The type-id digest.
//!
//! A Create binds the script's `type_id` argument to the creating
//! transaction: the digest of the serialized first input followed by the
//! little-endian count of own-type outputs must equal the argument.

use crate::codec::u64_le_bytes;
use crate::codec::u64_to_le_bytes;
use vstd::prelude::*;

verus! {

/// Digest of the chain's default keyed blake2b over the given bytes.
pub uninterp spec fn blake2b_of(data: Seq<u8>) -> Seq<u8>;

/// Relies on `ckb_hash::blake2b_256`: the 32-byte blake2b digest (personalized
/// with `ckb-default-hash`) of the input bytes, a function of them alone.
#[verifier::external_body]
fn blake2b256(data: &Vec<u8>) -> (r: Vec<u8>)
    ensures
        r@ == blake2b_of(data@),
        r@.len() == 32,
{
    ckb_hash::blake2b_256(data).to_vec()
}

/// The message whose digest a Create must carry as its `type_id`.
pub open spec fn type_id_message(first_input: Seq<u8>, outputs_count: u64) -> Seq<u8> {
    first_input + u64_le_bytes(outputs_count)
}

/// Expected `type_id` of an instance created with `outputs_count` own-type
/// outputs by a transaction whose serialized first input is `first_input`.
pub open spec fn spec_type_id(first_input: Seq<u8>, outputs_count: u64) -> Seq<u8> {
    blake2b_of(type_id_message(first_input, outputs_count))
}

pub fn calculate_type_id(first_input: &Vec<u8>, outputs_count: u64) -> (r: Vec<u8>)
    ensures
        r@ == spec_type_id(first_input@, outputs_count),
        r@.len() == 32,
{
    let mut message: Vec<u8> = first_input.clone();
    let mut tail: Vec<u8> = u64_to_le_bytes(outputs_count);
    message.append(&mut tail);
    assert(message@ == type_id_message(first_input@, outputs_count));
    blake2b256(&message)
}

} // verus!
