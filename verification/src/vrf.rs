//! Verifiable random functions used to draw committee seats.

use vstd::prelude::*;

use crate::bytes::{le_u64_value, u64_le_bytes, u64_from_le_prefix, u64_to_le_bytes};
use crate::hash::{blake3_digest, blake3_hash};

verus! {

/// A verifiable random function: `eval` maps a round beacon and a node to a
/// pseudo-random output and the size in bytes of its proof.
pub trait Vrf: Send + Sync {
    fn eval(&self, beacon: u64, node_id: u64) -> (u64, usize);

    fn name(&self) -> &'static str;
}

/// A VRF stand-in that hashes the beacon and the node identifier with BLAKE3.
pub struct SimpleVrf;

/// The size in bytes that `SimpleVrf` reports for its proofs.
pub const SIMPLE_VRF_PROOF_BYTES: usize = 96;

/// The bytes `SimpleVrf` hashes: the beacon, then the node identifier, each
/// in eight little-endian bytes.
pub open spec fn simple_vrf_input(beacon: u64, node_id: u64) -> Seq<u8> {
    u64_le_bytes(beacon) + u64_le_bytes(node_id)
}

/// The output of `SimpleVrf`: the first eight bytes of the digest, read as a
/// little-endian integer.
pub open spec fn spec_simple_vrf_output(beacon: u64, node_id: u64) -> int {
    le_u64_value(blake3_digest(simple_vrf_input(beacon, node_id)))
}

/// Reads a VRF output from a digest: its first eight bytes, little-endian.
pub fn vrf_output_from_digest(digest: &[u8]) -> (output: u64)
    requires
        digest@.len() >= 8,
    ensures
        output == le_u64_value(digest@),
{
    u64_from_le_prefix(digest)
}

impl Vrf for SimpleVrf {
    fn eval(&self, beacon: u64, node_id: u64) -> (out: (u64, usize))
        ensures
            out.0 == spec_simple_vrf_output(beacon, node_id),
            out.1 == SIMPLE_VRF_PROOF_BYTES,
    {
        let mut input = u64_to_le_bytes(beacon);
        let mut node_bytes = u64_to_le_bytes(node_id);
        input.append(&mut node_bytes);
        let digest = blake3_hash(input.as_slice());
        (vrf_output_from_digest(digest.as_slice()), SIMPLE_VRF_PROOF_BYTES)
    }

    fn name(&self) -> (name: &'static str)
        ensures
            name@ == "simple-hash-vrf"@,
    {
        "simple-hash-vrf"
    }
}

} // verus!
