//! The data exchanged by the protocol: ballots, their encryptions, partial
//! decryptions, tallies, committee seats and round configuration.

use vstd::prelude::*;

verus! {

/// Identifier of a node.
pub type NodeId = u64;

/// Identifier of a round.
pub type RoundId = u64;

/// A node taking part in the simulation, and whether it is a Sybil identity
/// controlled by the adversary.
#[derive(Clone, Copy, Debug, PartialEq, Eq)]
pub struct NodeIdentity {
    pub id: NodeId,
    pub adversarial: bool,
}

/// A plaintext ballot: `value` is 1 for yes and 0 for no.
#[derive(Clone, Copy, Debug, PartialEq, Eq)]
pub struct Ballot {
    pub voter: NodeId,
    pub value: u8,
}

/// A ballot after encryption, with the size of its ciphertext.
#[derive(Clone, Debug, PartialEq, Eq)]
pub struct EncryptedBallot {
    pub voter: NodeId,
    pub ciphertext_bytes: usize,
    pub payload: Vec<u8>,
}

/// One committee member's share of a threshold decryption, with the sizes of
/// the share and of its zero-knowledge proof.
#[derive(Clone, Copy, Debug, PartialEq, Eq)]
pub struct PartialDecryption {
    pub round: RoundId,
    pub member: NodeId,
    pub share_bytes: usize,
    pub zk_proof_bytes: usize,
    pub valid: bool,
}

/// The decrypted result of a round.
#[derive(Clone, Copy, Debug, PartialEq, Eq)]
pub struct TallyResult {
    pub round: RoundId,
    pub total_yes: u64,
    pub total_no: u64,
    pub decrypted: bool,
}

/// A seat on the decryption committee, won by a node through its VRF output.
#[derive(Clone, Copy, Debug, PartialEq, Eq)]
pub struct CommitteeSeat {
    pub node_id: NodeId,
    pub vrf_output: u64,
    pub proof_bytes: usize,
    pub adversarial: bool,
}

/// The configuration of one round. `mode` names the protocol variant:
/// "tdg", "fixed-threshold" or "naive".
#[derive(Clone, Debug, PartialEq, Eq)]
pub struct RoundConfig {
    pub round: RoundId,
    pub total_nodes: usize,
    pub committee_size: usize,
    pub threshold: usize,
    pub mode: String,
    pub tdg_enabled: bool,
    pub beacon: u64,
}

} // verus!
