//! Committee selection, threshold policy and tallying for a post-quantum,
//! MPC-style voting round, with the decisions of the round simulation.

pub mod bytes;
pub mod committee;
pub mod crypto;
pub mod governance;
pub mod hash;
pub mod policy;
pub mod rng;
pub mod sim;
pub mod types;
pub mod vrf;

pub use committee::{rank_committee, select_committee};
pub use crypto::{MockThresholdCrypto, ThresholdCrypto};
pub use policy::{outcome_changed, tdg_adjust_threshold, PressureLevel};
pub use types::{
    Ballot, CommitteeSeat, EncryptedBallot, NodeId, NodeIdentity, PartialDecryption, RoundConfig,
    RoundId, TallyResult,
};
pub use vrf::SimpleVrf as MockVrf;
pub use vrf::{SimpleVrf, Vrf};
