//! Governance of the threshold parameters: a root-only call sets the
//! committee size and threshold, and an off-chain worker reports tallies.

use vstd::prelude::*;

use crate::bytes::{u64_le_bytes, u64_to_le_bytes};

verus! {

/// Who dispatched a call.
#[derive(Clone, Copy, Debug, PartialEq, Eq)]
pub enum Origin {
    Root,
    Signed(u64),
    Unsigned,
}

/// Why a dispatched call was refused.
#[derive(Clone, Copy, Debug, PartialEq, Eq)]
pub enum DispatchError {
    BadOrigin,
}

/// The events the governance state records.
#[derive(Clone, Copy, Debug, PartialEq, Eq)]
pub enum Event {
    ConfigUpdated { committee_size: u32, threshold: u32 },
    TallyCompleted { round: u64, success: bool },
}

/// What came of handing a signed tally transaction to the transaction pool.
#[derive(Clone, Copy, Debug, PartialEq, Eq)]
pub enum SubmissionOutcome {
    /// The transaction was signed and submitted.
    Submitted,
    /// No local account could sign it.
    NoLocalAccount,
    /// Submission failed.
    Failed,
}

/// The payload of the tally transaction the off-chain worker submits.
pub const TALLY_PAYLOAD: u64 = 42;

/// The storage of the governance module: the `(committee size, threshold)`
/// pair, the current round, and the events deposited so far.
pub struct Pallet {
    tdg_parameters: (u32, u32),
    current_round: u64,
    events: Vec<Event>,
}

impl Pallet {
    pub closed spec fn spec_tdg_params(&self) -> (u32, u32) {
        self.tdg_parameters
    }

    pub closed spec fn spec_current_round(&self) -> u64 {
        self.current_round
    }

    pub closed spec fn spec_events(&self) -> Seq<Event> {
        self.events@
    }

    /// Fresh storage: parameters `(0, 0)`, round 0, no events.
    pub fn new() -> (p: Pallet)
        ensures
            p.spec_tdg_params() == (0u32, 0u32),
            p.spec_current_round() == 0,
            p.spec_events() == Seq::<Event>::empty(),
    {
        Pallet { tdg_parameters: (0, 0), current_round: 0, events: Vec::new() }
    }

    /// The stored `(committee size, threshold)` pair.
    pub fn tdg_params(&self) -> (params: (u32, u32))
        ensures
            params == self.spec_tdg_params(),
    {
        self.tdg_parameters
    }

    /// The stored committee size.
    pub fn committee_size(&self) -> (size: u32)
        ensures
            size == self.spec_tdg_params().0,
    {
        self.tdg_parameters.0
    }

    /// The stored threshold.
    pub fn threshold(&self) -> (threshold: u32)
        ensures
            threshold == self.spec_tdg_params().1,
    {
        self.tdg_parameters.1
    }

    /// The stored round.
    pub fn current_round(&self) -> (round: u64)
        ensures
            round == self.spec_current_round(),
    {
        self.current_round
    }

    /// The events deposited so far, oldest first.
    pub fn events(&self) -> (events: &[Event])
        ensures
            events@ == self.spec_events(),
    {
        self.events.as_slice()
    }

    /// Sets the committee size and threshold. Only the root origin may do so;
    /// on success a `ConfigUpdated` event is deposited, and any other origin
    /// is refused with the storage untouched.
    pub fn update_tdg_parameters(&mut self, origin: Origin, committee_size: u32, threshold: u32) -> (r:
        Result<(), DispatchError>)
        ensures
            origin == Origin::Root ==> {
                &&& r == Ok::<(), DispatchError>(())
                &&& final(self).spec_tdg_params() == (committee_size, threshold)
                &&& final(self).spec_current_round() == old(self).spec_current_round()
                &&& final(self).spec_events() == old(self).spec_events().push(
                    Event::ConfigUpdated { committee_size, threshold },
                )
            },
            origin != Origin::Root ==> {
                &&& r == Err::<(), DispatchError>(DispatchError::BadOrigin)
                &&& final(self).spec_tdg_params() == old(self).spec_tdg_params()
                &&& final(self).spec_current_round() == old(self).spec_current_round()
                &&& final(self).spec_events() == old(self).spec_events()
            },
    {
        match origin {
            Origin::Root => {},
            _ => {
                return Err(DispatchError::BadOrigin);
            },
        }
        self.tdg_parameters = (committee_size, threshold);
        self.events.push(Event::ConfigUpdated { committee_size, threshold });
        Ok(())
    }

    /// The remark a tally transaction carries: the payload, encoded in eight
    /// little-endian bytes. The off-chain worker submits `TALLY_PAYLOAD`.
    pub fn tally_remark(payload: u64) -> (remark: Vec<u8>)
        ensures
            remark@ == u64_le_bytes(payload),
    {
        u64_to_le_bytes(payload)
    }

    /// What the off-chain worker reports once its tally transaction was
    /// handed to the pool: success when it was submitted or when no local
    /// account could sign it, and an error when submission failed.
    pub fn submit_tally_transaction(outcome: SubmissionOutcome) -> (r: Result<(), &'static str>)
        ensures
            outcome != SubmissionOutcome::Failed ==> r == Ok::<(), &'static str>(()),
            outcome == SubmissionOutcome::Failed ==> (r matches Err(e) && e@
                == "offchain_tx_failed"@),
    {
        match outcome {
            SubmissionOutcome::Submitted => Ok(()),
            SubmissionOutcome::NoLocalAccount => Ok(()),
            SubmissionOutcome::Failed => Err("offchain_tx_failed"),
        }
    }
}

} // verus!
