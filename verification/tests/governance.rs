use pq_mpc_core::governance::{DispatchError, Event, Origin, Pallet, SubmissionOutcome, TALLY_PAYLOAD};

#[test]
fn fresh_storage_is_zero() {
    let p = Pallet::new();
    assert_eq!(p.tdg_params(), (0, 0));
    assert_eq!(p.committee_size(), 0);
    assert_eq!(p.threshold(), 0);
    assert_eq!(p.current_round(), 0);
    assert!(p.events().is_empty());
}

#[test]
fn root_updates_parameters_and_deposits_event() {
    let mut p = Pallet::new();
    assert_eq!(p.update_tdg_parameters(Origin::Root, 20, 12), Ok(()));
    assert_eq!(p.tdg_params(), (20, 12));
    assert_eq!(p.committee_size(), 20);
    assert_eq!(p.threshold(), 12);
    assert_eq!(p.events(), &[Event::ConfigUpdated { committee_size: 20, threshold: 12 }]);
    assert_eq!(p.update_tdg_parameters(Origin::Root, 30, 18), Ok(()));
    assert_eq!(p.tdg_params(), (30, 18));
    assert_eq!(p.events().len(), 2);
    assert_eq!(p.current_round(), 0);
}

#[test]
fn signed_origin_is_refused() {
    let mut p = Pallet::new();
    p.update_tdg_parameters(Origin::Root, 20, 12).unwrap();
    assert_eq!(p.update_tdg_parameters(Origin::Signed(7), 1, 1), Err(DispatchError::BadOrigin));
    assert_eq!(p.update_tdg_parameters(Origin::Unsigned, 1, 1), Err(DispatchError::BadOrigin));
    assert_eq!(p.tdg_params(), (20, 12));
    assert_eq!(p.events().len(), 1);
}

#[test]
fn tally_remark_encodes_payload() {
    assert_eq!(Pallet::tally_remark(TALLY_PAYLOAD), TALLY_PAYLOAD.to_le_bytes().to_vec());
    assert_eq!(Pallet::tally_remark(TALLY_PAYLOAD), vec![42, 0, 0, 0, 0, 0, 0, 0]);
    assert_eq!(Pallet::tally_remark(0x0102), vec![2, 1, 0, 0, 0, 0, 0, 0]);
}

#[test]
fn tally_submission_results() {
    assert_eq!(Pallet::submit_tally_transaction(SubmissionOutcome::Submitted), Ok(()));
    assert_eq!(Pallet::submit_tally_transaction(SubmissionOutcome::NoLocalAccount), Ok(()));
    assert_eq!(Pallet::submit_tally_transaction(SubmissionOutcome::Failed), Err("offchain_tx_failed"));
}
