use pq_mpc_core::sim::{
    adjusts_threshold, all_voters_known, build_nodes, ciphertext_bytes, generate_adversary_ballots,
    generate_honest_ballots, honest_count, honest_tally, mpc_round_report, naive_round_report,
    parse_sim_mode, plan_mpc_round, share_bytes, snapshot_all_ballots, sybil_count,
    tally_step, undecrypted_tally, MpcPlan, SimMode, TallyStep,
};
use pq_mpc_core::{
    Ballot, CommitteeSeat, EncryptedBallot, MockThresholdCrypto, NodeIdentity, PressureLevel,
    RoundConfig, TallyResult, ThresholdCrypto,
};
use rand::seq::SliceRandom;
use rand::SeedableRng;
use rand_chacha::ChaCha8Rng;

fn config(mode: &str) -> RoundConfig {
    RoundConfig {
        round: 3,
        total_nodes: 10,
        committee_size: 4,
        threshold: 2,
        mode: mode.to_string(),
        tdg_enabled: true,
        beacon: 77,
    }
}

#[test]
fn builds_sybils_first() {
    let nodes = build_nodes(5, 2);
    assert_eq!(nodes.len(), 5);
    for (i, n) in nodes.iter().enumerate() {
        assert_eq!(n.id, i as u64);
        assert_eq!(n.adversarial, i < 2);
    }
    assert_eq!(sybil_count(&nodes), 2);
    assert_eq!(honest_count(&nodes), 3);
    assert!(build_nodes(0, 3).is_empty());
    assert_eq!(sybil_count(&build_nodes(3, 10)), 3);
}

#[test]
fn honest_ballots_follow_coins() {
    let nodes = build_nodes(5, 2);
    let ballots = generate_honest_ballots(&nodes, &[true, false, true]);
    assert_eq!(
        ballots,
        vec![
            Ballot { voter: 2, value: 1 },
            Ballot { voter: 3, value: 0 },
            Ballot { voter: 4, value: 1 }
        ]
    );
}

#[test]
fn adversaries_vote_yes() {
    let nodes = build_nodes(5, 2);
    assert_eq!(
        generate_adversary_ballots(&nodes),
        vec![Ballot { voter: 0, value: 1 }, Ballot { voter: 1, value: 1 }]
    );
}

#[test]
fn snapshot_is_a_shuffle_of_all_ballots() {
    let nodes = build_nodes(8, 3);
    let coins = [true, false, false, true, true];
    let mut rng = ChaCha8Rng::seed_from_u64(42);
    let ballots = snapshot_all_ballots(&nodes, &coins, &mut rng);

    let mut expected = generate_honest_ballots(&nodes, &coins);
    expected.extend(generate_adversary_ballots(&nodes));
    let mut reference_rng = ChaCha8Rng::seed_from_u64(42);
    let mut reference = expected.clone();
    reference.shuffle(&mut reference_rng);
    assert_eq!(ballots, reference);
    assert_ne!(ballots, expected);

    let mut sorted = ballots.clone();
    sorted.sort_by_key(|b| (b.voter, b.value));
    expected.sort_by_key(|b| (b.voter, b.value));
    assert_eq!(sorted, expected);
    assert!(all_voters_known(&nodes, &ballots));
}

#[test]
fn unknown_voter_is_detected() {
    let nodes = build_nodes(2, 0);
    assert!(!all_voters_known(&nodes, &[Ballot { voter: 2, value: 1 }]));
    assert!(all_voters_known(&nodes, &[Ballot { voter: 1, value: 1 }]));
}

#[test]
fn honest_tally_counts_only_honest_voters() {
    let nodes = build_nodes(5, 2);
    let ballots = [
        Ballot { voter: 0, value: 1 },
        Ballot { voter: 2, value: 1 },
        Ballot { voter: 1, value: 1 },
        Ballot { voter: 3, value: 0 },
        Ballot { voter: 4, value: 0 },
    ];
    assert_eq!(honest_tally(&nodes, &ballots), (1, 2));
}

#[test]
fn naive_round_adversary_flips_outcome() {
    let nodes = build_nodes(5, 2);
    let ballots = [
        Ballot { voter: 0, value: 1 },
        Ballot { voter: 1, value: 1 },
        Ballot { voter: 2, value: 1 },
        Ballot { voter: 3, value: 0 },
        Ballot { voter: 4, value: 0 },
    ];
    let r = naive_round_report(&config("naive"), &nodes, &ballots);
    assert_eq!((r.honest_tally_yes, r.honest_tally_no), (1, 2));
    assert_eq!((r.adversary_tally_yes, r.adversary_tally_no), (3, 2));
    assert!(r.outcome_changed && r.adversarial && r.success);
    assert!(r.tallied && !r.liveness_fail);
    assert_eq!(r.num_sybils, 2);
    assert_eq!(r.round, 3);
    assert_eq!((r.committee_size, r.threshold, r.new_threshold, r.ct_bytes), (0, 0, 0, 0));
}

#[test]
fn naive_round_report_ignores_ballot_order() {
    let nodes = build_nodes(6, 2);
    let ballots = vec![
        Ballot { voter: 0, value: 1 },
        Ballot { voter: 1, value: 1 },
        Ballot { voter: 2, value: 0 },
        Ballot { voter: 3, value: 1 },
        Ballot { voter: 4, value: 0 },
        Ballot { voter: 5, value: 0 },
    ];
    let mut reordered = ballots.clone();
    reordered.reverse();
    let cfg = config("naive");
    assert_eq!(naive_round_report(&cfg, &nodes, &ballots), naive_round_report(&cfg, &nodes, &reordered));
}

fn seat(node_id: u64, adversarial: bool) -> CommitteeSeat {
    CommitteeSeat { node_id, vrf_output: node_id * 10, proof_bytes: 96, adversarial }
}

#[test]
fn plan_counts_seats_and_picks_decryptors() {
    let committee = [seat(1, false), seat(2, true), seat(3, false), seat(4, false)];
    let plan = plan_mpc_round(2, 4, PressureLevel::Low, false, &committee);
    assert_eq!(
        plan,
        MpcPlan { new_threshold: 2, adversary_controlled_seats: 1, liveness_fail: false, decrypting_members: vec![1, 2] }
    );
}

#[test]
fn plan_adjusts_threshold_under_pressure() {
    let committee = [seat(1, false), seat(2, true), seat(3, false), seat(4, false)];
    let plan = plan_mpc_round(2, 4, PressureLevel::Elevated, true, &committee);
    assert_eq!(plan.new_threshold, 3);
    assert!(!plan.liveness_fail);
    assert_eq!(plan.decrypting_members, vec![1, 2, 3]);
    let plan = plan_mpc_round(2, 20, PressureLevel::Severe, true, &committee);
    assert_eq!(plan.new_threshold, 5);
    assert!(plan.liveness_fail);
    assert!(plan.decrypting_members.is_empty());
}

#[test]
fn plan_with_threshold_above_committee_asks_every_seat() {
    let committee = [seat(1, false), seat(2, false)];
    let plan = plan_mpc_round(2, 2, PressureLevel::Low, false, &committee);
    assert!(!plan.liveness_fail);
    assert_eq!(plan.decrypting_members, vec![1, 2]);
}

#[test]
fn undecrypted_tally_is_empty() {
    assert_eq!(undecrypted_tally(9), TallyResult { round: 9, total_yes: 0, total_no: 0, decrypted: false });
}

#[test]
fn byte_totals() {
    let ct = EncryptedBallot { voter: 0, ciphertext_bytes: 1280, payload: vec![] };
    assert_eq!(ciphertext_bytes(&[ct.clone(), ct.clone()]), Some(2560));
    let big = EncryptedBallot { voter: 0, ciphertext_bytes: usize::MAX, payload: vec![] };
    assert_eq!(ciphertext_bytes(&[big, ct]), None);
    let share = MockThresholdCrypto.partial_decrypt(0, 0, true);
    assert_eq!(share_bytes(&[share, share, share]), Some((576, 1536)));
    let mut huge = share;
    huge.share_bytes = usize::MAX;
    assert_eq!(share_bytes(&[huge]), None);
    assert_eq!(share_bytes(&[]), Some((0, 0)));
}

#[test]
fn mpc_round_report_from_mock_crypto() {
    let nodes = build_nodes(5, 2);
    let ballots = vec![
        Ballot { voter: 0, value: 1 },
        Ballot { voter: 1, value: 1 },
        Ballot { voter: 2, value: 1 },
        Ballot { voter: 3, value: 0 },
        Ballot { voter: 4, value: 0 },
    ];
    let crypto = MockThresholdCrypto;
    let cts: Vec<EncryptedBallot> = ballots.iter().map(|b| crypto.encrypt_ballot(b)).collect();
    let committee = [seat(2, false), seat(0, true), seat(3, false)];
    let plan = plan_mpc_round(2, 3, PressureLevel::Low, false, &committee);
    assert!(!plan.liveness_fail);
    let shares: Vec<_> = plan.decrypting_members.iter().map(|m| crypto.partial_decrypt(3, *m, true)).collect();
    let tally = crypto.combine(3, &shares, &ballots);
    let r = mpc_round_report(&config("tdg"), &plan, &nodes, &ballots, &cts, &shares, &tally).unwrap();
    assert_eq!(r.ct_bytes, 5 * 1280);
    assert_eq!(r.zk_proof_bytes, 2 * 192);
    assert_eq!(r.net_bytes_sent, 2 * 512);
    assert_eq!(r.net_bytes_recv, 2 * 512);
    assert_eq!((r.honest_tally_yes, r.honest_tally_no), (1, 2));
    assert_eq!((r.adversary_tally_yes, r.adversary_tally_no), (3, 2));
    assert!(r.outcome_changed);
    assert_eq!(r.adversary_controlled_seats, 1);
    assert!(!r.adversarial && !r.success);
    assert!(r.tallied && !r.liveness_fail);
    assert_eq!((r.committee_size, r.threshold, r.new_threshold), (4, 2, 2));
    assert_eq!(r.num_sybils, 2);
}

#[test]
fn mpc_round_report_when_liveness_fails() {
    let nodes = build_nodes(4, 3);
    let ballots: Vec<Ballot> = (0..4).map(|i| Ballot { voter: i, value: 1 }).collect();
    let committee = [seat(0, true), seat(1, true), seat(3, false)];
    let plan = plan_mpc_round(2, 3, PressureLevel::Low, false, &committee);
    assert!(plan.liveness_fail);
    assert!(plan.decrypting_members.is_empty());
    let tally = undecrypted_tally(3);
    let r = mpc_round_report(&config("fixed-threshold"), &plan, &nodes, &ballots, &[], &[], &tally).unwrap();
    assert!(r.liveness_fail && !r.tallied && !r.outcome_changed);
    assert!(r.adversarial && r.success);
    assert_eq!(r.adversary_controlled_seats, 2);
    assert_eq!((r.adversary_tally_yes, r.adversary_tally_no), (0, 0));
}

#[test]
fn mpc_round_report_refuses_overflowing_tally() {
    let nodes = build_nodes(1, 0);
    let plan = plan_mpc_round(1, 1, PressureLevel::Low, false, &[seat(0, false)]);
    let tally = TallyResult { round: 0, total_yes: u64::MAX, total_no: 1, decrypted: true };
    assert_eq!(mpc_round_report(&config("tdg"), &plan, &nodes, &[], &[], &[], &tally), None);
}

#[test]
fn mode_names() {
    assert_eq!(parse_sim_mode(&"naive".to_string()), Some(SimMode::Naive));
    assert_eq!(parse_sim_mode(&"fixed-threshold".to_string()), Some(SimMode::FixedThreshold));
    assert_eq!(parse_sim_mode(&"tdg".to_string()), Some(SimMode::Tdg));
    assert_eq!(parse_sim_mode(&"TDG".to_string()), None);
    assert_eq!(parse_sim_mode(&"".to_string()), None);
    assert!(adjusts_threshold(SimMode::Tdg, true));
    assert!(!adjusts_threshold(SimMode::Tdg, false));
    assert!(!adjusts_threshold(SimMode::FixedThreshold, true));
}

#[test]
fn captured_and_live_committee_needs_two_thresholds() {
    // Three seats, threshold two: the adversary cannot both hold two seats
    // and leave two honest ones.
    let committee = [seat(0, true), seat(1, true), seat(2, false)];
    let plan = plan_mpc_round(2, 3, PressureLevel::Low, false, &committee);
    assert!(plan.adversary_controlled_seats >= plan.new_threshold);
    assert!(plan.liveness_fail);
    let nodes: Vec<NodeIdentity> = build_nodes(3, 2);
    assert_eq!(nodes.len(), 3);
}

#[test]
fn every_seat_is_adversarial_or_honest() {
    let committee = [seat(0, true), seat(1, false), seat(2, true), seat(3, false), seat(4, false)];
    let plan = plan_mpc_round(10, 5, PressureLevel::Low, false, &committee);
    assert_eq!(plan.adversary_controlled_seats, 2);
    // Three honest seats are fewer than the threshold of ten.
    assert!(plan.liveness_fail);
    let plan = plan_mpc_round(3, 5, PressureLevel::Low, false, &committee);
    assert!(!plan.liveness_fail);
    assert_eq!(plan.decrypting_members, vec![0, 1, 2]);
}

#[test]
fn tally_step_follows_liveness() {
    let live = plan_mpc_round(1, 2, PressureLevel::Low, false, &[seat(0, false), seat(1, true)]);
    assert_eq!(tally_step(&live, 4), TallyStep::Combine);
    let dead = plan_mpc_round(2, 2, PressureLevel::Low, false, &[seat(0, false), seat(1, true)]);
    assert_eq!(
        tally_step(&dead, 4),
        TallyStep::Skip(TallyResult { round: 4, total_yes: 0, total_no: 0, decrypted: false })
    );
}

#[test]
fn encrypted_payload_is_thirty_two_bytes() {
    let ct = MockThresholdCrypto.encrypt_ballot(&Ballot { voter: 5, value: 1 });
    assert_eq!(ct.voter, 5);
    assert_eq!(ct.ciphertext_bytes, 1280);
    assert_eq!(ct.payload.len(), 32);
}
