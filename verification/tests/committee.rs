use pq_mpc_core::vrf::{vrf_output_from_digest, SIMPLE_VRF_PROOF_BYTES};
use pq_mpc_core::{rank_committee, select_committee, CommitteeSeat, MockVrf, RoundConfig, SimpleVrf, Vrf};

fn config(committee_size: usize, beacon: u64) -> RoundConfig {
    RoundConfig {
        round: 0,
        total_nodes: 0,
        committee_size,
        threshold: 1,
        mode: "tdg".to_string(),
        tdg_enabled: true,
        beacon,
    }
}

fn seat(node_id: u64, vrf_output: u64, adversarial: bool) -> CommitteeSeat {
    CommitteeSeat { node_id, vrf_output, proof_bytes: 96, adversarial }
}

#[test]
fn lowest_outputs_take_the_seats() {
    let nodes = [(10, false), (11, true), (12, false), (13, true)];
    let evals = [(50, 96), (30, 96), (40, 96), (60, 96)];
    let seats = rank_committee(&nodes, &evals, 2);
    assert_eq!(seats, vec![seat(11, 30, true), seat(12, 40, false)]);
}

#[test]
fn ties_keep_node_order() {
    let nodes = [(10, false), (11, true), (12, false)];
    let evals = [(5, 96), (3, 96), (5, 96)];
    let seats = rank_committee(&nodes, &evals, 3);
    assert_eq!(seats, vec![seat(11, 3, true), seat(10, 5, false), seat(12, 5, false)]);
}

#[test]
fn fewer_nodes_than_seats() {
    let nodes = [(1, false), (2, false)];
    let evals = [(9, 96), (8, 96)];
    let seats = rank_committee(&nodes, &evals, 5);
    assert_eq!(seats, vec![seat(2, 8, false), seat(1, 9, false)]);
}

#[test]
fn empty_committee() {
    let nodes = [(1, false), (2, false)];
    let evals = [(9, 96), (8, 96)];
    assert!(rank_committee(&nodes, &evals, 0).is_empty());
    assert!(rank_committee(&[], &[], 3).is_empty());
}

fn reference_vrf(beacon: u64, node_id: u64) -> u64 {
    let mut h = blake3::Hasher::new();
    h.update(&beacon.to_le_bytes());
    h.update(&node_id.to_le_bytes());
    let bytes = h.finalize();
    let mut arr = [0u8; 8];
    arr.copy_from_slice(&bytes.as_bytes()[..8]);
    u64::from_le_bytes(arr)
}

#[test]
fn simple_vrf_hashes_beacon_and_node() {
    let vrf = SimpleVrf;
    for (beacon, node) in [(0u64, 0u64), (42, 7), (u64::MAX, 3), (123456789, 987654321)] {
        let (out, proof) = vrf.eval(beacon, node);
        assert_eq!(out, reference_vrf(beacon, node));
        assert_eq!(proof, 96);
        assert_eq!(proof, SIMPLE_VRF_PROOF_BYTES);
    }
    assert_eq!(vrf.name(), "simple-hash-vrf");
}

#[test]
fn simple_vrf_output_differs_from_inputs() {
    let (out, _) = SimpleVrf.eval(1, 2);
    assert_ne!(out, 1);
    assert_ne!(out, 2);
}

#[test]
fn vrf_output_reads_first_eight_bytes() {
    let digest = [1u8, 0, 0, 0, 0, 0, 0, 0, 0xff, 0xff];
    assert_eq!(vrf_output_from_digest(&digest), 1);
}

#[test]
fn select_committee_with_simple_vrf() {
    let nodes: Vec<(u64, bool)> = (0..50u64).map(|i| (i, i < 15)).collect();
    let cfg = config(10, 0xfeed);
    let seats = select_committee(&cfg, &nodes, &MockVrf);
    assert_eq!(seats.len(), 10);
    let mut expected: Vec<CommitteeSeat> = nodes
        .iter()
        .map(|(id, adv)| seat(*id, reference_vrf(cfg.beacon, *id), *adv))
        .collect();
    expected.sort_by_key(|s| s.vrf_output);
    expected.truncate(10);
    assert_eq!(seats, expected);
    for w in seats.windows(2) {
        assert!(w[0].vrf_output <= w[1].vrf_output);
    }
}

#[test]
fn selection_is_deterministic() {
    let nodes: Vec<(u64, bool)> = (0..20u64).map(|i| (i, i % 3 == 0)).collect();
    let cfg = config(7, 99);
    assert_eq!(select_committee(&cfg, &nodes, &SimpleVrf), select_committee(&cfg, &nodes, &SimpleVrf));
}

struct ConstantVrf;

impl Vrf for ConstantVrf {
    fn eval(&self, _beacon: u64, _node_id: u64) -> (u64, usize) {
        (7, 1)
    }

    fn name(&self) -> &'static str {
        "constant"
    }
}

#[test]
fn user_vrf_ties_resolve_by_node_order() {
    let nodes = [(5, true), (3, false), (9, false)];
    let seats = select_committee(&config(2, 0), &nodes, &ConstantVrf);
    assert_eq!(
        seats,
        vec![
            CommitteeSeat { node_id: 5, vrf_output: 7, proof_bytes: 1, adversarial: true },
            CommitteeSeat { node_id: 3, vrf_output: 7, proof_bytes: 1, adversarial: false },
        ]
    );
}

#[test]
fn unseated_nodes_drew_no_lower_output() {
    let nodes: Vec<(u64, bool)> = (0..40u64).map(|i| (i, i % 4 == 0)).collect();
    let cfg = config(8, 31337);
    let seats = select_committee(&cfg, &nodes, &SimpleVrf);
    let highest_seated = seats.iter().map(|s| s.vrf_output).max().unwrap();
    for (id, _) in &nodes {
        if !seats.iter().any(|s| s.node_id == *id) {
            assert!(reference_vrf(cfg.beacon, *id) >= highest_seated);
        }
    }
    let mut ids: Vec<u64> = seats.iter().map(|s| s.node_id).collect();
    ids.sort();
    ids.dedup();
    assert_eq!(ids.len(), seats.len());
}

#[test]
fn larger_committee_only_appends_seats() {
    let nodes: Vec<(u64, bool)> = (0..30u64).map(|i| (i, i % 5 == 0)).collect();
    let large = select_committee(&config(12, 555), &nodes, &SimpleVrf);
    for k in 0..=12usize {
        let small = select_committee(&config(k, 555), &nodes, &SimpleVrf);
        assert_eq!(small, large[..k].to_vec());
    }
    let all = select_committee(&config(40, 555), &nodes, &SimpleVrf);
    assert_eq!(all.len(), 30);
    assert_eq!(large, all[..12].to_vec());
}
