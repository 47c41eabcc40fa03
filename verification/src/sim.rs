//! The decisions of a simulated round: the node population, the ballots it
//! casts, the honest and adversary tallies, the committee's liveness and
//! decryption duty, and the report of the round.

use rand_chacha::ChaCha8Rng;
use vstd::multiset::Multiset;
use vstd::prelude::*;

use crate::crypto::{count_yes, is_yes, yes_votes};
use crate::policy::{
    outcome_changed, spec_adjusted_threshold, spec_outcome_changed, spec_pressure_bump,
    tdg_adjust_threshold, PressureLevel,
};
use crate::rng::shuffle_ballots;
use crate::types::{
    Ballot, CommitteeSeat, EncryptedBallot, NodeIdentity, PartialDecryption, RoundConfig,
    TallyResult,
};

verus! {

broadcast use vstd::seq_lib::group_filter_ensures;

/// The honest nodes, in node order.
pub open spec fn honest_nodes(nodes: Seq<NodeIdentity>) -> Seq<NodeIdentity> {
    nodes.filter(|n: NodeIdentity| !n.adversarial)
}

/// The Sybil nodes, in node order.
pub open spec fn sybil_nodes(nodes: Seq<NodeIdentity>) -> Seq<NodeIdentity> {
    nodes.filter(|n: NodeIdentity| n.adversarial)
}

/// `n` nodes numbered from 0, of which the first `sybils` are Sybil nodes.
pub open spec fn spec_build_nodes(n: nat, sybils: nat) -> Seq<NodeIdentity> {
    Seq::new(n, |i: int| NodeIdentity { id: i as u64, adversarial: i < sybils })
}

/// The ballot of an honest node: yes when its coin came up, no otherwise.
pub open spec fn honest_ballot(node: NodeIdentity, coin: bool) -> Ballot {
    Ballot {
        voter: node.id,
        value: if coin {
            1
        } else {
            0
        },
    }
}

/// The ballots of the honest nodes, the `i`-th honest node voting by
/// `coins[i]`.
pub open spec fn spec_honest_ballots(nodes: Seq<NodeIdentity>, coins: Seq<bool>) -> Seq<Ballot> {
    let h = honest_nodes(nodes);
    Seq::new(h.len(), |i: int| honest_ballot(h[i], coins[i]))
}

/// The ballots of the Sybil nodes: all of them vote yes.
pub open spec fn spec_adversary_ballots(nodes: Seq<NodeIdentity>) -> Seq<Ballot> {
    let s = sybil_nodes(nodes);
    Seq::new(s.len(), |i: int| Ballot { voter: s[i].id, value: 1 })
}

/// Builds `n` nodes with identifiers `0..n`; the first `sybils` of them are
/// Sybil nodes.
pub fn build_nodes(n: usize, sybils: usize) -> (nodes: Vec<NodeIdentity>)
    ensures
        nodes@ == spec_build_nodes(n as nat, sybils as nat),
{
    let mut nodes: Vec<NodeIdentity> = Vec::new();
    let mut i: usize = 0;
    while i < n
        invariant
            0 <= i <= n,
            nodes@ == spec_build_nodes(i as nat, sybils as nat),
        decreases n - i,
    {
        nodes.push(NodeIdentity { id: i as u64, adversarial: i < sybils });
        i += 1;
        assert(nodes@ =~= spec_build_nodes(i as nat, sybils as nat));
    }
    nodes
}

/// Counts the Sybil nodes.
pub fn sybil_count(nodes: &[NodeIdentity]) -> (count: usize)
    ensures
        count == sybil_nodes(nodes@).len(),
{
    let mut count: usize = 0;
    let mut i: usize = 0;
    while i < nodes.len()
        invariant
            0 <= i <= nodes@.len(),
            count == sybil_nodes(nodes@.take(i as int)).len(),
            count <= i,
        decreases nodes@.len() - i,
    {
        assert(nodes@.take(i + 1) == nodes@.take(i as int).push(nodes@[i as int]));
        proof {
            nodes@.take(i as int).lemma_filter_push(nodes@[i as int], |n: NodeIdentity| n.adversarial);
        }
        if nodes[i].adversarial {
            count += 1;
        }
        i += 1;
    }
    assert(nodes@.take(nodes@.len() as int) == nodes@);
    count
}

/// Counts the honest nodes.
pub fn honest_count(nodes: &[NodeIdentity]) -> (count: usize)
    ensures
        count == honest_nodes(nodes@).len(),
{
    let mut count: usize = 0;
    let mut i: usize = 0;
    while i < nodes.len()
        invariant
            0 <= i <= nodes@.len(),
            count == honest_nodes(nodes@.take(i as int)).len(),
            count <= i,
        decreases nodes@.len() - i,
    {
        assert(nodes@.take(i + 1) == nodes@.take(i as int).push(nodes@[i as int]));
        proof {
            nodes@.take(i as int).lemma_filter_push(nodes@[i as int], |n: NodeIdentity| !n.adversarial);
        }
        if !nodes[i].adversarial {
            count += 1;
        }
        i += 1;
    }
    assert(nodes@.take(nodes@.len() as int) == nodes@);
    count
}

/// The ballots of the honest nodes, in node order; `coins[i]` is the coin the
/// `i`-th honest node tossed.
pub fn generate_honest_ballots(nodes: &[NodeIdentity], coins: &[bool]) -> (ballots: Vec<Ballot>)
    requires
        coins@.len() >= honest_nodes(nodes@).len(),
    ensures
        ballots@ == spec_honest_ballots(nodes@, coins@),
{
    let mut ballots: Vec<Ballot> = Vec::new();
    let mut i: usize = 0;
    while i < nodes.len()
        invariant
            0 <= i <= nodes@.len(),
            coins@.len() >= honest_nodes(nodes@).len(),
            honest_nodes(nodes@.take(i as int)).len() <= honest_nodes(nodes@).len(),
            ballots@ == spec_honest_ballots(nodes@.take(i as int), coins@),
        decreases nodes@.len() - i,
    {
        let ghost before = nodes@.take(i as int);
        assert(nodes@.take(i + 1) == before.push(nodes@[i as int]));
        proof {
            before.lemma_filter_push(nodes@[i as int], |n: NodeIdentity| !n.adversarial);
            nodes@.lemma_filter_take_len(|n: NodeIdentity| !n.adversarial, i + 1);
        }
        let node = nodes[i];
        if !node.adversarial {
            let k = ballots.len();
            let value: u8 = if coins[k] {
                1
            } else {
                0
            };
            ballots.push(Ballot { voter: node.id, value });
        }
        i += 1;
        assert(ballots@ =~= spec_honest_ballots(nodes@.take(i as int), coins@));
    }
    assert(nodes@.take(nodes@.len() as int) == nodes@);
    ballots
}

/// The ballots of the Sybil nodes, in node order: every one is a yes.
pub fn generate_adversary_ballots(nodes: &[NodeIdentity]) -> (ballots: Vec<Ballot>)
    ensures
        ballots@ == spec_adversary_ballots(nodes@),
{
    let mut ballots: Vec<Ballot> = Vec::new();
    let mut i: usize = 0;
    while i < nodes.len()
        invariant
            0 <= i <= nodes@.len(),
            ballots@ == spec_adversary_ballots(nodes@.take(i as int)),
        decreases nodes@.len() - i,
    {
        let ghost before = nodes@.take(i as int);
        assert(nodes@.take(i + 1) == before.push(nodes@[i as int]));
        proof {
            before.lemma_filter_push(nodes@[i as int], |n: NodeIdentity| n.adversarial);
        }
        let node = nodes[i];
        if node.adversarial {
            ballots.push(Ballot { voter: node.id, value: 1 });
        }
        i += 1;
        assert(ballots@ =~= spec_adversary_ballots(nodes@.take(i as int)));
    }
    assert(nodes@.take(nodes@.len() as int) == nodes@);
    ballots
}

/// Every ballot of the round, honest ones voting by `coins`, shuffled with
/// `rng`: the result holds exactly the honest and the adversary ballots, in
/// an order the generator picks.
pub fn snapshot_all_ballots(nodes: &[NodeIdentity], coins: &[bool], rng: &mut ChaCha8Rng) -> (ballots:
    Vec<Ballot>)
    requires
        coins@.len() >= honest_nodes(nodes@).len(),
    ensures
        ballots@.len() == spec_honest_ballots(nodes@, coins@).len() + spec_adversary_ballots(
            nodes@,
        ).len(),
        ballots@.to_multiset() == (spec_honest_ballots(nodes@, coins@) + spec_adversary_ballots(
            nodes@,
        )).to_multiset(),
{
    let honest = generate_honest_ballots(nodes, coins);
    let mut adversary = generate_adversary_ballots(nodes);
    let mut combined = honest;
    combined.append(&mut adversary);
    shuffle_ballots(&mut combined, rng);
    combined
}


/// Every ballot names a voter that is one of `nodes`, by position.
pub open spec fn voters_known(nodes: Seq<NodeIdentity>, ballots: Seq<Ballot>) -> bool {
    forall|i: int| 0 <= i < ballots.len() ==> (#[trigger] ballots[i]).voter < nodes.len()
}

/// The ballot was cast by an honest node.
pub open spec fn cast_by_honest(nodes: Seq<NodeIdentity>, b: Ballot) -> bool {
    !nodes[b.voter as int].adversarial
}

/// The ballots cast by honest nodes, in ballot order.
pub open spec fn honest_votes(nodes: Seq<NodeIdentity>, ballots: Seq<Ballot>) -> Seq<Ballot> {
    ballots.filter(|b: Ballot| cast_by_honest(nodes, b))
}

/// Whether every ballot names a voter that is one of `nodes`.
pub fn all_voters_known(nodes: &[NodeIdentity], ballots: &[Ballot]) -> (known: bool)
    ensures
        known == voters_known(nodes@, ballots@),
{
    let mut i: usize = 0;
    while i < ballots.len()
        invariant
            0 <= i <= ballots@.len(),
            forall|j: int| 0 <= j < i ==> (#[trigger] ballots@[j]).voter < nodes@.len(),
        decreases ballots@.len() - i,
    {
        if ballots[i].voter >= nodes.len() as u64 {
            assert(!((ballots@[i as int]).voter < nodes@.len()));
            return false;
        }
        i += 1;
    }
    true
}

/// The honest tally: the yes and the no votes among the ballots cast by
/// honest nodes.
pub fn honest_tally(nodes: &[NodeIdentity], ballots: &[Ballot]) -> (tally: (u64, u64))
    requires
        voters_known(nodes@, ballots@),
    ensures
        tally.0 == yes_votes(honest_votes(nodes@, ballots@)),
        tally.0 + tally.1 == honest_votes(nodes@, ballots@).len(),
        tally.0 + tally.1 <= ballots@.len(),
{
    let mut yes: u64 = 0;
    let mut total: u64 = 0;
    let mut i: usize = 0;
    while i < ballots.len()
        invariant
            0 <= i <= ballots@.len(),
            voters_known(nodes@, ballots@),
            total == honest_votes(nodes@, ballots@.take(i as int)).len(),
            yes == yes_votes(honest_votes(nodes@, ballots@.take(i as int))),
            yes <= total <= i,
        decreases ballots@.len() - i,
    {
        let ghost before = ballots@.take(i as int);
        let b = ballots[i];
        assert(ballots@.take(i + 1) == before.push(b));
        proof {
            before.lemma_filter_push(b, |x: Ballot| cast_by_honest(nodes@, x));
            honest_votes(nodes@, before).lemma_filter_push(b, |x: Ballot| is_yes(x));
        }
        assert(b.voter < nodes@.len());
        if !nodes[b.voter as usize].adversarial {
            total += 1;
            if b.value == 1 {
                yes += 1;
            }
        }
        i += 1;
    }
    assert(ballots@.take(ballots@.len() as int) == ballots@);
    (yes, total - yes)
}

/// What one round amounted to, apart from its timings.
#[derive(Clone, Copy, Debug, PartialEq, Eq)]
pub struct RoundReport {
    pub round: u64,
    pub num_sybils: usize,
    pub committee_size: usize,
    pub threshold: usize,
    pub adversarial: bool,
    pub adversary_controlled_seats: usize,
    pub outcome_changed: bool,
    pub success: bool,
    pub liveness_fail: bool,
    pub tallied: bool,
    pub honest_tally_yes: u64,
    pub honest_tally_no: u64,
    pub adversary_tally_yes: u64,
    pub adversary_tally_no: u64,
    pub ct_bytes: usize,
    pub zk_proof_bytes: usize,
    pub net_bytes_sent: usize,
    pub net_bytes_recv: usize,
    pub new_threshold: usize,
}

/// A report's verdicts follow from its own tallies: the outcome changed
/// exactly when both tallies hold votes and only one of them has more yes
/// than no votes.
pub open spec fn outcome_follows_tallies(r: RoundReport) -> bool {
    r.outcome_changed == (r.honest_tally_yes + r.honest_tally_no > 0 && r.adversary_tally_yes
        + r.adversary_tally_no > 0 && ((r.honest_tally_yes > r.honest_tally_no) != (
    r.adversary_tally_yes > r.adversary_tally_no)))
}

/// A report without committee calls the adversary successful exactly when
/// the outcome changed.
pub open spec fn report_flags_follow_tallies(r: RoundReport) -> bool {
    &&& outcome_follows_tallies(r)
    &&& r.adversarial == r.outcome_changed
    &&& r.success == r.outcome_changed
}

/// The report of a round without committee: every ballot is counted in the
/// clear, and the adversary wins when the count of all ballots carries
/// another majority than the count of the honest ones.
pub open spec fn spec_naive_report(
    config: RoundConfig,
    nodes: Seq<NodeIdentity>,
    ballots: Seq<Ballot>,
) -> RoundReport {
    let hv = honest_votes(nodes, ballots);
    let hy = yes_votes(hv);
    let hn = hv.len() - yes_votes(hv);
    let ay = yes_votes(ballots);
    let an = ballots.len() - yes_votes(ballots);
    let changed = spec_outcome_changed(hy as int, hn as int, ay as int, an as int);
    RoundReport {
        round: config.round,
        num_sybils: sybil_nodes(nodes).len() as usize,
        committee_size: 0,
        threshold: 0,
        adversarial: changed,
        adversary_controlled_seats: 0,
        outcome_changed: changed,
        success: changed,
        liveness_fail: false,
        tallied: true,
        honest_tally_yes: hy as u64,
        honest_tally_no: hn as u64,
        adversary_tally_yes: ay as u64,
        adversary_tally_no: an as u64,
        ct_bytes: 0,
        zk_proof_bytes: 0,
        net_bytes_sent: 0,
        net_bytes_recv: 0,
        new_threshold: 0,
    }
}

/// In a round without committee, the Sybil votes changed the outcome exactly
/// when the honest ballots and all ballots, both non-empty, differ in whether
/// yes outnumbers no; the adversary's success is that change.
pub proof fn lemma_naive_report_verdict(
    config: RoundConfig,
    nodes: Seq<NodeIdentity>,
    ballots: Seq<Ballot>,
)
    requires
        ballots.len() <= usize::MAX,
    ensures
        ({
            let r = spec_naive_report(config, nodes, ballots);
            let hv = honest_votes(nodes, ballots);
            &&& r.honest_tally_yes == yes_votes(hv)
            &&& r.honest_tally_yes + r.honest_tally_no == hv.len()
            &&& r.adversary_tally_yes == yes_votes(ballots)
            &&& r.adversary_tally_yes + r.adversary_tally_no == ballots.len()
            &&& report_flags_follow_tallies(r)
        }),
{
    let hv = honest_votes(nodes, ballots);
    crate::crypto::lemma_yes_votes_bounds(hv);
    crate::crypto::lemma_yes_votes_bounds(ballots);
    assert(hv.len() <= ballots.len());
}

/// Reports a round without committee: all ballots are tallied in the clear
/// and compared with the tally of the honest ballots.
pub fn naive_round_report(config: &RoundConfig, nodes: &[NodeIdentity], ballots: &[Ballot]) -> (report:
    RoundReport)
    requires
        voters_known(nodes@, ballots@),
    ensures
        report == spec_naive_report(*config, nodes@, ballots@),
        report_flags_follow_tallies(report),
        report.adversary_tally_yes + report.adversary_tally_no == ballots@.len(),
        report.honest_tally_yes + report.honest_tally_no <= ballots@.len(),
{
    let (honest_yes, honest_no) = honest_tally(nodes, ballots);
    let adversary_yes = count_yes(ballots);
    let adversary_no = ballots.len() as u64 - adversary_yes;
    let changed = outcome_changed(honest_yes, honest_no, adversary_yes, adversary_no);
    RoundReport {
        round: config.round,
        num_sybils: sybil_count(nodes),
        committee_size: 0,
        threshold: 0,
        adversarial: changed,
        adversary_controlled_seats: 0,
        outcome_changed: changed,
        success: changed,
        liveness_fail: false,
        tallied: true,
        honest_tally_yes: honest_yes,
        honest_tally_no: honest_no,
        adversary_tally_yes: adversary_yes,
        adversary_tally_no: adversary_no,
        ct_bytes: 0,
        zk_proof_bytes: 0,
        net_bytes_sent: 0,
        net_bytes_recv: 0,
        new_threshold: 0,
    }
}


/// The seats held by Sybil nodes.
pub open spec fn adversarial_seats(committee: Seq<CommitteeSeat>) -> Seq<CommitteeSeat> {
    committee.filter(|s: CommitteeSeat| s.adversarial)
}

/// The seats held by honest nodes.
pub open spec fn honest_seats(committee: Seq<CommitteeSeat>) -> Seq<CommitteeSeat> {
    committee.filter(|s: CommitteeSeat| !s.adversarial)
}

/// The decryption threshold of a round: adjusted to the Sybil pressure when
/// threshold adjustment is on, the base threshold otherwise.
pub open spec fn spec_round_threshold(
    base: int,
    committee_size: int,
    level: PressureLevel,
    adjust: bool,
) -> int {
    if adjust {
        spec_adjusted_threshold(base, committee_size, level)
    } else {
        base
    }
}

/// How many seats, from the first, are asked for a partial decryption: none
/// when the round is not live, otherwise `threshold` of them, or all seats
/// when there are fewer.
pub open spec fn decrypting_count(committee_len: int, threshold: int, liveness_fail: bool) -> int {
    if liveness_fail {
        0
    } else if threshold < committee_len {
        threshold
    } else {
        committee_len
    }
}

/// A live round asks the first `threshold` seats, or every seat when there
/// are fewer; a round that is not live asks none.
pub proof fn lemma_decrypting_count(committee_len: int, threshold: int, liveness_fail: bool)
    requires
        0 <= committee_len,
        0 <= threshold,
    ensures
        liveness_fail ==> decrypting_count(committee_len, threshold, liveness_fail) == 0,
        !liveness_fail && threshold <= committee_len ==> decrypting_count(
            committee_len,
            threshold,
            liveness_fail,
        ) == threshold,
        !liveness_fail && threshold > committee_len ==> decrypting_count(
            committee_len,
            threshold,
            liveness_fail,
        ) == committee_len,
{
}

/// The committee-side decisions of a round, taken before any decryption.
#[derive(Clone, Debug, PartialEq, Eq)]
pub struct MpcPlan {
    /// The decryption threshold in force.
    pub new_threshold: usize,
    /// How many seats Sybil nodes hold.
    pub adversary_controlled_seats: usize,
    /// Fewer honest seats than the threshold: the round cannot be decrypted.
    pub liveness_fail: bool,
    /// The committee members asked for a partial decryption, in seat order.
    pub decrypting_members: Vec<u64>,
}

/// Decides the threshold of a round, counts the seats the adversary holds,
/// tells whether enough honest seats remain to decrypt, and names the members
/// that are asked for a partial decryption: the first `threshold` seats.
pub fn plan_mpc_round(
    base_threshold: usize,
    committee_size: usize,
    sybil_pressure: PressureLevel,
    adjust_threshold: bool,
    committee: &[CommitteeSeat],
) -> (plan: MpcPlan)
    requires
        adjust_threshold ==> base_threshold + spec_pressure_bump(sybil_pressure) <= usize::MAX,
    ensures
        plan.new_threshold == spec_round_threshold(
            base_threshold as int,
            committee_size as int,
            sybil_pressure,
            adjust_threshold,
        ),
        plan.adversary_controlled_seats == adversarial_seats(committee@).len(),
        plan.liveness_fail == (honest_seats(committee@).len() < plan.new_threshold),
        !adjust_threshold ==> plan.new_threshold == base_threshold,
        plan.decrypting_members@ == Seq::new(
            decrypting_count(committee@.len() as int, plan.new_threshold as int, plan.liveness_fail)
                as nat,
            |i: int| committee@[i].node_id,
        ),
        plan.liveness_fail ==> plan.decrypting_members@.len() == 0,
        !plan.liveness_fail && plan.new_threshold <= committee@.len()
            ==> plan.decrypting_members@.len() == plan.new_threshold,
        !plan.liveness_fail && plan.new_threshold > committee@.len()
            ==> plan.decrypting_members@.len() == committee@.len(),
        forall|i: int|
            0 <= i < plan.decrypting_members@.len() ==> plan.decrypting_members@[i]
                == #[trigger] committee@[i].node_id,
{
    let new_threshold = if adjust_threshold {
        tdg_adjust_threshold(base_threshold, committee_size, sybil_pressure)
    } else {
        base_threshold
    };
    let mut bad: usize = 0;
    let mut good: usize = 0;
    let mut i: usize = 0;
    while i < committee.len()
        invariant
            0 <= i <= committee@.len(),
            bad == adversarial_seats(committee@.take(i as int)).len(),
            good == honest_seats(committee@.take(i as int)).len(),
            bad <= i,
            good <= i,
        decreases committee@.len() - i,
    {
        let ghost before = committee@.take(i as int);
        assert(committee@.take(i + 1) == before.push(committee@[i as int]));
        proof {
            before.lemma_filter_push(committee@[i as int], |s: CommitteeSeat| s.adversarial);
            before.lemma_filter_push(committee@[i as int], |s: CommitteeSeat| !s.adversarial);
        }
        if committee[i].adversarial {
            bad += 1;
        } else {
            good += 1;
        }
        i += 1;
    }
    assert(committee@.take(committee@.len() as int) == committee@);
    let liveness_fail = good < new_threshold;
    let count = if liveness_fail {
        0
    } else if new_threshold < committee.len() {
        new_threshold
    } else {
        committee.len()
    };
    let mut members: Vec<u64> = Vec::new();
    let mut j: usize = 0;
    while j < count
        invariant
            count <= committee@.len(),
            0 <= j <= count,
            members@ == Seq::new(j as nat, |t: int| committee@[t].node_id),
        decreases count - j,
    {
        members.push(committee[j].node_id);
        j += 1;
        assert(members@ =~= Seq::new(j as nat, |t: int| committee@[t].node_id));
    }
    MpcPlan {
        new_threshold,
        adversary_controlled_seats: bad,
        liveness_fail,
        decrypting_members: members,
    }
}

/// The tally of a round whose committee could not decrypt: nothing counted.
pub fn undecrypted_tally(round: u64) -> (tally: TallyResult)
    ensures
        tally == (TallyResult { round, total_yes: 0, total_no: 0, decrypted: false }),
{
    TallyResult { round, total_yes: 0, total_no: 0, decrypted: false }
}

/// How a round obtains its tally.
#[derive(Clone, Copy, Debug, PartialEq, Eq)]
pub enum TallyStep {
    /// Combine the gathered partial decryptions.
    Combine,
    /// The committee could not decrypt: this is the tally of the round.
    Skip(TallyResult),
}

/// How the round planned by `plan` obtains its tally: the shares are combined
/// when the round is live, and nothing is counted otherwise.
pub fn tally_step(plan: &MpcPlan, round: u64) -> (step: TallyStep)
    ensures
        plan.liveness_fail ==> step == TallyStep::Skip(
            TallyResult { round, total_yes: 0, total_no: 0, decrypted: false },
        ),
        !plan.liveness_fail ==> step == TallyStep::Combine,
{
    if plan.liveness_fail {
        TallyStep::Skip(undecrypted_tally(round))
    } else {
        TallyStep::Combine
    }
}

/// The ciphertext bytes of all encrypted ballots.
pub open spec fn total_ciphertext_bytes(cts: Seq<EncryptedBallot>) -> int
    decreases cts.len(),
{
    if cts.len() == 0 {
        0
    } else {
        total_ciphertext_bytes(cts.drop_last()) + cts.last().ciphertext_bytes
    }
}

/// The proof bytes of all partial decryptions.
pub open spec fn total_proof_bytes(shares: Seq<PartialDecryption>) -> int
    decreases shares.len(),
{
    if shares.len() == 0 {
        0
    } else {
        total_proof_bytes(shares.drop_last()) + shares.last().zk_proof_bytes
    }
}

/// The bytes sent for all partial decryptions: each share with its proof.
pub open spec fn total_share_traffic(shares: Seq<PartialDecryption>) -> int
    decreases shares.len(),
{
    if shares.len() == 0 {
        0
    } else {
        total_share_traffic(shares.drop_last()) + shares.last().share_bytes
            + shares.last().zk_proof_bytes
    }
}

/// A prefix of the encrypted ballots holds no more ciphertext bytes than all.
proof fn lemma_ciphertext_prefix(cts: Seq<EncryptedBallot>, k: int)
    requires
        0 <= k <= cts.len(),
    ensures
        0 <= total_ciphertext_bytes(cts.take(k)) <= total_ciphertext_bytes(cts),
    decreases cts.len(),
{
    if cts.len() > 0 {
        if k == cts.len() {
            assert(cts.take(k) == cts);
            lemma_ciphertext_prefix(cts.drop_last(), k - 1);
            assert(cts.drop_last().take(k - 1) == cts.drop_last());
        } else {
            lemma_ciphertext_prefix(cts.drop_last(), k);
            assert(cts.drop_last().take(k) == cts.take(k));
        }
    }
}

/// A prefix of the shares carries no more traffic, and no more proof bytes,
/// than all of them; the proof bytes are part of the traffic.
proof fn lemma_share_prefix(shares: Seq<PartialDecryption>, k: int)
    requires
        0 <= k <= shares.len(),
    ensures
        0 <= total_proof_bytes(shares.take(k)) <= total_share_traffic(shares.take(k)),
        total_share_traffic(shares.take(k)) <= total_share_traffic(shares),
        total_proof_bytes(shares) <= total_share_traffic(shares),
    decreases shares.len(),
{
    if shares.len() > 0 {
        if k == shares.len() {
            assert(shares.take(k) == shares);
            lemma_share_prefix(shares.drop_last(), k - 1);
            assert(shares.drop_last().take(k - 1) == shares.drop_last());
        } else {
            lemma_share_prefix(shares.drop_last(), k);
            assert(shares.drop_last().take(k) == shares.take(k));
            lemma_share_prefix(shares.drop_last(), shares.len() - 1);
            assert(shares.drop_last().take(shares.len() - 1) == shares.drop_last());
        }
    } else {
        assert(shares.take(k) == shares);
    }
}

/// The ciphertext bytes of the encrypted ballots, or `None` when the total
/// does not fit in a `usize`.
pub fn ciphertext_bytes(cts: &[EncryptedBallot]) -> (total: Option<usize>)
    ensures
        total is Some <==> total_ciphertext_bytes(cts@) <= usize::MAX,
        total matches Some(t) ==> t == total_ciphertext_bytes(cts@),
{
    let mut acc: usize = 0;
    let mut i: usize = 0;
    while i < cts.len()
        invariant
            0 <= i <= cts@.len(),
            acc == total_ciphertext_bytes(cts@.take(i as int)),
        decreases cts@.len() - i,
    {
        assert(cts@.take(i + 1).drop_last() == cts@.take(i as int));
        match acc.checked_add(cts[i].ciphertext_bytes) {
            Some(next) => {
                acc = next;
            },
            None => {
                proof {
                    lemma_ciphertext_prefix(cts@, i + 1);
                }
                return None;
            },
        }
        i += 1;
    }
    assert(cts@.take(cts@.len() as int) == cts@);
    Some(acc)
}

/// The proof bytes and the traffic of the partial decryptions, or `None` when
/// the traffic does not fit in a `usize`.
pub fn share_bytes(shares: &[PartialDecryption]) -> (totals: Option<(usize, usize)>)
    ensures
        totals is Some <==> total_share_traffic(shares@) <= usize::MAX,
        totals matches Some(t) ==> t.0 == total_proof_bytes(shares@) && t.1 == total_share_traffic(
            shares@,
        ),
{
    let mut proofs: usize = 0;
    let mut traffic: usize = 0;
    let mut i: usize = 0;
    while i < shares.len()
        invariant
            0 <= i <= shares@.len(),
            proofs == total_proof_bytes(shares@.take(i as int)),
            traffic == total_share_traffic(shares@.take(i as int)),
            proofs <= traffic,
        decreases shares@.len() - i,
    {
        assert(shares@.take(i + 1).drop_last() == shares@.take(i as int));
        let share = shares[i];
        let step = match share.share_bytes.checked_add(share.zk_proof_bytes) {
            Some(step) => step,
            None => {
                proof {
                    lemma_share_prefix(shares@, i + 1);
                }
                return None;
            },
        };
        match traffic.checked_add(step) {
            Some(next) => {
                traffic = next;
            },
            None => {
                proof {
                    lemma_share_prefix(shares@, i + 1);
                }
                return None;
            },
        }
        proofs = proofs + share.zk_proof_bytes;
        i += 1;
    }
    assert(shares@.take(shares@.len() as int) == shares@);
    Some((proofs, traffic))
}


/// The counters of a round fit their types: the byte totals fit in a
/// `usize`, and the decrypted tally's vote count in a `u64`.
pub open spec fn round_counters_fit(
    cts: Seq<EncryptedBallot>,
    shares: Seq<PartialDecryption>,
    tally: TallyResult,
) -> bool {
    &&& total_ciphertext_bytes(cts) <= usize::MAX
    &&& total_share_traffic(shares) <= usize::MAX
    &&& tally.total_yes + tally.total_no <= u64::MAX
}

/// The report of a round decrypted by a committee: the adversary captured the
/// committee when it holds at least threshold seats, and changed the outcome
/// when the decrypted tally holds votes and carries another majority than the
/// honest ballots.
pub open spec fn spec_mpc_report(
    config: RoundConfig,
    plan: MpcPlan,
    nodes: Seq<NodeIdentity>,
    ballots: Seq<Ballot>,
    cts: Seq<EncryptedBallot>,
    shares: Seq<PartialDecryption>,
    tally: TallyResult,
) -> RoundReport {
    let hv = honest_votes(nodes, ballots);
    let hy = yes_votes(hv);
    let hn = hv.len() - yes_votes(hv);
    let changed = if tally.total_yes + tally.total_no == 0 {
        false
    } else {
        spec_outcome_changed(hy as int, hn as int, tally.total_yes as int, tally.total_no as int)
    };
    let captured = plan.adversary_controlled_seats >= plan.new_threshold;
    RoundReport {
        round: config.round,
        num_sybils: sybil_nodes(nodes).len() as usize,
        committee_size: config.committee_size,
        threshold: config.threshold,
        adversarial: captured,
        adversary_controlled_seats: plan.adversary_controlled_seats,
        outcome_changed: changed,
        success: captured,
        liveness_fail: plan.liveness_fail,
        tallied: tally.decrypted,
        honest_tally_yes: hy as u64,
        honest_tally_no: hn as u64,
        adversary_tally_yes: tally.total_yes,
        adversary_tally_no: tally.total_no,
        ct_bytes: total_ciphertext_bytes(cts) as usize,
        zk_proof_bytes: total_proof_bytes(shares) as usize,
        net_bytes_sent: total_share_traffic(shares) as usize,
        net_bytes_recv: total_share_traffic(shares) as usize,
        new_threshold: plan.new_threshold,
    }
}

/// The verdicts of a committee round: the adversary captured the committee
/// exactly when it holds at least as many seats as the threshold in force,
/// the adversary tally is the decrypted tally, and the outcome changed
/// exactly when both tallies hold votes and only one of them has more yes
/// than no votes.
pub open spec fn mpc_verdicts_hold(r: RoundReport, plan: MpcPlan, tally: TallyResult) -> bool {
    &&& r.adversarial == (plan.adversary_controlled_seats >= plan.new_threshold)
    &&& r.success == (plan.adversary_controlled_seats >= plan.new_threshold)
    &&& r.adversary_controlled_seats == plan.adversary_controlled_seats
    &&& r.new_threshold == plan.new_threshold
    &&& r.liveness_fail == plan.liveness_fail
    &&& r.tallied == tally.decrypted
    &&& r.adversary_tally_yes == tally.total_yes
    &&& r.adversary_tally_no == tally.total_no
    &&& outcome_follows_tallies(r)
}

/// The report of a committee round reaches its verdicts from the plan and the
/// decrypted tally: capture is judged against the threshold in force, and
/// the outcome changed exactly when the honest and the decrypted tallies,
/// both non-empty, differ in whether yes outnumbers no.
pub proof fn lemma_mpc_report_verdicts(
    config: RoundConfig,
    plan: MpcPlan,
    nodes: Seq<NodeIdentity>,
    ballots: Seq<Ballot>,
    cts: Seq<EncryptedBallot>,
    shares: Seq<PartialDecryption>,
    tally: TallyResult,
)
    requires
        ballots.len() <= usize::MAX,
    ensures
        mpc_verdicts_hold(
            spec_mpc_report(config, plan, nodes, ballots, cts, shares, tally),
            plan,
            tally,
        ),
{
    let hv = honest_votes(nodes, ballots);
    crate::crypto::lemma_yes_votes_bounds(hv);
    assert(hv.len() <= ballots.len());
}

/// Reports a round decrypted by a committee, from its plan, its ballots, the
/// ciphertexts, the partial decryptions gathered and the tally. There is no
/// report when a counter overflows its type.
pub fn mpc_round_report(
    config: &RoundConfig,
    plan: &MpcPlan,
    nodes: &[NodeIdentity],
    ballots: &[Ballot],
    cts: &[EncryptedBallot],
    shares: &[PartialDecryption],
    tally: &TallyResult,
) -> (report: Option<RoundReport>)
    requires
        voters_known(nodes@, ballots@),
    ensures
        report is Some <==> round_counters_fit(cts@, shares@, *tally),
        report matches Some(r) ==> r == spec_mpc_report(
            *config,
            *plan,
            nodes@,
            ballots@,
            cts@,
            shares@,
            *tally,
        ),
        report matches Some(r) ==> mpc_verdicts_hold(r, *plan, *tally),
{
    let ct_bytes = match ciphertext_bytes(cts) {
        Some(total) => total,
        None => {
            return None;
        },
    };
    let (zk_proof_bytes, traffic) = match share_bytes(shares) {
        Some(totals) => totals,
        None => {
            return None;
        },
    };
    if tally.total_yes > u64::MAX - tally.total_no {
        return None;
    }
    let (honest_yes, honest_no) = honest_tally(nodes, ballots);
    let ballot_count = ballots.len();
    assert(honest_yes + honest_no <= ballot_count);
    let changed = if tally.total_yes + tally.total_no == 0 {
        false
    } else {
        outcome_changed(honest_yes, honest_no, tally.total_yes, tally.total_no)
    };
    let captured = plan.adversary_controlled_seats >= plan.new_threshold;
    Some(
        RoundReport {
            round: config.round,
            num_sybils: sybil_count(nodes),
            committee_size: config.committee_size,
            threshold: config.threshold,
            adversarial: captured,
            adversary_controlled_seats: plan.adversary_controlled_seats,
            outcome_changed: changed,
            success: captured,
            liveness_fail: plan.liveness_fail,
            tallied: tally.decrypted,
            honest_tally_yes: honest_yes,
            honest_tally_no: honest_no,
            adversary_tally_yes: tally.total_yes,
            adversary_tally_no: tally.total_no,
            ct_bytes,
            zk_proof_bytes,
            net_bytes_sent: traffic,
            net_bytes_recv: traffic,
            new_threshold: plan.new_threshold,
        },
    )
}


/// A round whose committee could not decrypt reports no tally and no change
/// of outcome.
pub proof fn lemma_undecrypted_round_changes_nothing(
    config: RoundConfig,
    plan: MpcPlan,
    nodes: Seq<NodeIdentity>,
    ballots: Seq<Ballot>,
    cts: Seq<EncryptedBallot>,
    shares: Seq<PartialDecryption>,
    round: u64,
)
    ensures
        ({
            let r = spec_mpc_report(
                config,
                plan,
                nodes,
                ballots,
                cts,
                shares,
                TallyResult { round, total_yes: 0, total_no: 0, decrypted: false },
            );
            !r.tallied && !r.outcome_changed && r.adversary_tally_yes == 0 && r.adversary_tally_no
                == 0
        }),
{
}

/// The honest votes grow by a ballot exactly when its voter's node is not
/// adversarial.
pub proof fn lemma_honest_votes_push(nodes: Seq<NodeIdentity>, ballots: Seq<Ballot>, b: Ballot)
    ensures
        honest_votes(nodes, ballots.push(b)) == if !nodes[b.voter as int].adversarial {
            honest_votes(nodes, ballots).push(b)
        } else {
            honest_votes(nodes, ballots)
        },
{
    ballots.lemma_filter_push(b, |x: Ballot| cast_by_honest(nodes, x));
}

/// Adding a node adds it to the Sybil nodes when it is adversarial, and to
/// the honest nodes otherwise.
pub proof fn lemma_node_groups_push(nodes: Seq<NodeIdentity>, n: NodeIdentity)
    ensures
        sybil_nodes(nodes.push(n)) == if n.adversarial {
            sybil_nodes(nodes).push(n)
        } else {
            sybil_nodes(nodes)
        },
        honest_nodes(nodes.push(n)) == if n.adversarial {
            honest_nodes(nodes)
        } else {
            honest_nodes(nodes).push(n)
        },
{
    nodes.lemma_filter_push(n, |x: NodeIdentity| x.adversarial);
    nodes.lemma_filter_push(n, |x: NodeIdentity| !x.adversarial);
}

/// Adding a seat counts it among the adversarial seats when a Sybil node
/// holds it, and among the honest seats otherwise.
pub proof fn lemma_seat_counts_push(committee: Seq<CommitteeSeat>, s: CommitteeSeat)
    ensures
        adversarial_seats(committee.push(s)).len() == adversarial_seats(committee).len() + if s.adversarial {
            1int
        } else {
            0int
        },
        honest_seats(committee.push(s)).len() == honest_seats(committee).len() + if s.adversarial {
            0int
        } else {
            1int
        },
{
    committee.lemma_filter_push(s, |x: CommitteeSeat| x.adversarial);
    committee.lemma_filter_push(s, |x: CommitteeSeat| !x.adversarial);
}

/// Reordering a sequence does not change what a filter keeps, up to order.
proof fn lemma_filter_respects_permutation<A>(s1: Seq<A>, s2: Seq<A>, p: spec_fn(A) -> bool)
    requires
        s1.to_multiset() == s2.to_multiset(),
    ensures
        s1.filter(p).to_multiset() == s2.filter(p).to_multiset(),
    decreases s1.len(),
{
    broadcast use vstd::seq_lib::group_to_multiset_ensures;
    broadcast use vstd::multiset::group_multiset_axioms;
    broadcast use vstd::seq_lib::lemma_multiset_commutative;
    broadcast use vstd::seq::Seq::lemma_filter_push;
    broadcast use vstd::seq::Seq::filter_distributes_over_add;

    if s1.len() == 0 {
        assert(s2.to_multiset().len() == 0);
        assert(s2.len() == 0);
        assert(s1 =~= s2);
    } else {
        let d = s1.drop_last();
        let x = s1.last();
        assert(d.push(x) == s1);
        assert(s1.to_multiset().count(x) > 0);
        assert(s2.to_multiset().count(x) > 0);
        assert(s2.contains(x));
        let k = choose|k: int| 0 <= k < s2.len() && s2[k] == x;
        let a = s2.take(k);
        let b = s2.skip(k + 1);
        let s2r = s2.remove(k);
        assert(s2r.to_multiset() == s2.to_multiset().remove(x));
        assert(d.to_multiset() =~= s1.to_multiset().remove(x));
        lemma_filter_respects_permutation(d, s2r, p);
        assert(s2r == a + b);
        assert(s2 == a + seq![x] + b);
        assert(seq![x] == Seq::<A>::empty().push(x));
        assert(Seq::<A>::empty().filter(p) =~= Seq::<A>::empty()) by {
            reveal(Seq::filter);
        }
        assert((a + seq![x] + b).filter(p) == (a + seq![x]).filter(p) + b.filter(p));
        assert((a + seq![x]).filter(p) == a.filter(p) + seq![x].filter(p));
        assert((a + b).filter(p) == a.filter(p) + b.filter(p));
        if p(x) {
            assert(seq![x].filter(p) == seq![x]);
            assert(s1.filter(p) == d.filter(p).push(x));
            assert(s2.filter(p).to_multiset() =~= a.filter(p).to_multiset().add(
                seq![x].to_multiset(),
            ).add(b.filter(p).to_multiset()));
            assert(s2r.filter(p).to_multiset() =~= a.filter(p).to_multiset().add(
                b.filter(p).to_multiset(),
            ));
            assert(seq![x].to_multiset() =~= Multiset::<A>::empty().insert(x));
        } else {
            assert(seq![x].filter(p) =~= Seq::<A>::empty());
            assert(s1.filter(p) == d.filter(p));
            assert(s2.filter(p) =~= a.filter(p) + b.filter(p));
        }
    }
}

/// Reordering the ballots changes no tally: the honest and the overall counts
/// of yes and no votes stay the same.
pub proof fn lemma_tallies_ignore_ballot_order(
    nodes: Seq<NodeIdentity>,
    ballots: Seq<Ballot>,
    reordered: Seq<Ballot>,
)
    requires
        ballots.to_multiset() == reordered.to_multiset(),
    ensures
        ballots.len() == reordered.len(),
        yes_votes(ballots) == yes_votes(reordered),
        honest_votes(nodes, ballots).len() == honest_votes(nodes, reordered).len(),
        yes_votes(honest_votes(nodes, ballots)) == yes_votes(honest_votes(nodes, reordered)),
{
    broadcast use vstd::seq_lib::group_to_multiset_ensures;

    assert(ballots.len() == ballots.to_multiset().len());
    assert(reordered.len() == reordered.to_multiset().len());
    lemma_filter_respects_permutation(ballots, reordered, |b: Ballot| is_yes(b));
    assert(ballots.filter(|b: Ballot| is_yes(b)).len() == ballots.filter(
        |b: Ballot| is_yes(b),
    ).to_multiset().len());
    assert(reordered.filter(|b: Ballot| is_yes(b)).len() == reordered.filter(
        |b: Ballot| is_yes(b),
    ).to_multiset().len());
    let h1 = honest_votes(nodes, ballots);
    let h2 = honest_votes(nodes, reordered);
    lemma_filter_respects_permutation(ballots, reordered, |b: Ballot| cast_by_honest(nodes, b));
    assert(h1.len() == h1.to_multiset().len());
    assert(h2.len() == h2.to_multiset().len());
    lemma_filter_respects_permutation(h1, h2, |b: Ballot| is_yes(b));
    assert(h1.filter(|b: Ballot| is_yes(b)).len() == h1.filter(|b: Ballot| is_yes(b)).to_multiset().len());
    assert(h2.filter(|b: Ballot| is_yes(b)).len() == h2.filter(|b: Ballot| is_yes(b)).to_multiset().len());
}

/// The report of a round without committee does not depend on the order of
/// the ballots.
pub proof fn lemma_naive_report_ignores_ballot_order(
    config: RoundConfig,
    nodes: Seq<NodeIdentity>,
    ballots: Seq<Ballot>,
    reordered: Seq<Ballot>,
)
    requires
        ballots.to_multiset() == reordered.to_multiset(),
    ensures
        spec_naive_report(config, nodes, ballots) == spec_naive_report(config, nodes, reordered),
{
    lemma_tallies_ignore_ballot_order(nodes, ballots, reordered);
}


/// A node filtered out of the population built by `build_nodes` carries an
/// identifier below the population size.
proof fn lemma_filtered_node_id(n: nat, sybils: nat, p: spec_fn(NodeIdentity) -> bool, j: int)
    requires
        n <= usize::MAX,
        0 <= j < spec_build_nodes(n, sybils).filter(p).len(),
    ensures
        spec_build_nodes(n, sybils).filter(p)[j].id < n,
{
    let nodes = spec_build_nodes(n, sybils);
    let f = nodes.filter(p);
    assert(f.contains(f[j]));
    nodes.lemma_filter_contains_rev(p, f[j]);
    let t = choose|t: int| 0 <= t < nodes.len() && nodes[t] == f[j];
    assert(nodes[t].id == t as u64);
}

/// Every ballot of a round's snapshot names one of the nodes built for it, so
/// the tallies of the round can look each voter up.
pub proof fn lemma_snapshot_voters_known(
    n: nat,
    sybils: nat,
    coins: Seq<bool>,
    ballots: Seq<Ballot>,
)
    requires
        n <= usize::MAX,
        ballots.to_multiset() == (spec_honest_ballots(spec_build_nodes(n, sybils), coins)
            + spec_adversary_ballots(spec_build_nodes(n, sybils))).to_multiset(),
    ensures
        voters_known(spec_build_nodes(n, sybils), ballots),
{
    broadcast use vstd::seq_lib::group_to_multiset_ensures;

    let nodes = spec_build_nodes(n, sybils);
    let hb = spec_honest_ballots(nodes, coins);
    let ab = spec_adversary_ballots(nodes);
    let all = hb + ab;
    assert forall|i: int| 0 <= i < ballots.len() implies (#[trigger] ballots[i]).voter
        < nodes.len() by {
        let b = ballots[i];
        assert(ballots.contains(b));
        assert(ballots.to_multiset().count(b) > 0);
        assert(all.to_multiset().count(b) > 0);
        assert(all.contains(b));
        let j = choose|j: int| 0 <= j < all.len() && all[j] == b;
        if j < hb.len() {
            assert(all[j] == hb[j]);
            lemma_filtered_node_id(n, sybils, |x: NodeIdentity| !x.adversarial, j);
        } else {
            assert(all[j] == ab[j - hb.len()]);
            lemma_filtered_node_id(n, sybils, |x: NodeIdentity| x.adversarial, j - hb.len());
        }
    }
}

/// Every seat is held either by a Sybil node or by an honest one.
pub proof fn lemma_seats_partition(committee: Seq<CommitteeSeat>)
    ensures
        adversarial_seats(committee).len() + honest_seats(committee).len() == committee.len(),
    decreases committee.len(),
{
    broadcast use vstd::seq::Seq::lemma_filter_push;

    if committee.len() == 0 {
        assert(adversarial_seats(committee) =~= Seq::<CommitteeSeat>::empty()) by {
            reveal(Seq::filter);
        }
        assert(honest_seats(committee) =~= Seq::<CommitteeSeat>::empty()) by {
            reveal(Seq::filter);
        }
    } else {
        lemma_seats_partition(committee.drop_last());
        assert(committee.drop_last().push(committee.last()) == committee);
    }
}

/// A committee cannot be both captured and live unless it has at least twice
/// as many seats as the threshold: captured means the adversary holds
/// `threshold` seats, live means honest nodes hold `threshold` seats.
pub proof fn lemma_capture_and_liveness_need_two_thresholds(
    committee: Seq<CommitteeSeat>,
    threshold: int,
)
    requires
        adversarial_seats(committee).len() >= threshold,
        honest_seats(committee).len() >= threshold,
    ensures
        committee.len() >= 2 * threshold,
{
    lemma_seats_partition(committee);
}


/// The protocol variant a round runs.
#[derive(Clone, Copy, Debug, PartialEq, Eq, Structural)]
pub enum SimMode {
    /// Every ballot is counted in the clear.
    Naive,
    /// A committee decrypts with the configured threshold.
    FixedThreshold,
    /// A committee decrypts with a threshold raised under Sybil pressure.
    Tdg,
}

/// The variant a mode name selects, if any.
pub open spec fn spec_sim_mode(name: Seq<char>) -> Option<SimMode> {
    if name == "naive"@ {
        Some(SimMode::Naive)
    } else if name == "fixed-threshold"@ {
        Some(SimMode::FixedThreshold)
    } else if name == "tdg"@ {
        Some(SimMode::Tdg)
    } else {
        None
    }
}

/// Reads a mode name: "naive", "fixed-threshold" or "tdg".
pub fn parse_sim_mode(name: &String) -> (mode: Option<SimMode>)
    ensures
        mode == spec_sim_mode(name@),
{
    broadcast use vstd::string::to_string_from_display_ensures_for_str;

    let naive = "naive".to_string();
    let fixed = "fixed-threshold".to_string();
    let tdg = "tdg".to_string();
    if *name == naive {
        Some(SimMode::Naive)
    } else if *name == fixed {
        Some(SimMode::FixedThreshold)
    } else if *name == tdg {
        Some(SimMode::Tdg)
    } else {
        None
    }
}

/// Whether a round adjusts its threshold to the Sybil pressure: only in the
/// threshold-adjusting variant, and only when adjustment is enabled.
pub fn adjusts_threshold(mode: SimMode, tdg_enabled: bool) -> (adjust: bool)
    ensures
        adjust == (mode == SimMode::Tdg && tdg_enabled),
{
    mode == SimMode::Tdg && tdg_enabled
}

} // verus!
