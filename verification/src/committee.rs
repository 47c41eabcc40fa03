//! Committee selection: every node draws a VRF output for the round beacon,
//! and the nodes with the lowest outputs take the seats.

use vstd::prelude::*;

use crate::types::{CommitteeSeat, RoundConfig};
use crate::vrf::Vrf;

verus! {

/// The VRF outputs of the nodes, in node order.
pub open spec fn vrf_keys(evals: Seq<(u64, usize)>) -> Seq<u64> {
    evals.map_values(|e: (u64, usize)| e.0)
}

/// Node `a` ranks before node `b`: it drew a lower output, or the same output
/// and comes first in node order.
pub open spec fn ranks_before(keys: Seq<u64>, a: int, b: int) -> bool {
    keys[a] < keys[b] || (keys[a] == keys[b] && a < b)
}

/// `order` lists every node index exactly once, from the lowest VRF output to
/// the highest, ties kept in node order.
pub open spec fn is_vrf_ranking(keys: Seq<u64>, order: Seq<usize>) -> bool {
    &&& order.len() == keys.len()
    &&& forall|i: int| 0 <= i < order.len() ==> #[trigger] order[i] < keys.len()
    &&& forall|k: usize| k < keys.len() ==> #[trigger] order.contains(k)
    &&& forall|i: int, j: int|
        #![trigger order[i], order[j]]
        0 <= i < j < order.len() ==> ranks_before(keys, order[i] as int, order[j] as int)
}

/// The seat a node takes with its VRF evaluation.
pub open spec fn seat_for(node: (u64, bool), eval: (u64, usize)) -> CommitteeSeat {
    CommitteeSeat { node_id: node.0, vrf_output: eval.0, proof_bytes: eval.1, adversarial: node.1 }
}

/// The seats of the first `size` nodes of `order`, or of all of them when
/// there are fewer.
pub open spec fn ranked_committee(
    nodes: Seq<(u64, bool)>,
    evals: Seq<(u64, usize)>,
    order: Seq<usize>,
    size: int,
) -> Seq<CommitteeSeat> {
    let k = if size < order.len() {
        size
    } else {
        order.len() as int
    };
    Seq::new(k as nat, |i: int| seat_for(nodes[order[i] as int], evals[order[i] as int]))
}

/// `committee` is the committee of `size` seats that the VRF evaluations
/// `evals` of `nodes` select.
pub open spec fn is_vrf_committee(
    nodes: Seq<(u64, bool)>,
    evals: Seq<(u64, usize)>,
    size: int,
    committee: Seq<CommitteeSeat>,
) -> bool {
    exists|order: Seq<usize>|
        #[trigger] is_vrf_ranking(vrf_keys(evals), order) && committee == ranked_committee(
            nodes,
            evals,
            order,
            size,
        )
}

/// Orders the node indices by their VRF outputs, lowest first, keeping node
/// order among equal outputs.
fn vrf_ranking(evals: &[(u64, usize)]) -> (order: Vec<usize>)
    ensures
        is_vrf_ranking(vrf_keys(evals@), order@),
{
    let ghost keys = vrf_keys(evals@);
    let n = evals.len();
    let mut order: Vec<usize> = Vec::new();
    let mut i: usize = 0;
    while i < n
        invariant
            n == evals@.len(),
            keys == vrf_keys(evals@),
            keys.len() == n,
            0 <= i <= n,
            order@.len() == i,
            forall|t: int| 0 <= t < order@.len() ==> #[trigger] order@[t] < i,
            forall|k: usize| k < i ==> #[trigger] order@.contains(k),
            forall|a: int, b: int|
                #![trigger order@[a], order@[b]]
                0 <= a < b < order@.len() ==> ranks_before(keys, order@[a] as int, order@[b] as int),
        decreases n - i,
    {
        let key = evals[i].0;
        assert(keys[i as int] == key);
        let mut j: usize = 0;
        while j < order.len() && evals[order[j]].0 <= key
            invariant
                n == evals@.len(),
                keys == vrf_keys(evals@),
                keys.len() == n,
                i < n,
                key == keys[i as int],
                order@.len() == i,
                forall|t: int| 0 <= t < order@.len() ==> #[trigger] order@[t] < i,
                0 <= j <= order@.len(),
                forall|t: int| 0 <= t < j ==> keys[#[trigger] order@[t] as int] <= key,
            decreases order@.len() - j,
        {
            assert(keys[order@[j as int] as int] == evals@[order@[j as int] as int].0);
            j += 1;
        }
        proof {
            if j < order@.len() {
                assert(keys[order@[j as int] as int] == evals@[order@[j as int] as int].0);
            }
            assert forall|t: int| j <= t < order@.len() implies key < keys[#[trigger] order@[t] as int] by {
                if t > j {
                    assert(ranks_before(keys, order@[j as int] as int, order@[t] as int));
                }
            }
        }
        let ghost old_order = order@;
        order.insert(j, i);
        proof {
            let new_order = order@;
            assert(new_order == old_order.insert(j as int, i));
            assert forall|t: int| 0 <= t < new_order.len() implies #[trigger] new_order[t] < i + 1 by {
                if t < j {
                    assert(new_order[t] == old_order[t]);
                } else if t > j {
                    assert(new_order[t] == old_order[t - 1]);
                }
            }
            assert forall|k: usize| k < i + 1 implies #[trigger] new_order.contains(k) by {
                if k == i {
                    assert(new_order[j as int] == i);
                } else {
                    assert(old_order.contains(k));
                    let q = choose|q: int| 0 <= q < old_order.len() && old_order[q] == k;
                    if q < j {
                        assert(new_order[q] == k);
                    } else {
                        assert(new_order[q + 1] == k);
                    }
                }
            }
            assert forall|a: int, b: int|
                #![trigger new_order[a], new_order[b]]
                0 <= a < b < new_order.len() implies ranks_before(
                keys,
                new_order[a] as int,
                new_order[b] as int,
            ) by {
                if b < j {
                    assert(new_order[a] == old_order[a] && new_order[b] == old_order[b]);
                    assert(ranks_before(keys, old_order[a] as int, old_order[b] as int));
                } else if b == j {
                    assert(new_order[a] == old_order[a]);
                    assert(keys[old_order[a] as int] <= key);
                    assert(old_order[a] < i);
                } else if a < j {
                    assert(new_order[a] == old_order[a] && new_order[b] == old_order[b - 1]);
                    assert(ranks_before(keys, old_order[a] as int, old_order[b - 1] as int));
                } else if a == j {
                    assert(new_order[b] == old_order[b - 1]);
                    assert(key < keys[old_order[b - 1] as int]);
                } else {
                    assert(new_order[a] == old_order[a - 1] && new_order[b] == old_order[b - 1]);
                    assert(ranks_before(keys, old_order[a - 1] as int, old_order[b - 1] as int));
                }
            }
        }
        i += 1;
    }
    order
}

/// Seats the committee from already evaluated VRF outputs: `evals[i]` is the
/// output and proof size of `nodes[i]`, whose pair holds its identifier and
/// whether it is adversarial. The nodes with the lowest outputs take the
/// seats, ties going to the earlier node, and at most `committee_size` seats
/// are filled, in rank order.
pub fn rank_committee(
    nodes: &[(u64, bool)],
    evals: &[(u64, usize)],
    committee_size: usize,
) -> (seats: Vec<CommitteeSeat>)
    requires
        nodes@.len() == evals@.len(),
    ensures
        is_vrf_committee(nodes@, evals@, committee_size as int, seats@),
{
    let order = vrf_ranking(evals);
    let n = order.len();
    let k = if committee_size < n {
        committee_size
    } else {
        n
    };
    let mut seats: Vec<CommitteeSeat> = Vec::new();
    let mut i: usize = 0;
    while i < k
        invariant
            k <= n,
            n == order@.len(),
            n == nodes@.len(),
            n == evals@.len(),
            is_vrf_ranking(vrf_keys(evals@), order@),
            0 <= i <= k,
            seats@.len() == i,
            forall|t: int|
                0 <= t < i ==> #[trigger] seats@[t] == seat_for(
                    nodes@[order@[t] as int],
                    evals@[order@[t] as int],
                ),
        decreases k - i,
    {
        let idx = order[i];
        assert(idx < n);
        let node = nodes[idx];
        let eval = evals[idx];
        seats.push(
            CommitteeSeat {
                node_id: node.0,
                vrf_output: eval.0,
                proof_bytes: eval.1,
                adversarial: node.1,
            },
        );
        i += 1;
    }
    assert(seats@ =~= ranked_committee(nodes@, evals@, order@, committee_size as int));
    seats
}

/// Selects the decryption committee of a round: every node evaluates `vrf` on
/// the round beacon, and the `cfg.committee_size` nodes with the lowest
/// outputs take the seats, lowest first. The evaluations are whatever `vrf`
/// returned for each node, asked in node order with the round beacon.
pub fn select_committee<V: Vrf>(cfg: &RoundConfig, nodes: &[(u64, bool)], vrf: &V) -> (seats: Vec<
    CommitteeSeat,
>)
    ensures
        exists|evals: Seq<(u64, usize)>|
            {
                &&& evals.len() == nodes@.len()
                &&& forall|i: int|
                    0 <= i < nodes@.len() ==> call_ensures(
                        V::eval,
                        (vrf, cfg.beacon, nodes@[i].0),
                        #[trigger] evals[i],
                    )
                &&& #[trigger] is_vrf_committee(nodes@, evals, cfg.committee_size as int, seats@)
            },
{
    let mut evals: Vec<(u64, usize)> = Vec::new();
    let mut i: usize = 0;
    while i < nodes.len()
        invariant
            0 <= i <= nodes@.len(),
            evals@.len() == i,
            forall|j: int|
                0 <= j < i ==> call_ensures(V::eval, (vrf, cfg.beacon, nodes@[j].0), #[trigger] evals@[j]),
        decreases nodes@.len() - i,
    {
        let out = vrf.eval(cfg.beacon, nodes[i].0);
        evals.push(out);
        i += 1;
    }
    rank_committee(nodes, evals.as_slice(), cfg.committee_size)
}

/// Two rankings of the same outputs agree on every position before `p`.
proof fn lemma_rankings_agree_below(keys: Seq<u64>, o1: Seq<usize>, o2: Seq<usize>, p: int)
    requires
        is_vrf_ranking(keys, o1),
        is_vrf_ranking(keys, o2),
        0 <= p <= o1.len(),
    ensures
        forall|q: int| 0 <= q < p ==> #[trigger] o1[q] == o2[q],
    decreases p,
{
    if p > 0 {
        lemma_rankings_agree_below(keys, o1, o2, p - 1);
        let q = p - 1;
        let a = o1[q];
        let b = o2[q];
        assert(a < keys.len() && b < keys.len());
        if a != b {
            if ranks_before(keys, a as int, b as int) {
                assert(o2.contains(a));
                let r = choose|r: int| 0 <= r < o2.len() && o2[r] == a;
                if r < q {
                    assert(o1[r] == o2[r]);
                    assert(ranks_before(keys, o1[r] as int, o1[q] as int));
                } else {
                    assert(ranks_before(keys, o2[q] as int, o2[r] as int));
                }
            } else {
                assert(o1.contains(b));
                let r = choose|r: int| 0 <= r < o1.len() && o1[r] == b;
                if r < q {
                    assert(o1[r] == o2[r]);
                    assert(ranks_before(keys, o2[r] as int, o2[q] as int));
                } else {
                    assert(ranks_before(keys, o1[q] as int, o1[r] as int));
                }
            }
        }
    }
}

/// The VRF outputs determine the ranking: there is only one.
pub proof fn lemma_vrf_ranking_unique(keys: Seq<u64>, o1: Seq<usize>, o2: Seq<usize>)
    requires
        is_vrf_ranking(keys, o1),
        is_vrf_ranking(keys, o2),
    ensures
        o1 == o2,
{
    lemma_rankings_agree_below(keys, o1, o2, o1.len() as int);
    assert(o1 =~= o2);
}

/// `seat` is the seat of one of `nodes`, with that node's VRF evaluation.
pub open spec fn is_seat_of_some_node(
    nodes: Seq<(u64, bool)>,
    evals: Seq<(u64, usize)>,
    seat: CommitteeSeat,
) -> bool {
    exists|k: int| 0 <= k < nodes.len() && seat == #[trigger] seat_for(nodes[k], evals[k])
}

/// The nodes and their VRF evaluations determine the committee: there is only
/// one of a given size.
pub proof fn lemma_vrf_committee_unique(
    nodes: Seq<(u64, bool)>,
    evals: Seq<(u64, usize)>,
    size: int,
    c1: Seq<CommitteeSeat>,
    c2: Seq<CommitteeSeat>,
)
    requires
        is_vrf_committee(nodes, evals, size, c1),
        is_vrf_committee(nodes, evals, size, c2),
    ensures
        c1 == c2,
{
    let o1 = choose|o: Seq<usize>|
        #[trigger] is_vrf_ranking(vrf_keys(evals), o) && c1 == ranked_committee(nodes, evals, o, size);
    let o2 = choose|o: Seq<usize>|
        #[trigger] is_vrf_ranking(vrf_keys(evals), o) && c2 == ranked_committee(nodes, evals, o, size);
    lemma_vrf_ranking_unique(vrf_keys(evals), o1, o2);
}

/// A larger committee only appends seats: with the same evaluations, the
/// committee of `small` seats is the first seats of the committee of `large`
/// seats.
pub proof fn lemma_vrf_committee_prefix(
    nodes: Seq<(u64, bool)>,
    evals: Seq<(u64, usize)>,
    small: int,
    large: int,
    c_small: Seq<CommitteeSeat>,
    c_large: Seq<CommitteeSeat>,
)
    requires
        0 <= small <= large,
        is_vrf_committee(nodes, evals, small, c_small),
        is_vrf_committee(nodes, evals, large, c_large),
    ensures
        c_small.len() <= c_large.len(),
        c_small == c_large.take(c_small.len() as int),
{
    let o1 = choose|o: Seq<usize>|
        #[trigger] is_vrf_ranking(vrf_keys(evals), o) && c_small == ranked_committee(
            nodes,
            evals,
            o,
            small,
        );
    let o2 = choose|o: Seq<usize>|
        #[trigger] is_vrf_ranking(vrf_keys(evals), o) && c_large == ranked_committee(
            nodes,
            evals,
            o,
            large,
        );
    lemma_vrf_ranking_unique(vrf_keys(evals), o1, o2);
    assert(c_small =~= c_large.take(c_small.len() as int));
}

/// What a committee selected by VRF outputs is: it has `size` seats, or one
/// per node when there are fewer nodes; each seat is some node's seat; the
/// seats come in order of their outputs; a node whose output is lower than
/// that of a seat holder has a seat too; and when node identifiers are
/// distinct, no node holds two seats.
pub proof fn lemma_vrf_committee_properties(
    nodes: Seq<(u64, bool)>,
    evals: Seq<(u64, usize)>,
    size: int,
    committee: Seq<CommitteeSeat>,
)
    requires
        nodes.len() == evals.len(),
        size >= 0,
        is_vrf_committee(nodes, evals, size, committee),
    ensures
        committee.len() == if size < nodes.len() {
            size
        } else {
            nodes.len() as int
        },
        forall|i: int| 0 <= i < committee.len() ==> is_seat_of_some_node(nodes, evals, #[trigger] committee[i]),
        forall|i: int, j: int|
            #![trigger committee[i], committee[j]]
            0 <= i < j < committee.len() ==> committee[i].vrf_output <= committee[j].vrf_output,
        forall|k: usize, i: int|
            #![trigger evals[k as int], committee[i]]
            k < nodes.len() && 0 <= i < committee.len() && evals[k as int].0
                < committee[i].vrf_output ==> exists|j: int|
                0 <= j < committee.len() && #[trigger] committee[j] == seat_for(
                    nodes[k as int],
                    evals[k as int],
                ),
        (forall|k1: int, k2: int|
            #![trigger nodes[k1], nodes[k2]]
            0 <= k1 < nodes.len() && 0 <= k2 < nodes.len() && k1 != k2 ==> nodes[k1].0
                != nodes[k2].0) ==> forall|i: int, j: int|
            #![trigger committee[i], committee[j]]
            0 <= i < committee.len() && 0 <= j < committee.len() && i != j
                ==> committee[i].node_id != committee[j].node_id,
{
    let keys = vrf_keys(evals);
    let order = choose|o: Seq<usize>|
        #[trigger] is_vrf_ranking(keys, o) && committee == ranked_committee(nodes, evals, o, size);
    assert forall|i: int| 0 <= i < committee.len() implies is_seat_of_some_node(nodes, evals, #[trigger] committee[i]) by {
        assert(order[i] < keys.len());
        let k = order[i] as int;
        assert(committee[i] == seat_for(nodes[k], evals[k]));
    }
    assert forall|i: int, j: int|
        #![trigger committee[i], committee[j]]
        0 <= i < j < committee.len() implies committee[i].vrf_output <= committee[j].vrf_output by {
        assert(ranks_before(keys, order[i] as int, order[j] as int));
        assert(order[i] < keys.len() && order[j] < keys.len());
    }
    assert forall|k: usize, i: int|
        #![trigger evals[k as int], committee[i]]
        k < nodes.len() && 0 <= i < committee.len() && evals[k as int].0 < committee[i].vrf_output
            implies exists|j: int|
        0 <= j < committee.len() && #[trigger] committee[j] == seat_for(
            nodes[k as int],
            evals[k as int],
        ) by {
        assert(order.contains(k));
        let q = choose|q: int| 0 <= q < order.len() && order[q] == k;
        assert(order[i] < keys.len());
        if q >= committee.len() {
            assert(ranks_before(keys, order[i] as int, order[q] as int));
            assert(keys[k as int] == evals[k as int].0);
            assert(keys[order[i] as int] == evals[order[i] as int].0);
        } else {
            assert(committee[q] == seat_for(nodes[k as int], evals[k as int]));
        }
    }
    if forall|k1: int, k2: int|
        #![trigger nodes[k1], nodes[k2]]
        0 <= k1 < nodes.len() && 0 <= k2 < nodes.len() && k1 != k2 ==> nodes[k1].0 != nodes[k2].0 {
        assert forall|i: int, j: int|
            #![trigger committee[i], committee[j]]
            0 <= i < committee.len() && 0 <= j < committee.len() && i != j
                implies committee[i].node_id != committee[j].node_id by {
            assert(order[i] < keys.len() && order[j] < keys.len());
            if i < j {
                assert(ranks_before(keys, order[i] as int, order[j] as int));
            } else {
                assert(ranks_before(keys, order[j] as int, order[i] as int));
            }
            assert(nodes[order[i] as int].0 != nodes[order[j] as int].0);
        }
    }
}

} // verus!
