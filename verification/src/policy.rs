//! Threshold adjustment under Sybil pressure, and the outcome-change test.

use vstd::prelude::*;

verus! {

/// Whether a tally with `yes` and `no` votes is carried by the yes side.
pub open spec fn carried_yes(yes: int, no: int) -> bool {
    yes > no
}

/// The adversary changed the outcome: both tallies hold votes, and their
/// majorities disagree.
pub open spec fn spec_outcome_changed(
    honest_yes: int,
    honest_no: int,
    adversary_yes: int,
    adversary_no: int,
) -> bool {
    &&& honest_yes + honest_no > 0
    &&& adversary_yes + adversary_no > 0
    &&& carried_yes(honest_yes, honest_no) != carried_yes(adversary_yes, adversary_no)
}

/// Reports whether the adversary's tally carries the opposite majority of the
/// honest tally, counting only tallies that hold at least one vote.
pub fn outcome_changed(
    honest_tally_yes: u64,
    honest_tally_no: u64,
    adversary_tally_yes: u64,
    adversary_tally_no: u64,
) -> (changed: bool)
    requires
        honest_tally_yes + honest_tally_no <= u64::MAX,
        adversary_tally_yes + adversary_tally_no <= u64::MAX,
    ensures
        changed == spec_outcome_changed(
            honest_tally_yes as int,
            honest_tally_no as int,
            adversary_tally_yes as int,
            adversary_tally_no as int,
        ),
        changed == (honest_tally_yes + honest_tally_no > 0 && adversary_tally_yes
            + adversary_tally_no > 0 && ((honest_tally_yes > honest_tally_no) != (
        adversary_tally_yes > adversary_tally_no))),
{
    let honest = honest_tally_yes + honest_tally_no;
    let adversary = adversary_tally_yes + adversary_tally_no;
    honest > 0 && adversary > 0 && (honest_tally_yes > honest_tally_no) != (adversary_tally_yes
        > adversary_tally_no)
}

/// A tally is carried by yes exactly when it holds more yes than no votes,
/// so the outcome changed exactly when both tallies hold votes and exactly
/// one of them has more yes than no votes.
pub proof fn lemma_outcome_changed_is_majority_flip(hy: int, hn: int, ay: int, an: int)
    ensures
        spec_outcome_changed(hy, hn, ay, an) == (hy + hn > 0 && ay + an > 0 && ((hy > hn) != (ay
            > an))),
        hy > hn && ay > an ==> !spec_outcome_changed(hy, hn, ay, an),
        hy <= hn && ay <= an ==> !spec_outcome_changed(hy, hn, ay, an),
{
}

/// Swapping the roles of the honest and the adversary tally does not change
/// whether the outcome changed.
pub proof fn lemma_outcome_changed_symmetric(hy: int, hn: int, ay: int, an: int)
    ensures
        spec_outcome_changed(hy, hn, ay, an) == spec_outcome_changed(ay, an, hy, hn),
{
}

/// A tally compared with itself never changes the outcome.
pub proof fn lemma_outcome_unchanged_by_same_tally(yes: int, no: int)
    ensures
        !spec_outcome_changed(yes, no, yes, no),
{
}


/// How strongly Sybil identities press on the network, by the bands the
/// threshold policy distinguishes: up to one fifth of the nodes, above one
/// fifth, and above two fifths.
#[derive(Clone, Copy, Debug, PartialEq, Eq, Structural)]
pub enum PressureLevel {
    Low,
    Elevated,
    Severe,
}

/// How much the policy raises the base threshold at a pressure level:
/// one step above one fifth, and two more above two fifths.
pub open spec fn spec_pressure_bump(level: PressureLevel) -> nat {
    match level {
        PressureLevel::Low => 0,
        PressureLevel::Elevated => 1,
        PressureLevel::Severe => 3,
    }
}

/// The rank of a pressure level, from the lowest band up.
pub open spec fn pressure_rank(level: PressureLevel) -> nat {
    match level {
        PressureLevel::Low => 0,
        PressureLevel::Elevated => 1,
        PressureLevel::Severe => 2,
    }
}

/// The largest threshold a committee of `committee_size` seats admits: one
/// seat fewer than the committee, never below zero.
pub open spec fn threshold_cap(committee_size: int) -> int {
    if committee_size >= 1 {
        committee_size - 1
    } else {
        0
    }
}

/// The adjusted threshold: the raised base, capped by the committee, and at
/// least one.
pub open spec fn spec_adjusted_threshold(
    base: int,
    committee_size: int,
    level: PressureLevel,
) -> int {
    let raised = base + spec_pressure_bump(level);
    let capped = if raised <= threshold_cap(committee_size) {
        raised
    } else {
        threshold_cap(committee_size)
    };
    if capped >= 1 {
        capped
    } else {
        1
    }
}

/// The raise at each level: none at low pressure, one step above one fifth,
/// three steps above two fifths; and within the committee cap the adjusted
/// threshold is the base plus that raise.
pub proof fn lemma_adjusted_threshold_values(base: int, committee_size: int)
    requires
        base >= 1,
    ensures
        spec_pressure_bump(PressureLevel::Low) == 0,
        spec_pressure_bump(PressureLevel::Elevated) == 1,
        spec_pressure_bump(PressureLevel::Severe) == 3,
        base <= committee_size - 1 ==> spec_adjusted_threshold(base, committee_size, PressureLevel::Low)
            == base,
        base + 1 <= committee_size - 1 ==> spec_adjusted_threshold(
            base,
            committee_size,
            PressureLevel::Elevated,
        ) == base + 1,
        base + 3 <= committee_size - 1 ==> spec_adjusted_threshold(
            base,
            committee_size,
            PressureLevel::Severe,
        ) == base + 3,
        committee_size >= 2 && base > committee_size - 1 ==> spec_adjusted_threshold(
            base,
            committee_size,
            PressureLevel::Low,
        ) == committee_size - 1,
{
}

/// The amount by which the threshold policy raises the base threshold at
/// `level`.
pub fn pressure_bump(level: PressureLevel) -> (bump: usize)
    ensures
        bump == spec_pressure_bump(level),
{
    match level {
        PressureLevel::Low => 0,
        PressureLevel::Elevated => 1,
        PressureLevel::Severe => 3,
    }
}

/// Raises the decryption threshold with the Sybil pressure, then keeps it
/// between one and one seat fewer than the committee.
pub fn tdg_adjust_threshold(base: usize, committee_size: usize, sybil_pressure: PressureLevel) -> (t: usize)
    requires
        base + spec_pressure_bump(sybil_pressure) <= usize::MAX,
    ensures
        t == spec_adjusted_threshold(base as int, committee_size as int, sybil_pressure),
        t >= 1,
        committee_size >= 2 ==> t <= committee_size - 1,
        1 <= base + spec_pressure_bump(sybil_pressure) <= committee_size - 1 ==> t == base
            + spec_pressure_bump(sybil_pressure),
{
    let mut t = base;
    if sybil_pressure != PressureLevel::Low {
        t += 1;
    }
    if sybil_pressure == PressureLevel::Severe {
        t += 2;
    }
    let cap = committee_size.saturating_sub(1);
    let capped = if t <= cap {
        t
    } else {
        cap
    };
    if capped >= 1 {
        capped
    } else {
        1
    }
}

/// The adjusted threshold is at least one, and, for a committee of two or more
/// seats, leaves at least one seat above it.
pub proof fn lemma_adjusted_threshold_bounds(base: int, committee_size: int, level: PressureLevel)
    requires
        base >= 0,
    ensures
        spec_adjusted_threshold(base, committee_size, level) >= 1,
        committee_size >= 2 ==> spec_adjusted_threshold(base, committee_size, level)
            <= committee_size - 1,
{
}

/// More Sybil pressure never lowers the adjusted threshold.
pub proof fn lemma_adjusted_threshold_monotone_in_pressure(
    base: int,
    committee_size: int,
    lower: PressureLevel,
    higher: PressureLevel,
)
    requires
        pressure_rank(lower) <= pressure_rank(higher),
    ensures
        spec_adjusted_threshold(base, committee_size, lower) <= spec_adjusted_threshold(
            base,
            committee_size,
            higher,
        ),
{
}

/// A larger base threshold never gives a lower adjusted threshold.
pub proof fn lemma_adjusted_threshold_monotone_in_base(
    base: int,
    larger_base: int,
    committee_size: int,
    level: PressureLevel,
)
    requires
        base <= larger_base,
    ensures
        spec_adjusted_threshold(base, committee_size, level) <= spec_adjusted_threshold(
            larger_base,
            committee_size,
            level,
        ),
{
}

/// When the raised base already lies between one and the committee cap, the
/// policy applies it unchanged.
pub proof fn lemma_adjusted_threshold_uncapped(base: int, committee_size: int, level: PressureLevel)
    requires
        1 <= base + spec_pressure_bump(level) <= threshold_cap(committee_size),
    ensures
        spec_adjusted_threshold(base, committee_size, level) == base + spec_pressure_bump(level),
{
}

} // verus!
