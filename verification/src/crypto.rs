//! Threshold encryption of ballots and the combination of partial
//! decryptions into a tally, with a mock scheme that hashes ballots.

use vstd::prelude::*;

use crate::bytes::{u64_le_bytes, u64_to_le_bytes};
use crate::hash::{blake3_digest, blake3_hash};
use crate::types::{Ballot, EncryptedBallot, PartialDecryption, TallyResult};

verus! {

broadcast use vstd::seq_lib::group_filter_ensures;

/// A threshold encryption scheme: ballots are encrypted to the committee, each
/// committee member contributes a partial decryption, and enough shares
/// combine into the tally.
pub trait ThresholdCrypto: Send + Sync {
    fn encrypt_ballot(&self, b: &Ballot) -> EncryptedBallot;

    fn partial_decrypt(&self, round: u64, member: u64, valid: bool) -> PartialDecryption;

    fn combine(&self, round: u64, shares: &[PartialDecryption], ballots: &[Ballot]) -> TallyResult;
}

/// A stand-in for a real threshold scheme: ciphertexts are ballot digests of
/// a fixed reported size, shares carry fixed sizes, and combining counts the
/// plaintext ballots.
pub struct MockThresholdCrypto;

/// The ciphertext size the mock scheme reports for every ballot.
pub const MOCK_CIPHERTEXT_BYTES: usize = 1280;

/// The share size the mock scheme reports for every partial decryption.
pub const MOCK_SHARE_BYTES: usize = 320;

/// The proof size the mock scheme reports for every partial decryption.
pub const MOCK_ZK_PROOF_BYTES: usize = 192;

/// A vote for yes.
pub open spec fn is_yes(b: Ballot) -> bool {
    b.value == 1
}

/// The number of yes votes among `ballots`.
pub open spec fn yes_votes(ballots: Seq<Ballot>) -> nat {
    ballots.filter(|b: Ballot| is_yes(b)).len()
}

/// No ballots hold no yes vote.
pub proof fn lemma_yes_votes_empty()
    ensures
        yes_votes(Seq::<Ballot>::empty()) == 0,
{
    reveal(Seq::filter);
}

/// Adding a ballot raises the yes count by one when it votes 1, and leaves it
/// unchanged otherwise.
pub proof fn lemma_yes_votes_push(ballots: Seq<Ballot>, b: Ballot)
    ensures
        yes_votes(ballots.push(b)) == yes_votes(ballots) + if b.value == 1 {
            1int
        } else {
            0int
        },
{
    ballots.lemma_filter_push(b, |x: Ballot| is_yes(x));
}

/// The yes count is the number of ballots that vote 1: all of them when every
/// ballot votes 1, none when no ballot does.
pub proof fn lemma_yes_votes_bounds(ballots: Seq<Ballot>)
    ensures
        yes_votes(ballots) <= ballots.len(),
        (forall|i: int| 0 <= i < ballots.len() ==> (#[trigger] ballots[i]).value == 1) ==> yes_votes(
            ballots,
        ) == ballots.len(),
        (forall|i: int| 0 <= i < ballots.len() ==> (#[trigger] ballots[i]).value != 1) ==> yes_votes(
            ballots,
        ) == 0,
    decreases ballots.len(),
{
    if ballots.len() == 0 {
        lemma_yes_votes_empty();
        assert(ballots =~= Seq::<Ballot>::empty());
    } else {
        let d = ballots.drop_last();
        lemma_yes_votes_bounds(d);
        lemma_yes_votes_push(d, ballots.last());
        assert(d.push(ballots.last()) =~= ballots);
        assert forall|i: int| 0 <= i < d.len() implies #[trigger] d[i] == ballots[i] by {}
    }
}

/// The tally of `ballots`: votes of value 1 are yes, every other vote is no.
pub open spec fn spec_tally(round: u64, decrypted: bool, ballots: Seq<Ballot>) -> TallyResult {
    TallyResult {
        round,
        total_yes: yes_votes(ballots) as u64,
        total_no: (ballots.len() - yes_votes(ballots)) as u64,
        decrypted,
    }
}

/// The bytes the mock scheme hashes for a ballot: the voter in eight
/// little-endian bytes, then the vote.
pub open spec fn ballot_digest_input(b: Ballot) -> Seq<u8> {
    u64_le_bytes(b.voter).push(b.value)
}

/// `ct` is the mock encryption of `b`: its payload is the 32-byte digest of
/// the ballot's bytes.
pub open spec fn is_mock_encryption(b: Ballot, ct: EncryptedBallot) -> bool {
    &&& ct.voter == b.voter
    &&& ct.ciphertext_bytes == MOCK_CIPHERTEXT_BYTES
    &&& ct.payload@ == blake3_digest(ballot_digest_input(b))
    &&& ct.payload@.len() == 32
}

/// The partial decryption the mock scheme issues for `member` in `round`.
pub open spec fn spec_mock_share(round: u64, member: u64, valid: bool) -> PartialDecryption {
    PartialDecryption {
        round,
        member,
        share_bytes: MOCK_SHARE_BYTES,
        zk_proof_bytes: MOCK_ZK_PROOF_BYTES,
        valid,
    }
}

/// Counts the yes votes among `ballots`.
pub fn count_yes(ballots: &[Ballot]) -> (n: u64)
    ensures
        n == yes_votes(ballots@),
        n <= ballots@.len(),
{
    let mut n: u64 = 0;
    let mut i: usize = 0;
    while i < ballots.len()
        invariant
            0 <= i <= ballots@.len(),
            n == yes_votes(ballots@.take(i as int)),
            n <= i,
        decreases ballots@.len() - i,
    {
        assert(ballots@.take(i + 1) == ballots@.take(i as int).push(ballots@[i as int]));
        proof {
            ballots@.take(i as int).lemma_filter_push(ballots@[i as int], |b: Ballot| is_yes(b));
        }
        if ballots[i].value == 1 {
            n += 1;
        }
        i += 1;
    }
    assert(ballots@.take(ballots@.len() as int) == ballots@);
    n
}

/// Builds the mock ciphertext of `b` from the digest of its bytes.
pub fn encrypted_ballot_from_digest(b: &Ballot, digest: Vec<u8>) -> (ct: EncryptedBallot)
    ensures
        ct.voter == b.voter,
        ct.ciphertext_bytes == MOCK_CIPHERTEXT_BYTES,
        ct.payload@ == digest@,
{
    EncryptedBallot { voter: b.voter, ciphertext_bytes: MOCK_CIPHERTEXT_BYTES, payload: digest }
}

/// Tallies `ballots` for `round`; the tally counts as decrypted when at least
/// one share was combined.
pub fn tally_ballots(round: u64, shares: &[PartialDecryption], ballots: &[Ballot]) -> (tally:
    TallyResult)
    ensures
        tally == spec_tally(round, shares@.len() > 0, ballots@),
        tally.total_yes + tally.total_no == ballots@.len(),
{
    let yes = count_yes(ballots);
    let no = ballots.len() as u64 - yes;
    TallyResult { round, total_yes: yes, total_no: no, decrypted: shares.len() > 0 }
}

impl ThresholdCrypto for MockThresholdCrypto {
    fn encrypt_ballot(&self, b: &Ballot) -> (ct: EncryptedBallot)
        ensures
            is_mock_encryption(*b, ct),
    {
        let mut input = u64_to_le_bytes(b.voter);
        input.push(b.value);
        let digest = blake3_hash(input.as_slice());
        encrypted_ballot_from_digest(b, digest)
    }

    fn partial_decrypt(&self, round: u64, member: u64, valid: bool) -> (share: PartialDecryption)
        ensures
            share == spec_mock_share(round, member, valid),
    {
        PartialDecryption {
            round,
            member,
            share_bytes: MOCK_SHARE_BYTES,
            zk_proof_bytes: MOCK_ZK_PROOF_BYTES,
            valid,
        }
    }

    fn combine(&self, round: u64, shares: &[PartialDecryption], ballots: &[Ballot]) -> (tally:
        TallyResult)
        ensures
            tally == spec_tally(round, shares@.len() > 0, ballots@),
    {
        tally_ballots(round, shares, ballots)
    }
}

} // verus!
