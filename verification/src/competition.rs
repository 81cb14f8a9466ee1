//! Competitions as the node tracks them, and 20-byte account addresses.
use vstd::prelude::*;
use crate::uint::{Uint256, word_modulus};

verus! {

/// A 20-byte account address.
pub type AddressBytes = [u8; 20];

/// Whether two addresses are the same.
pub fn same_address(a: &AddressBytes, b: &AddressBytes) -> (r: bool)
    ensures
        r == (a@ == b@),
{
    let mut i: usize = 0;
    while i < 20
        invariant
            i <= 20,
            a@.len() == 20,
            b@.len() == 20,
            forall|j: int| 0 <= j < i ==> a@[j] == b@[j],
        decreases 20 - i,
    {
        if a[i] != b[i] {
            return false;
        }
        i = i + 1;
    }
    assert(a@ =~= b@);
    true
}

/// A competition whose chain announcement and program have both arrived,
/// ready for a competitor to join.
pub struct ReadyCompetition<S> {
    pub competition_id: Uint256,
    pub issuer: AddressBytes,
    pub reward: Uint256,
    pub competitors: Uint256,
    pub elf: Vec<u8>,
    pub stdin: S,
}

/// A competition whose chain announcement and program have been paired,
/// waiting for the competitor count that the contract reports.
pub struct PendingReady<S> {
    pub competition_id: Uint256,
    pub issuer: AddressBytes,
    pub reward: Uint256,
    pub elf: Vec<u8>,
    pub stdin: S,
}

impl<S> PendingReady<S> {
    /// The ready competition this becomes with `competitors` competitors.
    pub open spec fn with_count(self, competitors: Uint256) -> ReadyCompetition<S> {
        ReadyCompetition {
            competition_id: self.competition_id,
            issuer: self.issuer,
            reward: self.reward,
            competitors,
            elf: self.elf,
            stdin: self.stdin,
        }
    }

    /// Completes the pairing with the competitor count.
    pub fn into_ready(self, competitors: Uint256) -> (r: ReadyCompetition<S>)
        ensures
            r == self.with_count(competitors),
            r.competition_id == self.competition_id,
            r.issuer == self.issuer,
            r.reward == self.reward,
            r.elf == self.elf,
            r.stdin == self.stdin,
            r.competitors == competitors,
    {
        ReadyCompetition {
            competition_id: self.competition_id,
            issuer: self.issuer,
            reward: self.reward,
            competitors,
            elf: self.elf,
            stdin: self.stdin,
        }
    }
}

/// Completing a pairing keeps every field of the paired competition and only
/// adds the competitor count.
pub proof fn lemma_ready_keeps_paired_fields<S>(p: PendingReady<S>, competitors: Uint256)
    ensures
        ({
            let r = p.with_count(competitors);
            &&& r.competition_id == p.competition_id
            &&& r.issuer == p.issuer
            &&& r.reward == p.reward
            &&& r.elf == p.elf
            &&& r.stdin == p.stdin
            &&& r.competitors == competitors
        }),
{
}

/// The competitor count after one more competitor joins: the chain's
/// 256-bit `+= 1`, which wraps.
pub open spec fn joined_count(n: nat) -> nat {
    (n + 1) % word_modulus()
}

/// The competitor count after a competitor leaves: one less, never below zero.
pub open spec fn left_count(n: nat) -> nat {
    if n > 0 {
        (n - 1) as nat
    } else {
        0
    }
}

/// A join adds one competitor, wrapping to zero only past the largest word;
/// a leave removes one, and a count of zero stays zero.
pub proof fn lemma_count_steps(n: nat)
    requires
        n < word_modulus(),
    ensures
        n + 1 < word_modulus() ==> joined_count(n) == n + 1,
        n + 1 == word_modulus() ==> joined_count(n) == 0,
        n > 0 ==> left_count(n) == n - 1,
        left_count(0) == 0,
{
    if n + 1 < word_modulus() {
        vstd::arithmetic::div_mod::lemma_small_mod(n + 1, word_modulus());
    } else {
        vstd::arithmetic::div_mod::lemma_mod_self_0(word_modulus() as int);
    }
}

/// A count that a join raised and a leave lowered again is the count it was,
/// for every count below the largest word.
pub proof fn lemma_join_then_leave_restores_count(n: nat)
    requires
        n + 1 < word_modulus(),
    ensures
        left_count(joined_count(n)) == n,
{
    vstd::arithmetic::div_mod::lemma_small_mod(n + 1, word_modulus());
}

/// A count that a leave lowered and a join raised again is the count it was,
/// for every count above zero.
pub proof fn lemma_leave_then_join_restores_count(n: nat)
    requires
        0 < n < word_modulus(),
    ensures
        joined_count(left_count(n)) == n,
{
    vstd::arithmetic::div_mod::lemma_small_mod(n, word_modulus());
}

} // verus!
