//! The peer-to-peer side: programs that issuers publish on the gossip topic,
//! how the node pairs them with chain announcements, and the search for a
//! peer that listens on the topic.
use vstd::prelude::*;
use alloy::signers::SignerSync;
use crate::uint::Uint256;
use crate::competition::{AddressBytes, PendingReady, same_address};
use crate::chain::{announcement_handled, pending_disjoint};
use crate::word_map::{
    WordMap, has_key, inserted, keys_distinct, lemma_inserted, lemma_removed, lemma_removed_inserted,
    lookup, removed,
};

verus! {

/// What an issuer publishes for a competition: the program, its input, and
/// the issuer's signature over the program (65 bytes: r, s, v).
pub struct ElfPayload<S> {
    pub competition_id: Uint256,
    pub elf: Vec<u8>,
    pub stdin: S,
    pub signature: Vec<u8>,
}

/// The address that alloy's `Signature::recover_address_from_msg` recovers
/// from a 65-byte signature and a message (EIP-191 hashing, secp256k1
/// recovery), or `None` where the signature is malformed or recovery fails.
pub uninterp spec fn recovered_address(signature: Seq<u8>, message: Seq<u8>) -> Option<AddressBytes>;

/// Calls alloy's `Signature::try_from(&[u8])` to read the signature and
/// `Signature::recover_address_from_msg` to recover the signer. Claimed: the
/// result is `recovered_address` of the two byte strings, and a signature
/// that is not 65 bytes long gives `None` (`from_raw` refuses it). What the
/// recovery computes is not stated.
#[verifier::external_body]
fn recover_address_from_msg(signature: &Vec<u8>, message: &Vec<u8>) -> (r: Option<AddressBytes>)
    ensures
        r == recovered_address(signature@, message@),
        signature@.len() != 65 ==> r is None,
{
    match alloy::primitives::Signature::try_from(signature.as_slice()) {
        Ok(sig) => match sig.recover_address_from_msg(message.as_slice()) {
            Ok(address) => Some(address.into_array()),
            Err(_) => None,
        },
        Err(_) => None,
    }
}

/// What taking in a program signed by `signer` does: when the chain already
/// announced the competition and its issuer is the signer, the pair leaves the
/// waiting table and is handed back; when the issuer differs, nothing changes;
/// when no announcement came yet, the program waits for it.
pub open spec fn elf_accepted<S>(
    chain_before: Seq<(Uint256, (AddressBytes, Uint256))>,
    chain_after: Seq<(Uint256, (AddressBytes, Uint256))>,
    elf_before: Seq<(Uint256, (Vec<u8>, S, AddressBytes))>,
    elf_after: Seq<(Uint256, (Vec<u8>, S, AddressBytes))>,
    competition_id: Uint256,
    elf: Vec<u8>,
    stdin: S,
    signer: AddressBytes,
    r: Option<PendingReady<S>>,
) -> bool {
    match lookup(chain_before, competition_id) {
        Some((issuer, reward)) => {
            &&& elf_after == elf_before
            &&& if signer@ == issuer@ {
                &&& chain_after == removed(chain_before, competition_id)
                &&& r == Some(PendingReady { competition_id, issuer, reward, elf, stdin })
            } else {
                &&& chain_after == chain_before
                &&& r is None
            }
        },
        None => {
            &&& chain_after == chain_before
            &&& elf_after == inserted(elf_before, competition_id, (elf, stdin, signer))
            &&& r is None
        },
    }
}

/// Takes in the program for `competition_id`, whose signature recovered to
/// `signer`.
pub fn accept_elf<S>(
    competition_id: Uint256,
    elf: Vec<u8>,
    stdin: S,
    signer: AddressBytes,
    chain_only_competitions: &mut WordMap<(AddressBytes, Uint256)>,
    elf_only_competitions: &mut WordMap<(Vec<u8>, S, AddressBytes)>,
) -> (r: Option<PendingReady<S>>)
    requires
        old(chain_only_competitions).wf(),
        old(elf_only_competitions).wf(),
    ensures
        final(chain_only_competitions).wf(),
        final(elf_only_competitions).wf(),
        elf_accepted(
            old(chain_only_competitions)@,
            final(chain_only_competitions)@,
            old(elf_only_competitions)@,
            final(elf_only_competitions)@,
            competition_id,
            elf,
            stdin,
            signer,
            r,
        ),
        pending_disjoint(old(chain_only_competitions)@, old(elf_only_competitions)@)
            ==> pending_disjoint(final(chain_only_competitions)@, final(elf_only_competitions)@),
{
    proof {
        chain_only_competitions.lemma_wf();
        elf_only_competitions.lemma_wf();
        lemma_removed(old(chain_only_competitions)@, competition_id);
        lemma_inserted(old(elf_only_competitions)@, competition_id, (elf, stdin, signer));
    }
    let announced = match chain_only_competitions.get(&competition_id) {
        Some(entry) => Some(*entry),
        None => None,
    };
    match announced {
        Some((issuer, reward)) => {
            if !same_address(&signer, &issuer) {
                return None;
            }
            let _ = chain_only_competitions.remove(&competition_id);
            Some(PendingReady { competition_id, issuer, reward, elf, stdin })
        },
        None => {
            elf_only_competitions.insert(competition_id, (elf, stdin, signer));
            None
        },
    }
}

/// The address of the account whose secret key is the 32 big-endian bytes
/// `key`, as alloy's `PrivateKeySigner::from_bytes` and `address` give it, or
/// `None` when the bytes are not a valid secp256k1 secret key.
pub uninterp spec fn key_address(key: Seq<u8>) -> Option<AddressBytes>;

/// The 65-byte signature (r, s, v) that alloy's
/// `PrivateKeySigner::sign_message_sync` makes over `message` (EIP-191) with
/// the secret key `key`, or `None` when the key is invalid or signing fails.
pub uninterp spec fn message_signature(key: Seq<u8>, message: Seq<u8>) -> Option<Seq<u8>>;

/// Calls alloy's `PrivateKeySigner::from_bytes` to read the key and
/// `address` to get its account. Claimed: the result is `key_address` of the
/// key bytes. How the address is derived is not stated.
#[verifier::external_body]
fn address_from_key(key: &[u8; 32]) -> (r: Option<AddressBytes>)
    ensures
        r == key_address(key@),
{
    match alloy::signers::local::PrivateKeySigner::from_bytes(&alloy::primitives::B256::from(*key)) {
        Ok(signer) => Some(signer.address().into_array()),
        Err(_) => None,
    }
}

/// Calls alloy's `PrivateKeySigner::from_bytes` to read the key and
/// `SignerSync::sign_message_sync` to sign. Claimed: the result is
/// `message_signature` of the key and message; a signature is 65 bytes
/// (`Signature::as_bytes`); and, as alloy-signer-local documents
/// (`signature.recover_address_from_msg(message) == signer.address()`), the
/// signature recovers to the key's address over the same message. How the
/// signature is computed is not stated.
#[verifier::external_body]
fn sign_message_sync(key: &[u8; 32], message: &Vec<u8>) -> (r: Option<Vec<u8>>)
    ensures
        match r {
            Some(signature) => message_signature(key@, message@) == Some(signature@),
            None => message_signature(key@, message@) is None,
        },
        r matches Some(signature) ==> signature@.len() == 65 && key_address(key@) is Some
            && recovered_address(signature@, message@) == key_address(key@),
{
    match alloy::signers::local::PrivateKeySigner::from_bytes(&alloy::primitives::B256::from(*key)) {
        Ok(signer) => match signer.sign_message_sync(message.as_slice()) {
            Ok(signature) => Some(signature.as_bytes().to_vec()),
            Err(_) => None,
        },
        Err(_) => None,
    }
}

/// The account address of the secret key `key`, if the key is valid.
pub fn signer_address(key: &[u8; 32]) -> (r: Option<AddressBytes>)
    ensures
        r == key_address(key@),
{
    address_from_key(key)
}

impl<S> ElfPayload<S> {
    /// The payload an issuer publishes for a competition: the program and
    /// its input, signed with the issuer's secret key. `None` when the key
    /// cannot sign.
    pub fn signed(competition_id: Uint256, elf: Vec<u8>, stdin: S, key: &[u8; 32]) -> (r: Option<
        ElfPayload<S>,
    >)
        ensures
            match r {
                Some(p) => {
                    &&& p.competition_id == competition_id
                    &&& p.elf == elf
                    &&& p.stdin == stdin
                    &&& message_signature(key@, elf@) == Some(p.signature@)
                    &&& key_address(key@) is Some
                    &&& recovered_address(p.signature@, p.elf@) == key_address(key@)
                },
                None => message_signature(key@, elf@) is None,
            },
    {
        match sign_message_sync(key, &elf) {
            Some(signature) => Some(ElfPayload { competition_id, elf, stdin, signature }),
            None => None,
        }
    }
}

/// What taking in a published payload does to the waiting tables.
pub open spec fn payload_handled<S>(
    chain_before: Seq<(Uint256, (AddressBytes, Uint256))>,
    chain_after: Seq<(Uint256, (AddressBytes, Uint256))>,
    elf_before: Seq<(Uint256, (Vec<u8>, S, AddressBytes))>,
    elf_after: Seq<(Uint256, (Vec<u8>, S, AddressBytes))>,
    payload: ElfPayload<S>,
    r: Option<PendingReady<S>>,
) -> bool {
    match recovered_address(payload.signature@, payload.elf@) {
        Some(signer) => elf_accepted(
            chain_before,
            chain_after,
            elf_before,
            elf_after,
            payload.competition_id,
            payload.elf,
            payload.stdin,
            signer,
            r,
        ),
        None => {
            &&& chain_after == chain_before
            &&& elf_after == elf_before
            &&& r is None
        },
    }
}

/// How the node takes in a program published on the gossip topic: the
/// signature is recovered to its signer, and a program whose signature does
/// not recover is dropped; otherwise as `accept_elf`.
pub fn handle_swarm_event<S>(
    payload: ElfPayload<S>,
    chain_only_competitions: &mut WordMap<(AddressBytes, Uint256)>,
    elf_only_competitions: &mut WordMap<(Vec<u8>, S, AddressBytes)>,
) -> (r: Option<PendingReady<S>>)
    requires
        old(chain_only_competitions).wf(),
        old(elf_only_competitions).wf(),
    ensures
        final(chain_only_competitions).wf(),
        final(elf_only_competitions).wf(),
        payload_handled(
            old(chain_only_competitions)@,
            final(chain_only_competitions)@,
            old(elf_only_competitions)@,
            final(elf_only_competitions)@,
            payload,
            r,
        ),
        pending_disjoint(old(chain_only_competitions)@, old(elf_only_competitions)@)
            ==> pending_disjoint(final(chain_only_competitions)@, final(elf_only_competitions)@),
{
    match recover_address_from_msg(&payload.signature, &payload.elf) {
        Some(signer) => accept_elf(
            payload.competition_id,
            payload.elf,
            payload.stdin,
            signer,
            chain_only_competitions,
            elf_only_competitions,
        ),
        None => None,
    }
}

/// Whichever of a competition's announcement and its program arrives first,
/// when the program was signed by the issuer the node pairs them into the
/// same pending competition, and both waiting tables end as they began.
pub proof fn lemma_pairing_independent_of_arrival_order<S>(
    chain0: Seq<(Uint256, (AddressBytes, Uint256))>,
    elf0: Seq<(Uint256, (Vec<u8>, S, AddressBytes))>,
    competition_id: Uint256,
    issuer: AddressBytes,
    reward: Uint256,
    elf: Vec<u8>,
    stdin: S,
    signer: AddressBytes,
    // announcement first, then program
    chain1a: Seq<(Uint256, (AddressBytes, Uint256))>,
    elf1a: Seq<(Uint256, (Vec<u8>, S, AddressBytes))>,
    ra1: Option<PendingReady<S>>,
    chain2a: Seq<(Uint256, (AddressBytes, Uint256))>,
    elf2a: Seq<(Uint256, (Vec<u8>, S, AddressBytes))>,
    ra2: Option<PendingReady<S>>,
    // program first, then announcement
    chain1b: Seq<(Uint256, (AddressBytes, Uint256))>,
    elf1b: Seq<(Uint256, (Vec<u8>, S, AddressBytes))>,
    rb1: Option<PendingReady<S>>,
    chain2b: Seq<(Uint256, (AddressBytes, Uint256))>,
    elf2b: Seq<(Uint256, (Vec<u8>, S, AddressBytes))>,
    rb2: Option<PendingReady<S>>,
)
    requires
        keys_distinct(chain0),
        keys_distinct(elf0),
        !has_key(chain0, competition_id),
        !has_key(elf0, competition_id),
        signer@ == issuer@,
        announcement_handled(chain0, chain1a, elf0, elf1a, competition_id, issuer, reward, ra1),
        elf_accepted(chain1a, chain2a, elf1a, elf2a, competition_id, elf, stdin, signer, ra2),
        elf_accepted(chain0, chain1b, elf0, elf1b, competition_id, elf, stdin, signer, rb1),
        announcement_handled(chain1b, chain2b, elf1b, elf2b, competition_id, issuer, reward, rb2),
    ensures
        ra1 is None,
        rb1 is None,
        ra2 == rb2,
        ra2 == Some(PendingReady { competition_id, issuer, reward, elf, stdin }),
        chain2a == chain0 && elf2a == elf0,
        chain2b == chain0 && elf2b == elf0,
{
    lemma_inserted(chain0, competition_id, (issuer, reward));
    lemma_inserted(elf0, competition_id, (elf, stdin, signer));
    lemma_removed_inserted(chain0, competition_id, (issuer, reward));
    lemma_removed_inserted(elf0, competition_id, (elf, stdin, signer));
}

/// A program that an issuer signed with the key of the account that opened
/// the competition pairs with the waiting announcement at the node: the
/// announcement leaves its table and the pending competition carries the
/// issuer, the reward, the program and its input.
pub proof fn lemma_issuer_signed_program_pairs<S>(
    chain_before: Seq<(Uint256, (AddressBytes, Uint256))>,
    chain_after: Seq<(Uint256, (AddressBytes, Uint256))>,
    elf_before: Seq<(Uint256, (Vec<u8>, S, AddressBytes))>,
    elf_after: Seq<(Uint256, (Vec<u8>, S, AddressBytes))>,
    payload: ElfPayload<S>,
    key: Seq<u8>,
    issuer: AddressBytes,
    reward: Uint256,
    r: Option<PendingReady<S>>,
)
    requires
        key_address(key) == Some(issuer),
        recovered_address(payload.signature@, payload.elf@) == key_address(key),
        lookup(chain_before, payload.competition_id) == Some((issuer, reward)),
        payload_handled(chain_before, chain_after, elf_before, elf_after, payload, r),
    ensures
        r == Some(
            PendingReady {
                competition_id: payload.competition_id,
                issuer,
                reward,
                elf: payload.elf,
                stdin: payload.stdin,
            },
        ),
        chain_after == removed(chain_before, payload.competition_id),
        elf_after == elf_before,
{
}

/// Taking in a program signed by `signer`: with no announcement yet, the
/// program waits under its competition id with its input and signer; with an
/// announcement by another issuer, nothing changes and nothing is handed on;
/// with the signer's own announcement, the announcement leaves its table and
/// the pair is handed on with the announced issuer and reward.
pub proof fn lemma_elf_effects<S>(
    chain_before: Seq<(Uint256, (AddressBytes, Uint256))>,
    chain_after: Seq<(Uint256, (AddressBytes, Uint256))>,
    elf_before: Seq<(Uint256, (Vec<u8>, S, AddressBytes))>,
    elf_after: Seq<(Uint256, (Vec<u8>, S, AddressBytes))>,
    competition_id: Uint256,
    elf: Vec<u8>,
    stdin: S,
    signer: AddressBytes,
    r: Option<PendingReady<S>>,
)
    requires
        keys_distinct(chain_before),
        keys_distinct(elf_before),
        elf_accepted(
            chain_before,
            chain_after,
            elf_before,
            elf_after,
            competition_id,
            elf,
            stdin,
            signer,
            r,
        ),
    ensures
        !has_key(chain_before, competition_id) ==> {
            &&& r is None
            &&& chain_after == chain_before
            &&& lookup(elf_after, competition_id) == Some((elf, stdin, signer))
        },
        has_key(chain_before, competition_id) && lookup(chain_before, competition_id).unwrap().0@
            != signer@ ==> r is None && chain_after == chain_before && elf_after == elf_before,
        has_key(chain_before, competition_id) && lookup(chain_before, competition_id).unwrap().0@
            == signer@ ==> {
            &&& !has_key(chain_after, competition_id)
            &&& elf_after == elf_before
            &&& r == Some(
                PendingReady {
                    competition_id,
                    issuer: lookup(chain_before, competition_id).unwrap().0,
                    reward: lookup(chain_before, competition_id).unwrap().1,
                    elf,
                    stdin,
                },
            )
        },
{
    lemma_inserted(elf_before, competition_id, (elf, stdin, signer));
    lemma_removed(chain_before, competition_id);
}

/// An announcement: with no program yet, it waits under its id with its
/// issuer and reward; with a program waiting, the program leaves its table,
/// and the pair is handed on when the program's signer is the issuer (the
/// program is dropped otherwise); the announcement itself is not stored then.
pub proof fn lemma_announcement_effects<S>(
    chain_before: Seq<(Uint256, (AddressBytes, Uint256))>,
    chain_after: Seq<(Uint256, (AddressBytes, Uint256))>,
    elf_before: Seq<(Uint256, (Vec<u8>, S, AddressBytes))>,
    elf_after: Seq<(Uint256, (Vec<u8>, S, AddressBytes))>,
    competition_id: Uint256,
    issuer: AddressBytes,
    reward: Uint256,
    r: Option<PendingReady<S>>,
)
    requires
        keys_distinct(chain_before),
        keys_distinct(elf_before),
        announcement_handled(
            chain_before,
            chain_after,
            elf_before,
            elf_after,
            competition_id,
            issuer,
            reward,
            r,
        ),
    ensures
        !has_key(elf_before, competition_id) ==> {
            &&& r is None
            &&& elf_after == elf_before
            &&& lookup(chain_after, competition_id) == Some((issuer, reward))
        },
        has_key(elf_before, competition_id) ==> {
            &&& !has_key(elf_after, competition_id)
            &&& chain_after == chain_before
            &&& (r is Some <==> lookup(elf_before, competition_id).unwrap().2@ == issuer@)
            &&& r is Some ==> r == Some(
                PendingReady {
                    competition_id,
                    issuer,
                    reward,
                    elf: lookup(elf_before, competition_id).unwrap().0,
                    stdin: lookup(elf_before, competition_id).unwrap().1,
                },
            )
        },
{
    lemma_inserted(chain_before, competition_id, (issuer, reward));
    lemma_removed(elf_before, competition_id);
}

/// Whether some peer lists `topic` among the topics it is subscribed to.
pub open spec fn some_peer_subscribed(peer_topics: Seq<Vec<String>>, topic: Seq<char>) -> bool {
    exists|i: int, j: int|
        0 <= i < peer_topics.len() && 0 <= j < peer_topics[i]@.len() && (
        #[trigger] peer_topics[i]@[j])@ == topic
}

/// Whether any known peer is subscribed to `topic`; `peer_topics` holds,
/// for each peer, the hashes of the topics it subscribed to.
pub fn subscribed_peer_exists(peer_topics: &Vec<Vec<String>>, topic: &String) -> (r: bool)
    ensures
        r == some_peer_subscribed(peer_topics@, topic@),
{
    let mut i: usize = 0;
    while i < peer_topics.len()
        invariant
            i <= peer_topics@.len(),
            forall|a: int, b: int|
                0 <= a < i && 0 <= b < peer_topics@[a]@.len() ==> (#[trigger] peer_topics@[a]@[b])@
                    != topic@,
        decreases peer_topics@.len() - i,
    {
        let topics = &peer_topics[i];
        let mut j: usize = 0;
        while j < topics.len()
            invariant
                i < peer_topics@.len(),
                *topics == peer_topics@[i as int],
                j <= topics@.len(),
                forall|b: int| 0 <= b < j ==> (#[trigger] topics@[b])@ != topic@,
            decreases topics@.len() - j,
        {
            if topics[j] == *topic {
                assert(peer_topics@[i as int]@[j as int]@ == topic@);
                return true;
            }
            j = j + 1;
        }
        i = i + 1;
    }
    false
}

} // verus!
