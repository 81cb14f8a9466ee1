use alloy::signers::{local::PrivateKeySigner, SignerSync};
use zinknet::chain::{handle_blockchain_event, ChainEvent};
use zinknet::competition::{AddressBytes, ReadyCompetition};
use zinknet::p2p::{accept_elf, handle_swarm_event, subscribed_peer_exists, ElfPayload};
use zinknet::uint::Uint256;
use zinknet::word_map::WordMap;

type Stdin = Vec<u32>;

fn word(n: u64) -> Uint256 {
    Uint256::from_u64(n)
}

fn signer() -> PrivateKeySigner {
    "0x4c0883a69102937d6231471b5dbb6204fe5129617082792ae468d01a3f362318"
        .parse()
        .unwrap()
}

fn signed_payload(id: u64, elf: Vec<u8>) -> (ElfPayload<Stdin>, AddressBytes) {
    let s = signer();
    let signature = s.sign_message_sync(&elf).unwrap();
    (
        ElfPayload {
            competition_id: word(id),
            elf,
            stdin: vec![5],
            signature: signature.as_bytes().to_vec(),
        },
        s.address().into_array(),
    )
}

#[test]
fn signed_program_pairs_with_announcement_by_its_signer() {
    let (payload, address) = signed_payload(3, vec![1, 2, 3, 4]);
    assert_ne!(address, [0u8; 20]);
    let mut chain_only: WordMap<(AddressBytes, Uint256)> = WordMap::new();
    let mut elf_only: WordMap<(Vec<u8>, Stdin, AddressBytes)> = WordMap::new();
    chain_only.insert(word(3), (address, word(77)));
    let r = handle_swarm_event(payload, &mut chain_only, &mut elf_only).expect("paired");
    assert_eq!(r.issuer, address);
    assert_eq!(r.reward, word(77));
    assert_eq!(r.elf, vec![1, 2, 3, 4]);
    assert_eq!(r.stdin, vec![5]);
    assert_eq!(chain_only.len(), 0);
    assert_eq!(elf_only.len(), 0);
}

#[test]
fn program_before_announcement_waits_under_recovered_signer() {
    let (payload, address) = signed_payload(8, vec![9, 9]);
    let mut chain_only: WordMap<(AddressBytes, Uint256)> = WordMap::new();
    let mut elf_only: WordMap<(Vec<u8>, Stdin, AddressBytes)> = WordMap::new();
    assert!(handle_swarm_event(payload, &mut chain_only, &mut elf_only).is_none());
    let (elf, stdin, who) = elf_only.get(&word(8)).expect("waiting");
    assert_eq!(elf, &vec![9, 9]);
    assert_eq!(stdin, &vec![5]);
    assert_eq!(who, &address);
}

#[test]
fn program_signed_by_someone_else_leaves_announcement_waiting() {
    let (payload, _) = signed_payload(3, vec![1]);
    let mut chain_only: WordMap<(AddressBytes, Uint256)> = WordMap::new();
    let mut elf_only: WordMap<(Vec<u8>, Stdin, AddressBytes)> = WordMap::new();
    chain_only.insert(word(3), ([0x11; 20], word(77)));
    assert!(handle_swarm_event(payload, &mut chain_only, &mut elf_only).is_none());
    assert_eq!(chain_only.get(&word(3)), Some(&([0x11; 20], word(77))));
    assert_eq!(elf_only.len(), 0);
}

#[test]
fn malformed_signature_is_dropped() {
    let (mut payload, _) = signed_payload(3, vec![1]);
    payload.signature.truncate(64);
    let mut chain_only: WordMap<(AddressBytes, Uint256)> = WordMap::new();
    let mut elf_only: WordMap<(Vec<u8>, Stdin, AddressBytes)> = WordMap::new();
    assert!(handle_swarm_event(payload, &mut chain_only, &mut elf_only).is_none());
    assert_eq!(chain_only.len(), 0);
    assert_eq!(elf_only.len(), 0);
}

#[test]
fn signature_over_other_program_recovers_other_address() {
    let (mut payload, address) = signed_payload(4, vec![1, 2]);
    payload.elf = vec![3, 4];
    let mut chain_only: WordMap<(AddressBytes, Uint256)> = WordMap::new();
    let mut elf_only: WordMap<(Vec<u8>, Stdin, AddressBytes)> = WordMap::new();
    handle_swarm_event(payload, &mut chain_only, &mut elf_only);
    let (_, _, who) = elf_only.get(&word(4)).expect("waiting");
    assert_ne!(who, &address);
}

#[test]
fn accept_elf_with_known_signer() {
    let mut chain_only: WordMap<(AddressBytes, Uint256)> = WordMap::new();
    let mut elf_only: WordMap<(Vec<u8>, Stdin, AddressBytes)> = WordMap::new();
    chain_only.insert(word(1), ([1; 20], word(2)));
    let r = accept_elf(word(1), vec![0], vec![], [1; 20], &mut chain_only, &mut elf_only);
    assert!(r.is_some());
    assert_eq!(chain_only.len(), 0);
}

#[test]
fn subscribed_peer_search() {
    let topic = "test".to_string();
    let none: Vec<Vec<String>> = vec![];
    assert!(!subscribed_peer_exists(&none, &topic));
    let others = vec![vec!["other".to_string()], vec![]];
    assert!(!subscribed_peer_exists(&others, &topic));
    let some = vec![vec!["other".to_string()], vec!["x".to_string(), "test".to_string()]];
    assert!(subscribed_peer_exists(&some, &topic));
}

#[test]
fn pairing_is_the_same_whichever_arrives_first() {
    let run = |announcement_first: bool| {
        let (payload, address) = signed_payload(11, vec![4, 5, 6]);
        let mut chain_only: WordMap<(AddressBytes, Uint256)> = WordMap::new();
        let mut elf_only: WordMap<(Vec<u8>, Stdin, AddressBytes)> = WordMap::new();
        let mut ready: WordMap<ReadyCompetition<Stdin>> = WordMap::new();
        let mut active = None;
        let opened = ChainEvent::CompetitionOpened { competition_id: word(11), issuer: address, reward: word(3) };
        let pending = if announcement_first {
            assert!(handle_blockchain_event(opened, &[0; 20], &mut chain_only, &mut elf_only, &mut ready, &mut active).is_none());
            handle_swarm_event(payload, &mut chain_only, &mut elf_only)
        } else {
            assert!(handle_swarm_event(payload, &mut chain_only, &mut elf_only).is_none());
            handle_blockchain_event(opened, &[0; 20], &mut chain_only, &mut elf_only, &mut ready, &mut active)
        }
        .expect("paired");
        assert_eq!(chain_only.len(), 0);
        assert_eq!(elf_only.len(), 0);
        (pending.competition_id, pending.issuer, pending.reward, pending.elf, pending.stdin)
    };
    assert_eq!(run(true), run(false));
}

fn key() -> [u8; 32] {
    signer().to_bytes().0
}

#[test]
fn signer_address_matches_alloy() {
    assert_eq!(zinknet::p2p::signer_address(&key()), Some(signer().address().into_array()));
    assert_eq!(zinknet::p2p::signer_address(&[0u8; 32]), None);
}

#[test]
fn signed_payload_carries_alloy_signature() {
    let p: ElfPayload<Stdin> = ElfPayload::signed(word(2), vec![1, 2, 3], vec![8], &key()).expect("signed");
    let expected = signer().sign_message_sync(&[1, 2, 3]).unwrap().as_bytes().to_vec();
    assert_eq!(p.signature, expected);
    assert_eq!(p.competition_id, word(2));
    assert_eq!(p.elf, vec![1, 2, 3]);
    assert_eq!(p.stdin, vec![8]);
    assert!(ElfPayload::<Stdin>::signed(word(2), vec![1], vec![], &[0u8; 32]).is_none());
}

#[test]
fn issuer_signed_payload_pairs_at_node() {
    let issuer = zinknet::p2p::signer_address(&key()).unwrap();
    let p: ElfPayload<Stdin> = ElfPayload::signed(word(6), vec![7, 7], vec![1], &key()).unwrap();
    let mut chain_only: WordMap<(AddressBytes, Uint256)> = WordMap::new();
    let mut elf_only: WordMap<(Vec<u8>, Stdin, AddressBytes)> = WordMap::new();
    chain_only.insert(word(6), (issuer, word(9)));
    let r = handle_swarm_event(p, &mut chain_only, &mut elf_only).expect("paired");
    assert_eq!((r.issuer, r.reward, r.elf, r.stdin), (issuer, word(9), vec![7, 7], vec![1]));
    assert_eq!(chain_only.len(), 0);
}
