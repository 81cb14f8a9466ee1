use zinknet::chain::{
    complete_ready, handle_blockchain_event, opening_deposit, ChainEvent, LogPoller, ZinKNet,
};
use zinknet::competition::{AddressBytes, PendingReady, ReadyCompetition};
use zinknet::uint::Uint256;
use zinknet::word_map::WordMap;

type Stdin = Vec<u32>;

fn word(n: u64) -> Uint256 {
    Uint256::from_u64(n)
}

fn addr(b: u8) -> AddressBytes {
    [b; 20]
}

struct Tables {
    chain_only: WordMap<(AddressBytes, Uint256)>,
    elf_only: WordMap<(Vec<u8>, Stdin, AddressBytes)>,
    ready: WordMap<ReadyCompetition<Stdin>>,
    active: Option<Uint256>,
}

fn tables() -> Tables {
    Tables {
        chain_only: WordMap::new(),
        elf_only: WordMap::new(),
        ready: WordMap::new(),
        active: None,
    }
}

fn apply(t: &mut Tables, user: &AddressBytes, event: ChainEvent) -> Option<PendingReady<Stdin>> {
    handle_blockchain_event(
        event,
        user,
        &mut t.chain_only,
        &mut t.elf_only,
        &mut t.ready,
        &mut t.active,
    )
}

fn ready_one(t: &mut Tables, id: u64, competitors: u64) {
    t.ready.insert(
        word(id),
        ReadyCompetition {
            competition_id: word(id),
            issuer: addr(1),
            reward: word(100),
            competitors: word(competitors),
            elf: vec![1, 2, 3],
            stdin: vec![7],
        },
    );
}

#[test]
fn opened_before_elf_waits_for_program() {
    let mut t = tables();
    let r = apply(
        &mut t,
        &addr(9),
        ChainEvent::CompetitionOpened { competition_id: word(1), issuer: addr(1), reward: word(50) },
    );
    assert!(r.is_none());
    assert_eq!(t.chain_only.get(&word(1)), Some(&(addr(1), word(50))));
    assert_eq!(t.ready.len(), 0);
}

#[test]
fn opened_after_elf_pairs_when_issuer_signed() {
    let mut t = tables();
    t.elf_only.insert(word(4), (vec![0xaa, 0xbb], vec![12], addr(1)));
    let r = apply(
        &mut t,
        &addr(9),
        ChainEvent::CompetitionOpened { competition_id: word(4), issuer: addr(1), reward: word(50) },
    )
    .expect("paired");
    assert_eq!(r.competition_id, word(4));
    assert_eq!(r.issuer, addr(1));
    assert_eq!(r.reward, word(50));
    assert_eq!(r.elf, vec![0xaa, 0xbb]);
    assert_eq!(r.stdin, vec![12]);
    assert_eq!(t.elf_only.len(), 0);
    assert_eq!(t.chain_only.len(), 0);

    complete_ready(&mut t.ready, r, word(3));
    let c = t.ready.get(&word(4)).expect("ready");
    assert_eq!(c.competitors, word(3));
    assert_eq!(c.elf, vec![0xaa, 0xbb]);
}

#[test]
fn opened_after_elf_from_other_signer_drops_program() {
    let mut t = tables();
    t.elf_only.insert(word(4), (vec![1], vec![], addr(2)));
    let r = apply(
        &mut t,
        &addr(9),
        ChainEvent::CompetitionOpened { competition_id: word(4), issuer: addr(1), reward: word(50) },
    );
    assert!(r.is_none());
    assert_eq!(t.elf_only.len(), 0);
    assert_eq!(t.chain_only.len(), 0);
    assert_eq!(t.ready.len(), 0);
}

#[test]
fn joined_counts_competitor_and_marks_user() {
    let mut t = tables();
    ready_one(&mut t, 1, 0);
    ready_one(&mut t, 2, 5);
    apply(&mut t, &addr(9), ChainEvent::CompetitionJoined { competition_id: word(2), competitor: addr(3) });
    assert_eq!(t.ready.get(&word(2)).unwrap().competitors, word(6));
    assert_eq!(t.active, None);
    apply(&mut t, &addr(9), ChainEvent::CompetitionJoined { competition_id: word(2), competitor: addr(9) });
    assert_eq!(t.ready.get(&word(2)).unwrap().competitors, word(7));
    assert_eq!(t.active, Some(word(2)));
    // The table keeps its order.
    let keys: Vec<Uint256> = t.ready.entries().iter().map(|e| e.0).collect();
    assert_eq!(keys, vec![word(1), word(2)]);
}

#[test]
fn joined_unknown_competition_still_marks_user() {
    let mut t = tables();
    apply(&mut t, &addr(9), ChainEvent::CompetitionJoined { competition_id: word(8), competitor: addr(9) });
    assert_eq!(t.active, Some(word(8)));
    assert_eq!(t.ready.len(), 0);
}

#[test]
fn left_lowers_count_but_not_below_zero() {
    let mut t = tables();
    ready_one(&mut t, 1, 1);
    t.active = Some(word(1));
    apply(&mut t, &addr(9), ChainEvent::CompetitionLeft { competition_id: word(1), competitor: addr(3) });
    assert_eq!(t.ready.get(&word(1)).unwrap().competitors, word(0));
    assert_eq!(t.active, Some(word(1)));
    apply(&mut t, &addr(9), ChainEvent::CompetitionLeft { competition_id: word(1), competitor: addr(9) });
    assert_eq!(t.ready.get(&word(1)).unwrap().competitors, word(0));
    assert_eq!(t.active, None);
}

#[test]
fn join_then_leave_restores_count() {
    let mut t = tables();
    ready_one(&mut t, 1, 41);
    apply(&mut t, &addr(9), ChainEvent::CompetitionJoined { competition_id: word(1), competitor: addr(3) });
    apply(&mut t, &addr(9), ChainEvent::CompetitionLeft { competition_id: word(1), competitor: addr(3) });
    assert_eq!(t.ready.get(&word(1)).unwrap().competitors, word(41));
}

#[test]
fn joined_count_wraps_like_the_chain_word() {
    let mut t = tables();
    t.ready.insert(
        word(1),
        ReadyCompetition {
            competition_id: word(1),
            issuer: addr(1),
            reward: word(1),
            competitors: Uint256 { hi: u128::MAX, lo: u128::MAX },
            elf: vec![],
            stdin: vec![],
        },
    );
    apply(&mut t, &addr(9), ChainEvent::CompetitionJoined { competition_id: word(1), competitor: addr(3) });
    assert_eq!(t.ready.get(&word(1)).unwrap().competitors, word(0));
}

#[test]
fn other_events_change_nothing() {
    let mut t = tables();
    ready_one(&mut t, 1, 2);
    t.chain_only.insert(word(5), (addr(1), word(1)));
    let r = apply(&mut t, &addr(9), ChainEvent::Other);
    assert!(r.is_none());
    assert_eq!(t.ready.len(), 1);
    assert_eq!(t.chain_only.len(), 1);
    assert_eq!(t.active, None);
}

#[test]
fn opening_deposit_adds_reward_and_fee() {
    assert_eq!(opening_deposit(&word(1000), &word(25)), word(1025));
    let max = Uint256 { hi: u128::MAX, lo: u128::MAX };
    assert_eq!(opening_deposit(&max, &word(2)), word(1));
}

#[test]
fn zinknet_handle_keeps_provider_and_address() {
    let z = ZinKNet::new("provider", addr(7));
    assert_eq!(z.provider, "provider");
    assert_eq!(z.contract, addr(7));
}

#[test]
fn poller_fetches_each_new_block_once() {
    let mut p = LogPoller::new(Some(10));
    assert_eq!(p.range_to_fetch(10), None);
    assert_eq!(p.range_to_fetch(9), None);
    let r = p.range_to_fetch(13).unwrap();
    assert_eq!(r, (11, 13));
    p.logs_delivered(r);
    assert_eq!(p.last_polled_block, 13);
    assert_eq!(p.range_to_fetch(15), Some((14, 15)));
}

#[test]
fn poller_retries_a_failed_range() {
    let p = LogPoller::new(Some(3));
    let first = p.range_to_fetch(5).unwrap();
    // The fetch failed: nothing delivered, the next poll asks again from the same block.
    assert_eq!(p.range_to_fetch(6), Some((first.0, 6)));
}

#[test]
fn poller_without_start_block_starts_at_zero() {
    let p = LogPoller::new(None);
    assert_eq!(p.last_polled_block, 0);
    assert_eq!(p.range_to_fetch(2), Some((1, 2)));
}
