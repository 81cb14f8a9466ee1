//! The chain side: the contract handle, the deposit an issuer sends, the
//! contract's events and how the node's tables follow them, and the log
//! poller for endpoints without subscriptions.
use vstd::prelude::*;
use crate::uint::{Uint256, word_modulus};
use crate::competition::{
    AddressBytes, PendingReady, ReadyCompetition, joined_count, left_count, same_address,
};
use crate::word_map::{WordMap, has_key, inserted, key_index, lemma_inserted, lemma_removed, lookup, removed};

verus! {

/// A handle on the ZinKNet contract: the provider that reaches the chain
/// and the contract's address.
#[derive(Clone)]
pub struct ZinKNet<P> {
    pub provider: P,
    pub contract: AddressBytes,
}

impl<P> ZinKNet<P> {
    /// A handle on the contract at `address`, reached through `provider`.
    pub fn new(provider: P, address: AddressBytes) -> (r: Self)
        ensures
            r.provider == provider,
            r.contract == address,
    {
        ZinKNet { provider, contract: address }
    }
}

/// The value an issuer sends with `openCompetition`: the reward plus the
/// contract's verification fee, added as 256-bit words (which wrap).
pub fn opening_deposit(reward: &Uint256, verification_fee: &Uint256) -> (r: Uint256)
    ensures
        r.value() == (reward.value() + verification_fee.value()) % word_modulus(),
{
    reward.wrapping_add(verification_fee)
}

/// An event of the contract, decoded from a log.
pub enum ChainEvent {
    CompetitionOpened { competition_id: Uint256, issuer: AddressBytes, reward: Uint256 },
    CompetitionJoined { competition_id: Uint256, competitor: AddressBytes },
    CompetitionLeft { competition_id: Uint256, competitor: AddressBytes },
    /// A log of any other event.
    Other,
}

/// No competition waits both for its program and for its chain announcement.
pub open spec fn pending_disjoint<A, B>(
    chain_only: Seq<(Uint256, A)>,
    elf_only: Seq<(Uint256, B)>,
) -> bool {
    forall|k: Uint256| !(#[trigger] has_key(chain_only, k) && #[trigger] has_key(elf_only, k))
}

/// The ready table after the competitor count of competition `id` moved
/// from `n` to `step(n)`; the entry keeps its place and its other fields.
pub open spec fn count_updated<S>(
    before: Seq<(Uint256, ReadyCompetition<S>)>,
    after: Seq<(Uint256, ReadyCompetition<S>)>,
    id: Uint256,
    step: spec_fn(nat) -> nat,
) -> bool {
    if has_key(before, id) {
        let i = key_index(before, id);
        let c = before[i].1;
        &&& after == before.update(
            i,
            (id, ReadyCompetition { competitors: after[i].1.competitors, ..c }),
        )
        &&& after[i].1.competitors.value() == step(c.competitors.value())
    } else {
        after == before
    }
}

/// Changes the competitor count of competition `id` in place, if it is ready.
fn update_count<S>(
    ready: &mut WordMap<ReadyCompetition<S>>,
    id: &Uint256,
    joining: bool,
)
    requires
        old(ready).wf(),
    ensures
        final(ready).wf(),
        count_updated(
            old(ready)@,
            final(ready)@,
            *id,
            if joining { |n: nat| joined_count(n) } else { |n: nat| left_count(n) },
        ),
{
    proof {
        ready.lemma_wf();
    }
    match ready.remove_indexed(id) {
        Some((i, c)) => {
            proof {
                lemma_removed(old(ready)@, *id);
                ready.lemma_wf();
            }
            let ghost c0 = c;
            let competitors = if joining {
                c.competitors.wrapping_increment()
            } else if c.competitors.is_zero() {
                c.competitors
            } else {
                c.competitors.decrement()
            };
            let updated = ReadyCompetition { competitors, ..c };
            ready.insert_at(i, *id, updated);
            proof {
                assert(final(ready)@ =~= old(ready)@.update(
                    i as int,
                    (*id, ReadyCompetition { competitors, ..c0 }),
                ));
            }
        },
        None => {},
    }
}

/// What an announcement of competition `competition_id` does to the waiting
/// tables: a program that already arrived leaves its table, and is handed
/// back paired with the announcement when its signer is the issuer (dropped
/// otherwise); without such a program the announcement waits for it.
pub open spec fn announcement_handled<S>(
    chain_before: Seq<(Uint256, (AddressBytes, Uint256))>,
    chain_after: Seq<(Uint256, (AddressBytes, Uint256))>,
    elf_before: Seq<(Uint256, (Vec<u8>, S, AddressBytes))>,
    elf_after: Seq<(Uint256, (Vec<u8>, S, AddressBytes))>,
    competition_id: Uint256,
    issuer: AddressBytes,
    reward: Uint256,
    r: Option<PendingReady<S>>,
) -> bool {
    match lookup(elf_before, competition_id) {
        Some((elf, stdin, signer)) => {
            &&& elf_after == removed(elf_before, competition_id)
            &&& chain_after == chain_before
            &&& r == if signer@ == issuer@ {
                Some(PendingReady { competition_id, issuer, reward, elf, stdin })
            } else {
                None
            }
        },
        None => {
            &&& elf_after == elf_before
            &&& chain_after == inserted(chain_before, competition_id, (issuer, reward))
            &&& r is None
        },
    }
}

/// How the node's tables follow one contract event.
///
/// An opened competition whose program already arrived is paired with it,
/// provided the program was signed by the competition's issuer, and handed
/// back to be completed with the competitor count; otherwise it waits for its
/// program. A join or leave moves the ready competition's competitor count,
/// and marks or clears the user's active competition when the user is the
/// competitor.
pub fn handle_blockchain_event<S>(
    event: ChainEvent,
    user_addr: &AddressBytes,
    chain_only_competitions: &mut WordMap<(AddressBytes, Uint256)>,
    elf_only_competitions: &mut WordMap<(Vec<u8>, S, AddressBytes)>,
    ready_competitions: &mut WordMap<ReadyCompetition<S>>,
    active_competition_id: &mut Option<Uint256>,
) -> (r: Option<PendingReady<S>>)
    requires
        old(chain_only_competitions).wf(),
        old(elf_only_competitions).wf(),
        old(ready_competitions).wf(),
    ensures
        final(chain_only_competitions).wf(),
        final(elf_only_competitions).wf(),
        final(ready_competitions).wf(),
        match event {
            ChainEvent::CompetitionOpened { competition_id, issuer, reward } => {
                &&& final(ready_competitions)@ == old(ready_competitions)@
                &&& *final(active_competition_id) == *old(active_competition_id)
                &&& announcement_handled(
                    old(chain_only_competitions)@,
                    final(chain_only_competitions)@,
                    old(elf_only_competitions)@,
                    final(elf_only_competitions)@,
                    competition_id,
                    issuer,
                    reward,
                    r,
                )
            },
            ChainEvent::CompetitionJoined { competition_id, competitor } => {
                &&& count_updated(
                    old(ready_competitions)@,
                    final(ready_competitions)@,
                    competition_id,
                    |n: nat| joined_count(n),
                )
                &&& *final(active_competition_id) == if competitor@ == user_addr@ {
                    Some(competition_id)
                } else {
                    *old(active_competition_id)
                }
                &&& final(chain_only_competitions)@ == old(chain_only_competitions)@
                &&& final(elf_only_competitions)@ == old(elf_only_competitions)@
                &&& r is None
            },
            ChainEvent::CompetitionLeft { competition_id, competitor } => {
                &&& count_updated(
                    old(ready_competitions)@,
                    final(ready_competitions)@,
                    competition_id,
                    |n: nat| left_count(n),
                )
                &&& *final(active_competition_id) == if competitor@ == user_addr@ {
                    None
                } else {
                    *old(active_competition_id)
                }
                &&& final(chain_only_competitions)@ == old(chain_only_competitions)@
                &&& final(elf_only_competitions)@ == old(elf_only_competitions)@
                &&& r is None
            },
            ChainEvent::Other => {
                &&& final(chain_only_competitions)@ == old(chain_only_competitions)@
                &&& final(elf_only_competitions)@ == old(elf_only_competitions)@
                &&& final(ready_competitions)@ == old(ready_competitions)@
                &&& *final(active_competition_id) == *old(active_competition_id)
                &&& r is None
            },
        },
        // No competition ever waits on both sides at once.
        pending_disjoint(old(chain_only_competitions)@, old(elf_only_competitions)@)
            ==> pending_disjoint(final(chain_only_competitions)@, final(elf_only_competitions)@),
        // The ready table never shrinks here.
        final(ready_competitions)@.len() == old(ready_competitions)@.len(),
{
    proof {
        chain_only_competitions.lemma_wf();
        elf_only_competitions.lemma_wf();
    }
    match event {
        ChainEvent::CompetitionOpened { competition_id, issuer, reward } => {
            proof {
                lemma_removed(old(elf_only_competitions)@, competition_id);
                lemma_inserted(old(chain_only_competitions)@, competition_id, (issuer, reward));
            }
            match elf_only_competitions.remove(&competition_id) {
                Some((elf, stdin, elf_signer)) => {
                    if !same_address(&elf_signer, &issuer) {
                        return None;
                    }
                    Some(PendingReady { competition_id, issuer, reward, elf, stdin })
                },
                None => {
                    chain_only_competitions.insert(competition_id, (issuer, reward));
                    None
                },
            }
        },
        ChainEvent::CompetitionJoined { competition_id, competitor } => {
            update_count(ready_competitions, &competition_id, true);
            if same_address(user_addr, &competitor) {
                *active_competition_id = Some(competition_id);
            }
            None
        },
        ChainEvent::CompetitionLeft { competition_id, competitor } => {
            update_count(ready_competitions, &competition_id, false);
            if same_address(&competitor, user_addr) {
                *active_competition_id = None;
            }
            None
        },
        ChainEvent::Other => None,
    }
}

/// Makes a paired competition ready, with the competitor count the contract
/// reported for it.
pub fn complete_ready<S>(
    ready_competitions: &mut WordMap<ReadyCompetition<S>>,
    pending: PendingReady<S>,
    competitors: Uint256,
)
    requires
        old(ready_competitions).wf(),
    ensures
        final(ready_competitions).wf(),
        final(ready_competitions)@ == inserted(
            old(ready_competitions)@,
            pending.competition_id,
            pending.with_count(competitors),
        ),
        final(ready_competitions)@.len() >= old(ready_competitions)@.len(),
        // The competition is ready under its id, with every field it was paired
        // with and the reported count.
        lookup(final(ready_competitions)@, pending.competition_id) matches Some(c) && c.competition_id
            == pending.competition_id && c.issuer == pending.issuer && c.reward == pending.reward
            && c.elf == pending.elf && c.stdin == pending.stdin && c.competitors == competitors,
{
    proof {
        ready_competitions.lemma_wf();
    }
    let id = pending.competition_id;
    let ghost p = pending;
    let ready = pending.into_ready(competitors);
    ready_competitions.insert(id, ready);
    proof {
        lemma_inserted(old(ready_competitions)@, p.competition_id, p.with_count(competitors));
    }
}

/// The blocks whose logs a poll fetches, inclusive, when the chain is at
/// `current` and blocks up to `last` are done: the new ones, if any.
pub open spec fn fetch_range(last: u64, current: u64) -> Option<(u64, u64)> {
    if current > last {
        Some(((last + 1) as u64, current))
    } else {
        None
    }
}

/// A poll asks for exactly the blocks that appeared since the last one done:
/// when the chain has moved on (even by a single block) every new block and
/// no old one is fetched; when it has not, nothing is fetched.
pub proof fn lemma_poll_fetches_exactly_the_new_blocks(last: u64, current: u64)
    ensures
        fetch_range(last, current) is Some <==> current > last,
        fetch_range(last, current) matches Some((from, to)) ==> from == last + 1 && to == current,
        current == last + 1 ==> fetch_range(last, current) == Some((current, current)),
{
}

/// Polls the chain for the contract's logs, for endpoints without
/// subscriptions: each poll asks for the logs of the blocks that appeared
/// since the last successful fetch.
pub struct LogPoller {
    pub last_polled_block: u64,
}

impl LogPoller {
    /// A poller that starts after the block the chain reported at start, or
    /// after block 0 when the chain could not be asked.
    pub fn new(start_block: Option<u64>) -> (r: LogPoller)
        ensures
            r.last_polled_block == match start_block {
                Some(b) => b,
                None => 0,
            },
    {
        let last_polled_block = match start_block {
            Some(b) => b,
            None => 0,
        };
        LogPoller { last_polled_block }
    }

    /// The blocks whose logs to fetch now that the chain is at `current_block`.
    pub fn range_to_fetch(&self, current_block: u64) -> (r: Option<(u64, u64)>)
        ensures
            r == fetch_range(self.last_polled_block, current_block),
            current_block > self.last_polled_block ==> r == Some(
                ((self.last_polled_block + 1) as u64, current_block),
            ),
            current_block <= self.last_polled_block ==> r is None,
    {
        if current_block > self.last_polled_block {
            Some((self.last_polled_block + 1, current_block))
        } else {
            None
        }
    }

    /// The logs of a fetched range were all handed on: its blocks are done.
    pub fn logs_delivered(&mut self, range: (u64, u64))
        ensures
            final(self).last_polled_block == range.1,
    {
        self.last_polled_block = range.1;
    }
}

/// One poll: the block number the chain reported, and whether the logs of
/// the range asked for were fetched and handed on.
pub struct Poll {
    pub current_block: u64,
    pub delivered: bool,
}

/// The ranges a poller that starts after block `last` fetches and hands on
/// over a run of polls; a poll whose fetch failed changes nothing.
pub open spec fn delivered_ranges(last: u64, polls: Seq<Poll>) -> Seq<(u64, u64)>
    decreases polls.len(),
{
    if polls.len() == 0 {
        Seq::empty()
    } else {
        match fetch_range(last, polls[0].current_block) {
            Some(range) => if polls[0].delivered {
                seq![range] + delivered_ranges(range.1, polls.drop_first())
            } else {
                delivered_ranges(last, polls.drop_first())
            },
            None => delivered_ranges(last, polls.drop_first()),
        }
    }
}

/// Over any run of polls, the delivered ranges are non-empty, the first
/// starts right after the starting block, and each starts right after the one
/// before it ends: every block's logs are handed on once, in order, none
/// skipped.
pub proof fn lemma_delivered_ranges_contiguous(last: u64, polls: Seq<Poll>)
    ensures
        ({
            let r = delivered_ranges(last, polls);
            &&& forall|k: int| 0 <= k < r.len() ==> #[trigger] r[k].0 <= r[k].1
            &&& r.len() > 0 ==> r[0].0 == last + 1
            &&& forall|k: int| #![trigger r[k]] 0 <= k < r.len() - 1 ==> r[k + 1].0 == r[k].1 + 1
        }),
    decreases polls.len(),
{
    if polls.len() > 0 {
        let rest = polls.drop_first();
        match fetch_range(last, polls[0].current_block) {
            Some(range) => {
                lemma_delivered_ranges_contiguous(range.1, rest);
                if polls[0].delivered {
                    let tail = delivered_ranges(range.1, rest);
                    let r = delivered_ranges(last, polls);
                    assert(r == seq![range] + tail);
                    assert forall|k: int| 0 <= k < r.len() - 1 implies r[k + 1].0 == r[k].1
                        + 1 by {
                        assert(r[k + 1] == tail[k]);
                        if k > 0 {
                            assert(r[k] == tail[k - 1]);
                        } else {
                            assert(r[0] == range);
                            assert(tail.len() > 0);
                            assert(tail[0].0 == range.1 + 1);
                        }
                    }
                    assert forall|k: int| 0 <= k < r.len() implies #[trigger] r[k].0 <= r[k].1 by {
                        if k > 0 {
                            assert(r[k] == tail[k - 1]);
                        }
                    }
                } else {
                    lemma_delivered_ranges_contiguous(last, rest);
                }
            },
            None => {
                lemma_delivered_ranges_contiguous(last, rest);
            },
        }
    }
}

} // verus!
