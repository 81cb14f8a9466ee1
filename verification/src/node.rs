//! The node's interactive state: the tables of competitions, the selected
//! row, the tab, the background tasks under way and the popup, and how keys
//! and task results move it.
use vstd::prelude::*;
use crate::uint::Uint256;
use crate::competition::{AddressBytes, ReadyCompetition};
use crate::word_map::{WordMap, has_key, inserted, lemma_inserted, lemma_removed, lookup, removed};

verus! {

/// A key press, as far as the node distinguishes keys.
#[derive(PartialEq, Eq, Structural, Clone, Copy, Debug)]
pub enum Key {
    Char(char),
    Right,
    Left,
    Up,
    Down,
    Other,
}

/// Work that a key press asks the caller to start in the background.
#[derive(PartialEq, Eq, Structural, Clone, Copy, Debug)]
pub enum KeyAction {
    Nothing,
    /// Join the competition with this id on chain.
    Join(Uint256),
    /// Leave the competition being processed.
    Leave,
}

/// The popup's message.
#[derive(Debug)]
pub enum Popup {
    Empty,
    Joining(Uint256),
    JoinFailed(String),
    Calculating(Uint256),
    CalculationComplete,
    CalculationFailed(String),
    Leaving,
    LeftCompetition,
    LeaveFailed(String),
}

/// Which key hints the footer shows.
#[derive(PartialEq, Eq, Structural, Clone, Copy, Debug)]
pub enum Footer {
    /// A task runs and its popup is shown.
    ClosePopup,
    /// A task runs and its popup is hidden. The hint lists `q` as the other
    /// footers do, though keys other than `c` and `v` are ignored while a
    /// task runs.
    ViewProgress,
    /// A result popup is shown.
    AnyKeyClosesPopup,
    /// Plain tab switching.
    SwitchTab,
    /// The competitions tab.
    Scroll,
    /// The competitions tab with a row selected and no active competition.
    ScrollAndJoin,
    /// The processing tab with a competition that can be left.
    SwitchTabAndLeave,
}

/// The node's application state.
pub struct App<S> {
    pub running: bool,
    pub active_tab: usize,
    pub user_addr: AddressBytes,
    pub listeners: Vec<String>,
    pub block_number: Option<u64>,
    pub connected_peers: usize,
    /// Competitions announced on chain whose program has not arrived: id to (issuer, reward).
    pub chain_only_competitions: WordMap<(AddressBytes, Uint256)>,
    /// Programs that arrived before their announcement: id to (program, input, signer).
    pub elf_only_competitions: WordMap<(Vec<u8>, S, AddressBytes)>,
    /// Competitions ready to be joined, in table order.
    pub ready_competitions: WordMap<ReadyCompetition<S>>,
    /// The selected row of the competitions table.
    pub selected: Option<usize>,
    pub active_competition_id: Option<Uint256>,
    pub processing_competition: Option<ReadyCompetition<S>>,
    pub is_joining: bool,
    pub is_leaving: bool,
    pub is_calculating: bool,
    pub show_popup: bool,
    pub popup: Popup,
    pub joining_competition_id: Option<Uint256>,
}

/// The number of tabs.
pub const TAB_COUNT: usize = 3;

/// The row selected after moving down: the next row, wrapping to the first.
pub open spec fn next_selection(selected: Option<usize>, len: nat) -> Option<usize> {
    if len == 0 {
        selected
    } else {
        match selected {
            Some(i) => if i >= len - 1 {
                Some(0)
            } else {
                Some((i + 1) as usize)
            },
            None => Some(0),
        }
    }
}

/// The row selected after moving up: the previous row, wrapping to the last.
pub open spec fn previous_selection(selected: Option<usize>, len: nat) -> Option<usize> {
    if len == 0 {
        selected
    } else {
        match selected {
            Some(i) => if i == 0 {
                Some((len - 1) as usize)
            } else {
                Some((i - 1) as usize)
            },
            None => Some(0),
        }
    }
}

impl<S> App<S> {
    /// The tables are well formed and the tab is one of the three.
    pub open spec fn wf(&self) -> bool {
        &&& self.chain_only_competitions.wf()
        &&& self.elf_only_competitions.wf()
        &&& self.ready_competitions.wf()
        &&& self.active_tab < TAB_COUNT
    }

    /// A background task (joining, leaving or proving) is under way.
    pub open spec fn busy(&self) -> bool {
        self.is_joining || self.is_leaving || self.is_calculating
    }

    /// At most one background task is under way.
    pub open spec fn tasks_exclusive(&self) -> bool {
        &&& !(self.is_joining && self.is_leaving)
        &&& !(self.is_joining && self.is_calculating)
        &&& !(self.is_leaving && self.is_calculating)
    }

    /// The selected row, if any, is a row of the competitions table.
    pub open spec fn selection_valid(&self) -> bool {
        match self.selected {
            Some(i) => i < self.ready_competitions@.len(),
            None => true,
        }
    }

    /// A fresh state for the user at `user_addr`; `active_on_chain` is the id
    /// of the competition the contract lists as the user's (zero for none).
    pub fn new(user_addr: AddressBytes, active_on_chain: Uint256) -> (r: App<S>)
        ensures
            r.wf(),
            r.running,
            r.active_tab == 0,
            r.user_addr == user_addr,
            r.listeners@.len() == 0,
            r.block_number is None,
            r.connected_peers == 0,
            r.chain_only_competitions@.len() == 0,
            r.elf_only_competitions@.len() == 0,
            r.ready_competitions@.len() == 0,
            r.selected is None,
            r.active_competition_id == if active_on_chain.value() == 0 {
                None
            } else {
                Some(active_on_chain)
            },
            r.processing_competition is None,
            !r.is_joining && !r.is_leaving && !r.is_calculating && !r.show_popup,
            r.popup is Empty,
            r.joining_competition_id is None,
            r.selection_valid(),
            r.tasks_exclusive(),
    {
        App {
            running: true,
            active_tab: 0,
            user_addr,
            listeners: Vec::new(),
            block_number: None,
            connected_peers: 0,
            chain_only_competitions: WordMap::new(),
            elf_only_competitions: WordMap::new(),
            ready_competitions: WordMap::new(),
            selected: None,
            active_competition_id: if active_on_chain.is_zero() {
                None
            } else {
                Some(active_on_chain)
            },
            processing_competition: None,
            is_joining: false,
            is_leaving: false,
            is_calculating: false,
            show_popup: false,
            popup: Popup::Empty,
            joining_competition_id: None,
        }
    }

    /// Moves the selection one row down, wrapping to the first row.
    pub fn next_competition(&mut self)
        ensures
            *final(self) == (App {
                selected: next_selection(old(self).selected, old(self).ready_competitions@.len()),
                ..*old(self)
            }),
    {
        let len = self.ready_competitions.len();
        if len == 0 {
            return;
        }
        let i = match self.selected {
            Some(i) => if i >= len - 1 {
                0
            } else {
                i + 1
            },
            None => 0,
        };
        self.selected = Some(i);
    }

    /// Moves the selection one row up, wrapping to the last row.
    pub fn previous_competition(&mut self)
        ensures
            *final(self) == (App {
                selected: previous_selection(
                    old(self).selected,
                    old(self).ready_competitions@.len(),
                ),
                ..*old(self)
            }),
    {
        let len = self.ready_competitions.len();
        if len == 0 {
            return;
        }
        let i = match self.selected {
            Some(i) => if i == 0 {
                len - 1
            } else {
                i - 1
            },
            None => 0,
        };
        self.selected = Some(i);
    }
}

/// What a key press does to the state, and what it asks to start.
///
/// While a task runs, `c` hides its popup and `v` shows it again. Otherwise a
/// shown popup is dismissed by any key. Otherwise `q` quits, the arrows switch
/// tabs and move the selection on the competitions tab, `j` joins the
/// selected competition when the user has no active one, and `l` leaves the
/// competition being processed.
pub open spec fn key_step<S>(app: App<S>, key: Key) -> (App<S>, KeyAction) {
    if app.busy() {
        if key == Key::Char('c') && app.show_popup {
            (App { show_popup: false, ..app }, KeyAction::Nothing)
        } else if key == Key::Char('v') && !app.show_popup {
            (App { show_popup: true, ..app }, KeyAction::Nothing)
        } else {
            (app, KeyAction::Nothing)
        }
    } else if app.show_popup {
        (App { show_popup: false, ..app }, KeyAction::Nothing)
    } else if key == Key::Char('q') {
        (App { running: false, ..app }, KeyAction::Nothing)
    } else if key == Key::Right {
        (App { active_tab: ((app.active_tab + 1) % 3) as usize, ..app }, KeyAction::Nothing)
    } else if key == Key::Left {
        (App { active_tab: ((app.active_tab + 2) % 3) as usize, ..app }, KeyAction::Nothing)
    } else if key == Key::Down && app.active_tab == 0 {
        (
            App {
                selected: next_selection(app.selected, app.ready_competitions@.len()),
                ..app
            },
            KeyAction::Nothing,
        )
    } else if key == Key::Up && app.active_tab == 0 {
        (
            App {
                selected: previous_selection(app.selected, app.ready_competitions@.len()),
                ..app
            },
            KeyAction::Nothing,
        )
    } else if key == Key::Char('j') && app.active_tab == 0 && app.active_competition_id is None
        && app.selected is Some && app.selected->0 < app.ready_competitions@.len() {
        let id = app.ready_competitions@[app.selected->0 as int].1.competition_id;
        (
            App {
                is_joining: true,
                show_popup: true,
                joining_competition_id: Some(id),
                popup: Popup::Joining(id),
                ..app
            },
            KeyAction::Join(id),
        )
    } else if key == Key::Char('l') && app.active_tab == 1 && app.processing_competition is Some
        && !app.is_calculating {
        (
            App { is_leaving: true, show_popup: true, popup: Popup::Leaving, ..app },
            KeyAction::Leave,
        )
    } else {
        (app, KeyAction::Nothing)
    }
}

/// Which key hints the footer shows for a state.
pub open spec fn footer_for<S>(app: App<S>) -> Footer {
    if app.busy() {
        if app.show_popup {
            Footer::ClosePopup
        } else {
            Footer::ViewProgress
        }
    } else if app.show_popup {
        Footer::AnyKeyClosesPopup
    } else if app.active_tab == 0 {
        if app.active_competition_id is None && app.selected is Some {
            Footer::ScrollAndJoin
        } else {
            Footer::Scroll
        }
    } else if app.active_tab == 1 && app.processing_competition is Some && !app.is_calculating {
        Footer::SwitchTabAndLeave
    } else {
        Footer::SwitchTab
    }
}

/// The competition whose proof a join result starts: the one being joined,
/// when the join succeeded and it is still in the table.
pub open spec fn join_result_proof_for<S>(app: App<S>, result: Result<(), String>) -> Option<Uint256> {
    match (result, app.joining_competition_id) {
        (Ok(_), Some(id)) => if has_key(app.ready_competitions@, id) {
            Some(id)
        } else {
            None
        },
        _ => None,
    }
}

/// What a join result does. On success the competition being joined moves
/// from the table to processing (when still there) and its proof starts, and
/// the selection is cleared; on failure the error is shown.
pub open spec fn join_result_transition<S>(
    before: App<S>,
    result: Result<(), String>,
    after: App<S>,
) -> bool {
    match (result, before.joining_competition_id) {
        (Ok(_), Some(id)) if has_key(before.ready_competitions@, id) => {
            &&& after.ready_competitions@ == removed(before.ready_competitions@, id)
            &&& after == (App {
                ready_competitions: after.ready_competitions,
                processing_competition: lookup(before.ready_competitions@, id),
                is_joining: false,
                is_calculating: true,
                popup: Popup::Calculating(id),
                show_popup: true,
                selected: None,
                joining_competition_id: None,
                ..before
            })
        },
        (Ok(_), _) => after == (App {
            is_joining: false,
            selected: None,
            joining_competition_id: None,
            ..before
        }),
        (Err(e), _) => after == (App {
            is_joining: false,
            popup: Popup::JoinFailed(e),
            show_popup: true,
            joining_competition_id: None,
            ..before
        }),
    }
}

/// The state after the proof computation answered.
pub open spec fn calculation_result_state<S>(before: App<S>, result: Result<(), String>) -> App<S> {
    App {
        is_calculating: false,
        popup: match result {
            Ok(_) => Popup::CalculationComplete,
            Err(e) => Popup::CalculationFailed(e),
        },
        show_popup: true,
        ..before
    }
}

/// What a leave result does. On success the competition being processed
/// goes back to the table; on failure the error is shown.
pub open spec fn leave_result_transition<S>(
    before: App<S>,
    result: Result<(), String>,
    after: App<S>,
) -> bool {
    match result {
        Ok(_) => {
            &&& after.ready_competitions@ == match before.processing_competition {
                Some(c) => inserted(before.ready_competitions@, c.competition_id, c),
                None => before.ready_competitions@,
            }
            &&& after == (App {
                ready_competitions: after.ready_competitions,
                processing_competition: None,
                is_leaving: false,
                popup: Popup::LeftCompetition,
                show_popup: true,
                ..before
            })
        },
        Err(e) => after == (App {
            is_leaving: false,
            popup: Popup::LeaveFailed(e),
            show_popup: true,
            ..before
        }),
    }
}

impl<S> App<S> {
    /// Handles a key press; the caller starts what the returned action asks.
    pub fn handle_key(&mut self, key: Key) -> (action: KeyAction)
        requires
            old(self).wf(),
        ensures
            (*final(self), action) == key_step(*old(self), key),
            // With no task running, a shown popup takes the key: it only closes.
            !old(self).busy() && old(self).show_popup ==> *final(self) == (App {
                show_popup: false,
                ..*old(self)
            }) && action == KeyAction::Nothing,
            // While a task runs, a key at most hides or shows the popup.
            old(self).busy() ==> *final(self) == (App {
                show_popup: final(self).show_popup,
                ..*old(self)
            }) && action == KeyAction::Nothing,
            final(self).wf(),
            old(self).selection_valid() ==> final(self).selection_valid(),
            old(self).tasks_exclusive() ==> final(self).tasks_exclusive(),
    {
        if self.is_joining || self.is_leaving || self.is_calculating {
            if key == Key::Char('c') && self.show_popup {
                self.show_popup = false;
            } else if key == Key::Char('v') && !self.show_popup {
                self.show_popup = true;
            }
            return KeyAction::Nothing;
        }
        if self.show_popup {
            self.show_popup = false;
            return KeyAction::Nothing;
        }
        match key {
            Key::Char(c) => {
                if c == 'q' {
                    self.running = false;
                } else if c == 'j' {
                    if self.active_tab == 0 && self.active_competition_id.is_none()
                        && self.selected.is_some() {
                        if let Some(selected_index) = self.selected {
                            if let Some(competition) = self.ready_competitions.nth_value(
                                selected_index,
                            ) {
                                let id = competition.competition_id;
                                self.is_joining = true;
                                self.show_popup = true;
                                self.joining_competition_id = Some(id);
                                self.popup = Popup::Joining(id);
                                return KeyAction::Join(id);
                            }
                        }
                    }
                } else if c == 'l' {
                    if self.active_tab == 1 && self.processing_competition.is_some()
                        && !self.is_calculating {
                        self.is_leaving = true;
                        self.show_popup = true;
                        self.popup = Popup::Leaving;
                        return KeyAction::Leave;
                    }
                }
            },
            Key::Right => {
                self.active_tab = (self.active_tab + 1) % TAB_COUNT;
            },
            Key::Left => {
                self.active_tab = (self.active_tab + TAB_COUNT - 1) % TAB_COUNT;
            },
            Key::Down => {
                if self.active_tab == 0 {
                    self.next_competition();
                }
            },
            Key::Up => {
                if self.active_tab == 0 {
                    self.previous_competition();
                }
            },
            Key::Other => {},
        }
        KeyAction::Nothing
    }

    /// Takes in the outcome of joining a competition on chain. On success the
    /// competition moves from the table to processing and its proof is to be
    /// started: the id to prove is returned.
    pub fn on_join_result(&mut self, result: Result<(), String>) -> (proof_for: Option<Uint256>)
        requires
            old(self).wf(),
        ensures
            final(self).wf(),
            join_result_transition(*old(self), result, *final(self)),
            proof_for == join_result_proof_for(*old(self), result),
            old(self).selection_valid() ==> final(self).selection_valid(),
            old(self).is_joining && old(self).tasks_exclusive() ==> final(self).tasks_exclusive(),
    {
        proof {
            self.ready_competitions.lemma_wf();
        }
        self.is_joining = false;
        let mut proof_for = None;
        match result {
            Ok(_) => {
                if let Some(joined_id) = self.joining_competition_id {
                    proof {
                        lemma_removed(self.ready_competitions@, joined_id);
                    }
                    if self.ready_competitions.contains_key(&joined_id) {
                        self.processing_competition = self.ready_competitions.remove(&joined_id);
                        self.is_calculating = true;
                        self.popup = Popup::Calculating(joined_id);
                        self.show_popup = true;
                        proof_for = Some(joined_id);
                    }
                }
                self.selected = None;
            },
            Err(e) => {
                self.popup = Popup::JoinFailed(e);
                self.show_popup = true;
            },
        }
        self.joining_competition_id = None;
        proof_for
    }

    /// Takes in the outcome of the proof computation.
    pub fn on_calculation_result(&mut self, result: Result<(), String>)
        requires
            old(self).wf(),
        ensures
            *final(self) == calculation_result_state(*old(self), result),
            // Only the task flag and the popup change; the competition being
            // processed and the tables stay, whatever the result.
            *final(self) == (App {
                is_calculating: false,
                popup: final(self).popup,
                show_popup: true,
                ..*old(self)
            }),
            final(self).wf(),
            old(self).selection_valid() ==> final(self).selection_valid(),
            old(self).tasks_exclusive() ==> final(self).tasks_exclusive(),
    {
        self.is_calculating = false;
        match result {
            Ok(_) => {
                self.popup = Popup::CalculationComplete;
            },
            Err(e) => {
                self.popup = Popup::CalculationFailed(e);
            },
        }
        self.show_popup = true;
    }

    /// Takes in the outcome of leaving the competition on chain. On success
    /// the competition being processed goes back to the table.
    pub fn on_leave_result(&mut self, result: Result<(), String>)
        requires
            old(self).wf(),
        ensures
            final(self).wf(),
            leave_result_transition(*old(self), result, *final(self)),
            old(self).selection_valid() ==> final(self).selection_valid(),
            old(self).tasks_exclusive() ==> final(self).tasks_exclusive(),
    {
        proof {
            self.ready_competitions.lemma_wf();
        }
        self.is_leaving = false;
        match result {
            Ok(_) => {
                self.popup = Popup::LeftCompetition;
                if let Some(leaving) = self.processing_competition.take() {
                    proof {
                        lemma_inserted(self.ready_competitions@, leaving.competition_id, leaving);
                    }
                    let id = leaving.competition_id;
                    self.ready_competitions.insert(id, leaving);
                }
            },
            Err(e) => {
                self.popup = Popup::LeaveFailed(e);
            },
        }
        self.show_popup = true;
    }

    /// Records the latest block number.
    pub fn on_block_number(&mut self, block_number: u64)
        ensures
            *final(self) == (App { block_number: Some(block_number), ..*old(self) }),
    {
        self.block_number = Some(block_number);
    }

    /// Records a new address the node listens on.
    pub fn on_new_listen_address(&mut self, address: String)
        ensures
            final(self).listeners@ == old(self).listeners@.push(address),
            *final(self) == (App { listeners: final(self).listeners, ..*old(self) }),
    {
        self.listeners.push(address);
    }

    /// Records how many gossip peers are known.
    pub fn set_connected_peers(&mut self, connected_peers: usize)
        ensures
            *final(self) == (App { connected_peers, ..*old(self) }),
    {
        self.connected_peers = connected_peers;
    }

    /// Which key hints the footer shows.
    pub fn footer(&self) -> (r: Footer)
        ensures
            r == footer_for(*self),
            // The join hint is offered only with a row selected.
            r == Footer::ScrollAndJoin ==> self.selected is Some,
            // With the selection on a row, the join hint is offered exactly when
            // `j` starts a join.
            self.selection_valid() ==> (r == Footer::ScrollAndJoin <==> key_step(
                *self,
                Key::Char('j'),
            ).1 is Join),
    {
        if self.is_joining || self.is_leaving || self.is_calculating {
            if self.show_popup {
                Footer::ClosePopup
            } else {
                Footer::ViewProgress
            }
        } else if self.show_popup {
            Footer::AnyKeyClosesPopup
        } else if self.active_tab == 0 {
            if self.active_competition_id.is_none() && self.selected.is_some() {
                Footer::ScrollAndJoin
            } else {
                Footer::Scroll
            }
        } else if self.active_tab == 1 && self.processing_competition.is_some()
            && !self.is_calculating {
            Footer::SwitchTabAndLeave
        } else {
            Footer::SwitchTab
        }
    }
}

/// One thing that can happen to the node's state in its main loop: a key
/// press, the result of a background task, or anything else (a contract
/// event, a gossip message, a block number, a new listen address or peer
/// count), none of which touches the task flags.
pub enum NodeEvent {
    Key(Key),
    JoinResult(Result<(), String>),
    CalculationResult(Result<(), String>),
    LeaveResult(Result<(), String>),
    Other,
}

/// One step of the main loop from `before` to `after`, with the numbers of
/// join, leave and proof tasks started and not yet answered, before and after.
pub open spec fn node_step<S>(
    before: App<S>,
    event: NodeEvent,
    after: App<S>,
    flight_before: (nat, nat, nat),
    flight_after: (nat, nat, nat),
) -> bool {
    match event {
        NodeEvent::Key(key) => {
            &&& after == key_step(before, key).0
            &&& flight_after == match key_step(before, key).1 {
                KeyAction::Join(_) => (flight_before.0 + 1, flight_before.1, flight_before.2),
                KeyAction::Leave => (flight_before.0, flight_before.1 + 1, flight_before.2),
                KeyAction::Nothing => flight_before,
            }
        },
        NodeEvent::JoinResult(r) => {
            &&& join_result_transition(before, r, after)
            &&& flight_after == (
                (flight_before.0 - 1) as nat,
                flight_before.1,
                flight_before.2 + if join_result_proof_for(before, r) is Some {
                    1nat
                } else {
                    0nat
                },
            )
        },
        NodeEvent::CalculationResult(r) => {
            &&& after == calculation_result_state(before, r)
            &&& flight_after == (flight_before.0, flight_before.1, (flight_before.2 - 1) as nat)
        },
        NodeEvent::LeaveResult(r) => {
            &&& leave_result_transition(before, r, after)
            &&& flight_after == (flight_before.0, (flight_before.1 - 1) as nat, flight_before.2)
        },
        NodeEvent::Other => {
            &&& after.is_joining == before.is_joining
            &&& after.is_leaving == before.is_leaving
            &&& after.is_calculating == before.is_calculating
            &&& flight_after == flight_before
        },
    }
}

/// A task's result comes back only while that task is under way.
pub open spec fn result_expected(event: NodeEvent, flight: (nat, nat, nat)) -> bool {
    match event {
        NodeEvent::JoinResult(_) => flight.0 > 0,
        NodeEvent::LeaveResult(_) => flight.1 > 0,
        NodeEvent::CalculationResult(_) => flight.2 > 0,
        _ => true,
    }
}

/// The flags tell exactly which task is under way, and at most one is.
pub open spec fn flight_matches_flags<S>(app: App<S>, flight: (nat, nat, nat)) -> bool {
    &&& flight.0 == if app.is_joining { 1nat } else { 0nat }
    &&& flight.1 == if app.is_leaving { 1nat } else { 0nat }
    &&& flight.2 == if app.is_calculating { 1nat } else { 0nat }
    &&& app.tasks_exclusive()
}

/// One step keeps the flags in line with the tasks under way, and starts a
/// task only from a state where none is under way.
pub proof fn lemma_step_keeps_one_task<S>(
    before: App<S>,
    event: NodeEvent,
    after: App<S>,
    flight_before: (nat, nat, nat),
    flight_after: (nat, nat, nat),
)
    requires
        flight_matches_flags(before, flight_before),
        result_expected(event, flight_before),
        node_step(before, event, after, flight_before, flight_after),
    ensures
        flight_matches_flags(after, flight_after),
        flight_after.0 + flight_after.1 > flight_before.0 + flight_before.1 ==> !before.busy(),
{
}

/// Over any run of the main loop that starts with no task under way, and in
/// which a task's result comes back only while the task is under way: a join
/// or leave starts only when no task runs, its flag stays set until its
/// result arrives, and at any moment at most one join, leave or proof task is
/// under way.
pub proof fn lemma_one_task_in_flight<S>(
    states: Seq<App<S>>,
    events: Seq<NodeEvent>,
    flights: Seq<(nat, nat, nat)>,
)
    requires
        states.len() == events.len() + 1,
        flights.len() == states.len(),
        !states[0].busy(),
        flights[0] == (0nat, 0nat, 0nat),
        forall|i: int|
            0 <= i < events.len() ==> result_expected(#[trigger] events[i], flights[i])
                && node_step(states[i], events[i], states[i + 1], flights[i], flights[i + 1]),
    ensures
        forall|i: int|
            0 <= i < states.len() ==> flight_matches_flags(#[trigger] states[i], flights[i])
                && flights[i].0 + flights[i].1 + flights[i].2 <= 1,
        forall|i: int|
            0 <= i < events.len() && #[trigger] flights[i + 1].0 + flights[i + 1].1 > flights[i].0
                + flights[i].1 ==> !states[i].busy(),
{
    lemma_one_task_in_flight_upto(states, events, flights, events.len() as int);
}

proof fn lemma_one_task_in_flight_upto<S>(
    states: Seq<App<S>>,
    events: Seq<NodeEvent>,
    flights: Seq<(nat, nat, nat)>,
    k: int,
)
    requires
        0 <= k <= events.len(),
        states.len() == events.len() + 1,
        flights.len() == states.len(),
        !states[0].busy(),
        flights[0] == (0nat, 0nat, 0nat),
        forall|i: int|
            0 <= i < events.len() ==> result_expected(#[trigger] events[i], flights[i])
                && node_step(states[i], events[i], states[i + 1], flights[i], flights[i + 1]),
    ensures
        forall|i: int|
            0 <= i <= k ==> flight_matches_flags(#[trigger] states[i], flights[i])
                && flights[i].0 + flights[i].1 + flights[i].2 <= 1,
        forall|i: int|
            0 <= i < k && #[trigger] flights[i + 1].0 + flights[i + 1].1 > flights[i].0
                + flights[i].1 ==> !states[i].busy(),
    decreases k,
{
    if k > 0 {
        lemma_one_task_in_flight_upto(states, events, flights, k - 1);
        let j = k - 1;
        assert(flight_matches_flags(states[j], flights[j]));
        assert(result_expected(events[j], flights[j]));
        lemma_step_keeps_one_task(states[j], events[j], states[j + 1], flights[j], flights[j + 1]);
    }
}

/// With no task running and a popup shown, every key only dismisses the
/// popup: nothing else changes and nothing is started.
pub proof fn lemma_shown_popup_takes_any_key<S>(app: App<S>, key: Key)
    requires
        !app.busy(),
        app.show_popup,
    ensures
        key_step(app, key) == (App { show_popup: false, ..app }, KeyAction::Nothing),
{
}

/// A proof result, success or failure, changes only the proving flag and the
/// popup: the competition being processed and every table stay.
pub proof fn lemma_proof_result_keeps_competition<S>(app: App<S>, result: Result<(), String>)
    ensures
        calculation_result_state(app, result).processing_competition == app.processing_competition,
        calculation_result_state(app, result).ready_competitions == app.ready_competitions,
        calculation_result_state(app, result).chain_only_competitions == app.chain_only_competitions,
        calculation_result_state(app, result).elf_only_competitions == app.elf_only_competitions,
        calculation_result_state(app, result) == (App {
            is_calculating: false,
            popup: calculation_result_state(app, result).popup,
            show_popup: true,
            ..app
        }),
{
}

/// The footer offers the join hint exactly when `j` would start a join (for a
/// selection on a row), and never without a selected row.
pub proof fn lemma_join_hint_iff_join<S>(app: App<S>)
    ensures
        footer_for(app) == Footer::ScrollAndJoin ==> app.selected is Some,
        app.selection_valid() ==> (footer_for(app) == Footer::ScrollAndJoin <==> key_step(
            app,
            Key::Char('j'),
        ).1 is Join),
{
}

/// Moving the selection: down goes to the next row and wraps from the last to
/// the first; up goes to the previous row and wraps from the first to the
/// last; with no row selected either move selects the first row; on an empty
/// table nothing moves.
pub proof fn lemma_selection_moves(selected: Option<usize>, len: nat)
    requires
        len <= usize::MAX,
        selected matches Some(i) ==> i < len,
    ensures
        len == 0 ==> next_selection(selected, len) == selected && previous_selection(selected, len)
            == selected,
        len > 0 && selected is None ==> next_selection(selected, len) == Some(0usize)
            && previous_selection(selected, len) == Some(0usize),
        selected is Some && selected->0 + 1 < len ==> next_selection(selected, len) == Some(
            (selected->0 + 1) as usize,
        ),
        selected is Some && selected->0 + 1 == len ==> next_selection(selected, len) == Some(0usize),
        selected is Some && 0 < selected->0 < len ==> previous_selection(selected, len) == Some(
            (selected->0 - 1) as usize,
        ),
        len > 0 && selected == Some(0usize) ==> previous_selection(selected, len) == Some(
            (len - 1) as usize,
        ),
{
}

/// With no task running and no popup shown: `q` stops the node and changes
/// nothing else; the right arrow moves one tab right and the left arrow one
/// tab left (wrapping over the three tabs); `j` on the competitions tab, with
/// no active competition and a row selected, joins that row's competition;
/// `l` on the processing tab leaves the competition being processed.
pub proof fn lemma_key_effects<S>(app: App<S>)
    requires
        app.wf(),
        !app.busy(),
        !app.show_popup,
    ensures
        key_step(app, Key::Char('q')) == (App { running: false, ..app }, KeyAction::Nothing),
        key_step(app, Key::Right).0.active_tab == (app.active_tab + 1) % 3,
        key_step(app, Key::Left).0.active_tab == (app.active_tab + 2) % 3,
        key_step(app, Key::Right).1 == KeyAction::Nothing,
        key_step(app, Key::Left).1 == KeyAction::Nothing,
        app.active_tab == 0 && app.active_competition_id is None && app.selected is Some
            && app.selected->0 < app.ready_competitions@.len() ==> key_step(app, Key::Char('j')).1
            == KeyAction::Join(app.ready_competitions@[app.selected->0 as int].1.competition_id)
            && key_step(app, Key::Char('j')).0.is_joining,
        app.active_tab == 1 && app.processing_competition is Some ==> key_step(
            app,
            Key::Char('l'),
        ).1 == KeyAction::Leave && key_step(app, Key::Char('l')).0.is_leaving,
{
}

/// The footer offers the leave hint exactly when `l` would leave.
pub proof fn lemma_leave_hint_iff_leave<S>(app: App<S>)
    ensures
        footer_for(app) == Footer::SwitchTabAndLeave <==> key_step(app, Key::Char('l')).1
            == KeyAction::Leave,
{
}

/// A failed join changes no table and not the competition being processed. A
/// successful join of a competition still in the table moves exactly that
/// competition from the table to processing, keeps the other competitions,
/// and starts its proof.
pub proof fn lemma_join_result_effects<S>(
    before: App<S>,
    result: Result<(), String>,
    after: App<S>,
)
    requires
        before.wf(),
        join_result_transition(before, result, after),
    ensures
        !after.is_joining,
        after.joining_competition_id is None,
        result is Err ==> after.ready_competitions == before.ready_competitions
            && after.processing_competition == before.processing_competition,
        result is Ok && before.joining_competition_id is Some && has_key(
            before.ready_competitions@,
            before.joining_competition_id->0,
        ) ==> {
            let id = before.joining_competition_id->0;
            &&& after.processing_competition == lookup(before.ready_competitions@, id)
            &&& after.processing_competition is Some
            &&& !has_key(after.ready_competitions@, id)
            &&& forall|k: Uint256|
                k != id ==> (#[trigger] lookup(after.ready_competitions@, k) == lookup(
                    before.ready_competitions@,
                    k,
                ))
            &&& after.is_calculating
            &&& join_result_proof_for(before, result) == Some(id)
        },
{
    before.ready_competitions.lemma_wf();
    if let Some(id) = before.joining_competition_id {
        lemma_removed(before.ready_competitions@, id);
    }
}

/// A successful leave puts the competition being processed back in the
/// table under its id and leaves nothing in processing; a failed one changes
/// neither the table nor the competition being processed.
pub proof fn lemma_leave_result_effects<S>(
    before: App<S>,
    result: Result<(), String>,
    after: App<S>,
)
    requires
        before.wf(),
        leave_result_transition(before, result, after),
    ensures
        !after.is_leaving,
        result is Ok ==> after.processing_competition is None,
        result is Ok && before.processing_competition is Some ==> lookup(
            after.ready_competitions@,
            before.processing_competition->0.competition_id,
        ) == before.processing_competition,
        result is Err ==> after.ready_competitions == before.ready_competitions
            && after.processing_competition == before.processing_competition,
{
    before.ready_competitions.lemma_wf();
    if let Some(c) = before.processing_competition {
        lemma_inserted(before.ready_competitions@, c.competition_id, c);
    }
}

/// Moving the selection down and then up comes back to the same row.
pub proof fn lemma_previous_undoes_next(i: usize, len: nat)
    requires
        i < len,
        len <= usize::MAX,
    ensures
        previous_selection(next_selection(Some(i), len), len) == Some(i),
{
}

/// Moving the selection up and then down comes back to the same row.
pub proof fn lemma_next_undoes_previous(i: usize, len: nat)
    requires
        i < len,
        len <= usize::MAX,
    ensures
        next_selection(previous_selection(Some(i), len), len) == Some(i),
{
}

/// On a non-empty table, moving a selection that is on a row (or absent)
/// always lands on a row.
pub proof fn lemma_moves_land_on_a_row(selected: Option<usize>, len: nat)
    requires
        0 < len <= usize::MAX,
        selected matches Some(i) ==> i < len,
    ensures
        next_selection(selected, len) matches Some(i) && i < len,
        previous_selection(selected, len) matches Some(i) && i < len,
{
}

/// Switching one tab right and then one tab left comes back to the same tab
/// and state, when no task runs and no popup is shown.
pub proof fn lemma_left_undoes_right<S>(app: App<S>)
    requires
        app.wf(),
        !app.busy(),
        !app.show_popup,
    ensures
        key_step(key_step(app, Key::Right).0, Key::Left).0 == app,
        key_step(key_step(app, Key::Left).0, Key::Right).0 == app,
{
}

} // verus!
