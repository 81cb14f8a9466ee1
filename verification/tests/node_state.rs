use zinknet::competition::ReadyCompetition;
use zinknet::node::{App, Footer, Key, KeyAction, Popup};
use zinknet::uint::Uint256;

type Stdin = Vec<u32>;

fn word(n: u64) -> Uint256 {
    Uint256::from_u64(n)
}

fn competition(id: u64) -> ReadyCompetition<Stdin> {
    ReadyCompetition {
        competition_id: word(id),
        issuer: [1; 20],
        reward: word(10),
        competitors: word(0),
        elf: vec![id as u8],
        stdin: vec![id as u32],
    }
}

fn app_with(ids: &[u64]) -> App<Stdin> {
    let mut app: App<Stdin> = App::new([9; 20], Uint256::zero());
    for id in ids {
        app.ready_competitions.insert(word(*id), competition(*id));
    }
    app
}

#[test]
fn new_app_reads_active_competition() {
    let app: App<Stdin> = App::new([9; 20], word(0));
    assert_eq!(app.active_competition_id, None);
    assert!(app.running);
    let app: App<Stdin> = App::new([9; 20], word(4));
    assert_eq!(app.active_competition_id, Some(word(4)));
}

#[test]
fn next_and_previous_wrap_around() {
    let mut app = app_with(&[1, 2, 3]);
    app.next_competition();
    assert_eq!(app.selected, Some(0));
    app.next_competition();
    app.next_competition();
    assert_eq!(app.selected, Some(2));
    app.next_competition();
    assert_eq!(app.selected, Some(0));
    app.previous_competition();
    assert_eq!(app.selected, Some(2));
    app.previous_competition();
    assert_eq!(app.selected, Some(1));
}

#[test]
fn next_and_previous_on_empty_table_do_nothing() {
    let mut app = app_with(&[]);
    app.next_competition();
    assert_eq!(app.selected, None);
    app.previous_competition();
    assert_eq!(app.selected, None);
}

#[test]
fn previous_then_next_restores_selection() {
    let mut app = app_with(&[1, 2, 3, 4]);
    app.selected = Some(2);
    app.previous_competition();
    app.next_competition();
    assert_eq!(app.selected, Some(2));
}

#[test]
fn tabs_cycle_both_ways() {
    let mut app = app_with(&[]);
    assert_eq!(app.handle_key(Key::Left), KeyAction::Nothing);
    assert_eq!(app.active_tab, 2);
    app.handle_key(Key::Right);
    assert_eq!(app.active_tab, 0);
    app.handle_key(Key::Right);
    app.handle_key(Key::Right);
    assert_eq!(app.active_tab, 2);
    app.handle_key(Key::Right);
    assert_eq!(app.active_tab, 0);
}

#[test]
fn arrows_move_selection_only_on_competitions_tab() {
    let mut app = app_with(&[1, 2]);
    app.handle_key(Key::Down);
    assert_eq!(app.selected, Some(0));
    app.handle_key(Key::Right);
    app.handle_key(Key::Down);
    assert_eq!(app.selected, Some(0));
    app.handle_key(Key::Left);
    app.handle_key(Key::Up);
    assert_eq!(app.selected, Some(1));
}

#[test]
fn q_quits() {
    let mut app = app_with(&[]);
    app.handle_key(Key::Char('q'));
    assert!(!app.running);
}

#[test]
fn join_flow_moves_competition_to_processing() {
    let mut app = app_with(&[5, 6]);
    // Nothing selected: j does nothing.
    assert_eq!(app.handle_key(Key::Char('j')), KeyAction::Nothing);
    app.handle_key(Key::Down);
    app.handle_key(Key::Down);
    assert_eq!(app.footer(), Footer::ScrollAndJoin);
    assert_eq!(app.handle_key(Key::Char('j')), KeyAction::Join(word(6)));
    assert!(app.is_joining && app.show_popup);
    assert_eq!(app.joining_competition_id, Some(word(6)));
    assert!(matches!(app.popup, Popup::Joining(id) if id == word(6)));
    assert_eq!(app.footer(), Footer::ClosePopup);
    // While joining, c hides the popup and v shows it; other keys do nothing.
    app.handle_key(Key::Char('c'));
    assert!(!app.show_popup);
    assert_eq!(app.footer(), Footer::ViewProgress);
    app.handle_key(Key::Char('q'));
    assert!(app.running);
    app.handle_key(Key::Char('v'));
    assert!(app.show_popup);

    let proof_for = app.on_join_result(Ok(()));
    assert_eq!(proof_for, Some(word(6)));
    assert!(!app.is_joining && app.is_calculating);
    assert_eq!(app.selected, None);
    assert_eq!(app.joining_competition_id, None);
    assert_eq!(app.ready_competitions.len(), 1);
    assert_eq!(app.processing_competition.as_ref().unwrap().competition_id, word(6));
    assert!(matches!(app.popup, Popup::Calculating(id) if id == word(6)));

    app.on_calculation_result(Ok(()));
    assert!(!app.is_calculating && app.show_popup);
    assert!(matches!(app.popup, Popup::CalculationComplete));
    assert_eq!(app.footer(), Footer::AnyKeyClosesPopup);
    // Any key closes a result popup.
    app.handle_key(Key::Other);
    assert!(!app.show_popup);
}

#[test]
fn join_is_refused_with_an_active_competition() {
    let mut app = app_with(&[5]);
    app.active_competition_id = Some(word(1));
    app.handle_key(Key::Down);
    assert_eq!(app.footer(), Footer::Scroll);
    assert_eq!(app.handle_key(Key::Char('j')), KeyAction::Nothing);
    assert!(!app.is_joining);
}

#[test]
fn failed_join_reports_error_and_keeps_table() {
    let mut app = app_with(&[5]);
    app.handle_key(Key::Down);
    app.handle_key(Key::Char('j'));
    let proof_for = app.on_join_result(Err("reverted".to_string()));
    assert_eq!(proof_for, None);
    assert!(!app.is_joining);
    assert_eq!(app.ready_competitions.len(), 1);
    assert_eq!(app.selected, Some(0));
    assert!(matches!(&app.popup, Popup::JoinFailed(e) if e == "reverted"));
}

#[test]
fn failed_proof_reports_error() {
    let mut app = app_with(&[]);
    app.is_calculating = true;
    app.on_calculation_result(Err("no prover".to_string()));
    assert!(!app.is_calculating);
    assert!(matches!(&app.popup, Popup::CalculationFailed(e) if e == "no prover"));
}

#[test]
fn leave_flow_returns_competition_to_table() {
    let mut app = app_with(&[5, 6]);
    app.handle_key(Key::Down);
    app.handle_key(Key::Char('j'));
    app.on_join_result(Ok(()));
    app.on_calculation_result(Ok(()));
    app.handle_key(Key::Other);
    app.handle_key(Key::Right);
    assert_eq!(app.footer(), Footer::SwitchTabAndLeave);
    assert_eq!(app.handle_key(Key::Char('l')), KeyAction::Leave);
    assert!(app.is_leaving);
    assert!(matches!(app.popup, Popup::Leaving));
    app.on_leave_result(Ok(()));
    assert!(!app.is_leaving);
    assert!(app.processing_competition.is_none());
    let keys: Vec<Uint256> = app.ready_competitions.entries().iter().map(|e| e.0).collect();
    assert_eq!(keys, vec![word(6), word(5)]);
    assert!(matches!(app.popup, Popup::LeftCompetition));
}

#[test]
fn failed_leave_keeps_processing() {
    let mut app = app_with(&[]);
    app.processing_competition = Some(competition(3));
    app.is_leaving = true;
    app.on_leave_result(Err("nope".to_string()));
    assert!(!app.is_leaving);
    assert!(app.processing_competition.is_some());
    assert!(matches!(&app.popup, Popup::LeaveFailed(e) if e == "nope"));
}

#[test]
fn leave_needs_processing_tab_and_competition() {
    let mut app = app_with(&[]);
    app.handle_key(Key::Right);
    assert_eq!(app.footer(), Footer::SwitchTab);
    assert_eq!(app.handle_key(Key::Char('l')), KeyAction::Nothing);
}

#[test]
fn status_updates() {
    let mut app = app_with(&[]);
    app.on_block_number(42);
    assert_eq!(app.block_number, Some(42));
    app.on_new_listen_address("/ip4/127.0.0.1/tcp/1".to_string());
    assert_eq!(app.listeners, vec!["/ip4/127.0.0.1/tcp/1".to_string()]);
    app.set_connected_peers(3);
    assert_eq!(app.connected_peers, 3);
}
