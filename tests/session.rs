use py_manager::session::{Command, KeyInput, Mode, Notice, Session};
use py_manager::snapshot::{PackageEntry, PackageSnapshot, PanelState};

fn s(x: &str) -> String {
    x.to_string()
}

fn fetched_key(c: &Command) -> Option<String> {
    match c {
        Command::Fetch(k) => Some(k.clone()),
        _ => None,
    }
}

fn two_versions() -> (Session, Vec<String>) {
    Session::start(vec![s("3.9.1"), s("3.11.4")], s("3.9.1"))
}

#[test]
fn startup_populates_each_key_selected_first() {
    let (session, fetches) = Session::start(vec![s("3.11.4"), s("3.9.1"), s("3.11.4")], s("3.9.1"));
    assert_eq!(fetches, vec![s("3.11.4"), s("3.9.1")]);
    assert_eq!(session.selected(), 0);
    assert_eq!(session.mode(), Mode::Browsing);
    assert_eq!(session.active(), &s("3.9.1"));
    assert!(session.cache().is_pending(&s("3.9.1")));
    assert_eq!(session.panel(), PanelState::Loading);
}

#[test]
fn startup_with_no_versions() {
    let (session, fetches) = Session::start(Vec::new(), s("system"));
    assert!(fetches.is_empty());
    assert_eq!(session.panel(), PanelState::Loading);
}

#[test]
fn startup_scenario_success_and_failure() {
    let (mut session, fetches) = two_versions();
    assert_eq!(fetches, vec![s("3.9.1"), s("3.11.4")]);
    session.on_fetched(
        s("3.9.1"),
        Ok(vec![PackageEntry::new(s("numpy"), s("1.26.0"))]),
    );
    session.on_fetched(s("3.11.4"), Err(s("pip not found")));
    match session.cache().get(&s("3.9.1")) {
        Some(PackageSnapshot::Listed(v)) => {
            assert_eq!(v.len(), 1);
            assert_eq!(v[0].name, "numpy");
            assert_eq!(v[0].version, "1.26.0");
        }
        _ => panic!("expected the numpy snapshot"),
    }
    match session.cache().get(&s("3.11.4")) {
        Some(PackageSnapshot::Failed(d)) => assert_eq!(d, "pip not found"),
        _ => panic!("expected the failure placeholder"),
    }
    assert_eq!(session.panel(), PanelState::Listed);
}

#[test]
fn navigation_before_population_shows_loading() {
    let (mut session, _) = two_versions();
    session.on_fetched(s("3.9.1"), Ok(vec![PackageEntry::new(s("numpy"), s("1.26.0"))]));
    assert_eq!(session.panel(), PanelState::Listed);
    let c = session.on_key(KeyInput::Down);
    assert!(matches!(c, Command::Nothing));
    assert_eq!(session.selected(), 1);
    assert_eq!(session.panel(), PanelState::Loading);
    assert!(session.shown().is_none());
}

#[test]
fn navigation_to_unfetched_key_requests_it() {
    let (mut session, _) = two_versions();
    session.on_fetched(s("3.11.4"), Err(s("x")));
    session.on_fetched(s("3.9.1"), Ok(Vec::new()));
    assert_eq!(session.panel(), PanelState::Empty);
    // a cached snapshot, even a failed one, is served without a new fetch
    assert!(matches!(session.on_key(KeyInput::Char('j')), Command::Nothing));
    assert_eq!(session.panel(), PanelState::Failed);
    assert!(matches!(session.on_key(KeyInput::Char('k')), Command::Nothing));
    assert_eq!(session.selected(), 0);
    // the top stays the top
    assert!(matches!(session.on_key(KeyInput::Up), Command::Nothing));
    assert_eq!(session.selected(), 0);
}

#[test]
fn navigation_over_populated_keys_fetches_nothing() {
    let (mut session, fetches) = Session::start(vec![s("a"), s("b")], s("a"));
    assert_eq!(fetches, vec![s("a"), s("b")]);
    session.on_fetched(s("a"), Ok(Vec::new()));
    session.on_fetched(s("b"), Ok(vec![PackageEntry::new(s("pip"), s("23.0"))]));
    assert!(matches!(session.select_next(), Command::Nothing));
    assert_eq!(session.panel(), PanelState::Listed);
    assert!(matches!(session.select_previous(), Command::Nothing));
    assert_eq!(session.panel(), PanelState::Empty);
}

#[test]
fn active_version_change_refetches_after_failure() {
    let (mut session, _) = two_versions();
    session.on_fetched(s("3.11.4"), Err(s("timeout")));
    session.on_fetched(s("3.9.1"), Ok(Vec::new()));
    let c = session.on_poll(s("3.11.4"));
    assert_eq!(fetched_key(&c), Some(s("3.11.4")));
    assert_eq!(session.active(), &s("3.11.4"));
    assert_eq!(session.selected(), 1);
    // an unchanged active version does nothing
    assert!(matches!(session.on_poll(s("3.11.4")), Command::Nothing));
}

#[test]
fn poll_while_population_in_flight_starts_no_second_fetch() {
    let (mut session, _) = two_versions();
    let c = session.on_poll(s("3.11.4"));
    assert!(matches!(c, Command::Nothing));
    assert_eq!(session.selected(), 1);
    assert_eq!(session.active(), &s("3.11.4"));
}

#[test]
fn poll_of_unknown_version_only_updates_active() {
    let (mut session, _) = two_versions();
    let c = session.on_poll(s("system"));
    assert!(matches!(c, Command::Nothing));
    assert_eq!(session.active(), &s("system"));
    assert_eq!(session.selected(), 0);
}

#[test]
fn confirm_then_switch() {
    let (mut session, _) = two_versions();
    session.on_key(KeyInput::Down);
    assert!(matches!(session.on_key(KeyInput::Enter), Command::Nothing));
    assert_eq!(session.mode(), Mode::ConfirmingAction);
    match session.on_key(KeyInput::Char('1')) {
        Command::Switch(v) => assert_eq!(v, "3.11.4"),
        _ => panic!("expected a switch"),
    }
    assert_eq!(session.mode(), Mode::Browsing);
}

#[test]
fn switch_failure_keeps_selection() {
    let (mut session, _) = two_versions();
    session.on_switch_result(Err(s("no such version")));
    assert_eq!(session.selected(), 0);
    assert_eq!(session.active(), &s("3.9.1"));
    match session.notice() {
        Some(Notice::SwitchFailed(d)) => assert_eq!(d, "no such version"),
        _ => panic!("expected a notice"),
    }
    session.on_key(KeyInput::Char('x'));
    assert!(session.notice().is_none());
}

#[test]
fn cancel_from_confirm_returns_to_browsing() {
    let (mut session, _) = two_versions();
    session.on_key(KeyInput::Enter);
    assert!(matches!(session.on_key(KeyInput::Char('q')), Command::Nothing));
    assert_eq!(session.mode(), Mode::Browsing);
    assert!(matches!(session.on_key(KeyInput::Char('q')), Command::Quit));
}

#[test]
fn remote_listing_and_install() {
    let (mut session, _) = two_versions();
    session.on_key(KeyInput::Enter);
    match session.on_key(KeyInput::Char('2')) {
        Command::Search(q) => assert!(q.is_empty()),
        _ => panic!("expected a search"),
    }
    assert_eq!(session.mode(), Mode::ListingRemote);
    session.on_search_results(Ok(vec![s("numpy"), s("pandas"), s("requests")]));
    assert_eq!(session.candidates().len(), 3);
    session.on_key(KeyInput::Down);
    session.on_key(KeyInput::Down);
    session.on_key(KeyInput::Down);
    assert_eq!(session.candidate(), 2);
    session.on_key(KeyInput::Up);
    assert_eq!(session.candidate(), 1);
    match session.on_key(KeyInput::Enter) {
        Command::Install(n) => assert_eq!(n, "pandas"),
        _ => panic!("expected an install"),
    }
    assert_eq!(session.mode(), Mode::Browsing);
    session.on_install_result(s("pandas"), Ok(()));
    assert!(matches!(session.notice(), Some(Notice::Installed(n)) if n == "pandas"));
    session.on_install_result(s("pandas"), Err(s("denied")));
    assert!(matches!(session.notice(), Some(Notice::InstallFailed(n, d)) if n == "pandas" && d == "denied"));
}

#[test]
fn install_with_no_candidates_does_nothing() {
    let (mut session, _) = two_versions();
    session.on_key(KeyInput::Enter);
    session.on_key(KeyInput::Char('2'));
    session.on_search_results(Err(s("bad response")));
    assert!(session.candidates().is_empty());
    assert!(matches!(session.notice(), Some(Notice::SearchFailed(d)) if d == "bad response"));
    assert!(matches!(session.on_key(KeyInput::Enter), Command::Nothing));
    assert_eq!(session.mode(), Mode::ListingRemote);
    assert!(matches!(session.on_key(KeyInput::Char('q')), Command::Nothing));
    assert_eq!(session.mode(), Mode::Browsing);
}

#[test]
fn query_typing_reissues_search() {
    let (mut session, _) = two_versions();
    session.on_key(KeyInput::Enter);
    session.on_key(KeyInput::Char('2'));
    assert!(matches!(session.on_key(KeyInput::Char('a')), Command::Nothing));
    assert_eq!(session.mode(), Mode::QueryingRemote);
    match session.on_key(KeyInput::Char('n')) {
        Command::Search(q) => assert_eq!(q, vec!['n']),
        _ => panic!("expected a search"),
    }
    match session.on_key(KeyInput::Char('q')) {
        Command::Search(q) => assert_eq!(q, vec!['n', 'q']),
        _ => panic!("expected a search"),
    }
    match session.on_key(KeyInput::Backspace) {
        Command::Search(q) => assert_eq!(q, vec!['n']),
        _ => panic!("expected a search"),
    }
    assert_eq!(session.query(), &vec!['n']);
    assert!(matches!(session.on_key(KeyInput::Enter), Command::Nothing));
    assert_eq!(session.mode(), Mode::ListingRemote);
    match session.on_key(KeyInput::Char('s')) {
        Command::Search(q) => assert!(q.is_empty()),
        _ => panic!("expected a search"),
    }
}
