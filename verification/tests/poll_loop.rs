use cms_notifs::poll::{
    error_view, parse_launch, poll_step, tick_view, LaunchOptions, PollEvent, PollState,
    POLL_INTERVAL_SECS,
};
use cms_notifs::{Config, FetchError, Notifications};

fn cfg() -> Config {
    Config { moodle_location: "https://cms.example".to_string(), token: "t".to_string() }
}

#[test]
fn a_normal_tick_walks_fetch_display_sleep_fetch() {
    let s = poll_step(PollState::Idle, PollEvent::Started);
    assert_eq!(s, PollState::Fetching);
    let s = poll_step(s, PollEvent::FetchSucceeded);
    assert_eq!(s, PollState::Displaying);
    let s = poll_step(s, PollEvent::ViewClosed);
    assert_eq!(s, PollState::Sleeping);
    let s = poll_step(s, PollEvent::SleepFinished);
    assert_eq!(s, PollState::Fetching);
}

#[test]
fn a_failed_fetch_shows_the_error_and_goes_on() {
    let s = poll_step(PollState::Fetching, PollEvent::FetchFailed);
    assert_eq!(s, PollState::ErrorDisplay);
    let s = poll_step(s, PollEvent::ViewClosed);
    assert_eq!(s, PollState::Sleeping);
    let s = poll_step(s, PollEvent::SleepFinished);
    assert_eq!(s, PollState::Fetching);
}

#[test]
fn an_event_out_of_place_changes_nothing() {
    assert_eq!(poll_step(PollState::Sleeping, PollEvent::FetchFailed), PollState::Sleeping);
    assert_eq!(poll_step(PollState::Idle, PollEvent::ViewClosed), PollState::Idle);
}

#[test]
fn the_interval_is_fifteen_minutes() {
    assert_eq!(POLL_INTERVAL_SECS, 15 * 60);
}

#[test]
fn a_tick_with_nothing_unread_shows_nothing() {
    let outcome = Ok(Notifications { notifications: vec![], unreadcount: 0 });
    assert!(tick_view(&outcome, &cfg()).is_none());
}

#[test]
fn a_failed_tick_shows_the_error_page() {
    let outcome = Err(FetchError::TransportError("no route to host".to_string()));
    let page = tick_view(&outcome, &cfg()).expect("failures are surfaced");
    assert!(page.contains("no route to host"));
    assert!(page.contains("<h1>Error</h1>"));
}

#[test]
fn silenced_errors_show_nothing_but_others_show_the_page() {
    let err = FetchError::TransportError("no route to host".to_string());
    let silent = LaunchOptions { settings_only: false, silent_errors: true };
    assert!(error_view(silent, &err).is_none());
    let loud = LaunchOptions { settings_only: false, silent_errors: false };
    let page = error_view(loud, &err).expect("errors are surfaced by default");
    assert!(page.contains("no route to host"));
    assert!(page.contains("<h1>Error</h1>"));
}

#[test]
fn launch_flags_are_read_from_the_arguments() {
    let args =
        vec!["cms_notifs".to_string(), "--settings".to_string(), "ignored".to_string()];
    let opts = parse_launch(&args);
    assert!(opts.settings_only);
    assert!(!opts.silent_errors);

    let args = vec!["cms_notifs".to_string(), "--silent-errors".to_string()];
    let opts = parse_launch(&args);
    assert!(!opts.settings_only);
    assert!(opts.silent_errors);

    let opts = parse_launch(&vec![]);
    assert!(!opts.settings_only);
    assert!(!opts.silent_errors);
}
