//! The poll loop's decisions: the launch flags, the state machine that
//! drives fetch, display and sleep, and what one tick puts on the
//! screen. The loop body that sleeps, fetches and opens windows runs
//! outside and asks these functions what to do next.

use vstd::prelude::*;
use crate::html::{
    notifications_view, render_error, spec_complete_html, spec_error_stub,
    spec_notifications_stub,
};
use crate::json::str_eq;
use crate::{Config, FetchError, Notifications};

verus! {

/// How long the loop sleeps between ticks, in seconds: fifteen minutes.
pub const POLL_INTERVAL_SECS: u64 = 900;

/// Where the poll loop stands.
#[derive(Debug, Clone, Copy, PartialEq, Eq, Structural)]
pub enum PollState {
    Idle,
    Fetching,
    Displaying,
    ErrorDisplay,
    Sleeping,
}

/// What has just happened to the loop.
#[derive(Debug, Clone, Copy, PartialEq, Eq, Structural)]
pub enum PollEvent {
    Started,
    FetchSucceeded,
    FetchFailed,
    ViewClosed,
    SleepFinished,
}

/// The loop's transitions: fetch, then display or show the error, then
/// sleep, then fetch again; an event that does not belong to the state
/// changes nothing.
pub open spec fn spec_poll_step(s: PollState, e: PollEvent) -> PollState {
    match (s, e) {
        (PollState::Idle, PollEvent::Started) => PollState::Fetching,
        (PollState::Fetching, PollEvent::FetchSucceeded) => PollState::Displaying,
        (PollState::Fetching, PollEvent::FetchFailed) => PollState::ErrorDisplay,
        (PollState::Displaying, PollEvent::ViewClosed) => PollState::Sleeping,
        (PollState::ErrorDisplay, PollEvent::ViewClosed) => PollState::Sleeping,
        (PollState::Sleeping, PollEvent::SleepFinished) => PollState::Fetching,
        (_, _) => s,
    }
}

/// One transition of the poll loop.
pub fn poll_step(s: PollState, e: PollEvent) -> (t: PollState)
    ensures
        t == spec_poll_step(s, e),
{
    match (s, e) {
        (PollState::Idle, PollEvent::Started) => PollState::Fetching,
        (PollState::Fetching, PollEvent::FetchSucceeded) => PollState::Displaying,
        (PollState::Fetching, PollEvent::FetchFailed) => PollState::ErrorDisplay,
        (PollState::Displaying, PollEvent::ViewClosed) => PollState::Sleeping,
        (PollState::ErrorDisplay, PollEvent::ViewClosed) => PollState::Sleeping,
        (PollState::Sleeping, PollEvent::SleepFinished) => PollState::Fetching,
        (_, _) => s,
    }
}

/// No fetch failure is fatal: a failed fetch leads to the error view,
/// the closed view to the sleep, and the finished sleep straight back to
/// the next fetch.
pub proof fn lemma_failure_recovers()
    ensures
        spec_poll_step(PollState::Fetching, PollEvent::FetchFailed) == PollState::ErrorDisplay,
        spec_poll_step(PollState::ErrorDisplay, PollEvent::ViewClosed) == PollState::Sleeping,
        spec_poll_step(PollState::Sleeping, PollEvent::SleepFinished) == PollState::Fetching,
{
}

/// What one tick puts on the screen: the list page when something is
/// unread, nothing when the count is zero, and the error page when the
/// fetch failed.
pub fn tick_view(outcome: &Result<Notifications, FetchError>, config: &Config) -> (r: Option<
    String,
>)
    ensures
        (match outcome {
            Ok(n) => {
                &&& n@.unreadcount == 0 ==> r is None
                &&& n@.unreadcount != 0 ==> (r matches Some(page) && page@ == spec_complete_html(
                    spec_notifications_stub(n@, config@),
                ))
            },
            Err(e) => r matches Some(page) && page@ == spec_complete_html(
                spec_error_stub(
                    match e {
                        FetchError::TransportError(m) => m@,
                        FetchError::DecodeError => "could not decode the server's response"@,
                    },
                ),
            ),
        }),
{
    match outcome {
        Ok(n) => notifications_view(n, config),
        Err(e) => {
            let msg = e.message();
            Some(render_error(msg.as_str()))
        },
    }
}

/// The error page for a failed tick, or nothing at all: with silenced
/// errors the failure is only logged and no view is opened.
pub fn error_view(launch: LaunchOptions, err: &FetchError) -> (r: Option<String>)
    ensures
        launch.silent_errors ==> r is None,
        !launch.silent_errors ==> (r matches Some(page) && page@ == spec_complete_html(
            spec_error_stub(
                match err {
                    FetchError::TransportError(m) => m@,
                    FetchError::DecodeError => "could not decode the server's response"@,
                },
            ),
        )),
{
    if launch.silent_errors {
        None
    } else {
        let msg = err.message();
        Some(render_error(msg.as_str()))
    }
}

/// The launch flags, read once from the arguments and passed in
/// explicitly from then on.
#[derive(Debug, Clone, Copy, PartialEq, Eq, Structural)]
pub struct LaunchOptions {
    pub settings_only: bool,
    pub silent_errors: bool,
}

/// Whether one of the arguments is exactly this flag.
pub open spec fn spec_has_flag(args: Seq<Seq<char>>, flag: Seq<char>) -> bool {
    exists|i: int| 0 <= i < args.len() && #[trigger] args[i] == flag
}

/// The arguments as text.
pub open spec fn spec_args_view(args: Seq<String>) -> Seq<Seq<char>> {
    args.map_values(|s: String| s@)
}

proof fn lemma_has_flag_step(args: Seq<Seq<char>>, flag: Seq<char>, k: int)
    requires
        0 <= k < args.len(),
    ensures
        spec_has_flag(args.take(k + 1), flag) == (spec_has_flag(args.take(k), flag) || args[k]
            == flag),
{
    if spec_has_flag(args.take(k + 1), flag) {
        let i = choose|i: int| 0 <= i < args.take(k + 1).len() && #[trigger] args.take(k + 1)[i] == flag;
        if i < k {
            assert(args.take(k)[i] == flag);
        } else {
            assert(args[k] == flag);
        }
    }
    if spec_has_flag(args.take(k), flag) {
        let i = choose|i: int| 0 <= i < args.take(k).len() && #[trigger] args.take(k)[i] == flag;
        assert(args.take(k + 1)[i] == flag);
    }
    if args[k] == flag {
        assert(args.take(k + 1)[k] == flag);
    }
}

/// Reads the launch flags out of the arguments: `--settings` opens the
/// settings form and nothing else; `--silent-errors` keeps the error
/// view closed. Anything else among the arguments means nothing.
pub fn parse_launch(args: &Vec<String>) -> (r: LaunchOptions)
    ensures
        r.settings_only == spec_has_flag(spec_args_view(args@), "--settings"@),
        r.silent_errors == spec_has_flag(spec_args_view(args@), "--silent-errors"@),
{
    let ghost view = spec_args_view(args@);
    let mut settings = false;
    let mut silent = false;
    let n = args.len();
    let mut k: usize = 0;
    proof {
        assert(view.take(0) =~= Seq::<Seq<char>>::empty());
    }
    while k < n
        invariant
            0 <= k <= n == args@.len(),
            view == spec_args_view(args@),
            view.len() == n,
            settings == spec_has_flag(view.take(k as int), "--settings"@),
            silent == spec_has_flag(view.take(k as int), "--silent-errors"@),
        decreases n - k,
    {
        proof {
            assert(view[k as int] == args@[k as int]@);
            lemma_has_flag_step(view, "--settings"@, k as int);
            lemma_has_flag_step(view, "--silent-errors"@, k as int);
        }
        if str_eq(&args[k], "--settings") {
            settings = true;
        }
        if str_eq(&args[k], "--silent-errors") {
            silent = true;
        }
        k = k + 1;
    }
    proof {
        assert(view.take(n as int) =~= view);
    }
    LaunchOptions { settings_only: settings, silent_errors: silent }
}

} // verus!
