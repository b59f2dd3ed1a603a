//! The polling schedule: when to fetch, and when to re-place the taskbar
//! widget in between.
use vstd::prelude::*;
use crate::settings::clamp_spec;

verus! {

/// What the polling loop does in the current second.
#[derive(Clone, Copy, Debug, PartialEq, Eq, Structural)]
pub enum PollAction {
    /// Place the widget, fetch the usage, update tray and windows, place again.
    PlaceAndFetch,
    /// Re-place the widget only: the taskbar icon group grows and shrinks as
    /// apps start and quit.
    Follow,
    /// Nothing this second.
    Wait,
}

/// Seconds between two fetches: the configured interval, 30-600 s.
pub open spec fn poll_interval(poll_secs: u32) -> int {
    clamp_spec(poll_secs, 30, 600) as int
}

/// The scheduled action after `elapsed` seconds since the last fetch.
pub open spec fn scheduled_action(elapsed: int, poll_secs: u32) -> PollAction {
    if elapsed == 0 || elapsed >= poll_interval(poll_secs) {
        PollAction::PlaceAndFetch
    } else if elapsed % 2 == 0 {
        PollAction::Follow
    } else {
        PollAction::Wait
    }
}

/// The action after `elapsed` seconds since the last fetch: fetch at the
/// start and once the interval is over; in between, follow the taskbar every
/// 2 seconds and wait otherwise.
pub fn poll_action(elapsed: u32, poll_secs: u32) -> (a: PollAction)
    ensures
        a == scheduled_action(elapsed as int, poll_secs),
        elapsed == 0 || elapsed >= poll_interval(poll_secs) ==> a == PollAction::PlaceAndFetch,
        0 < elapsed < poll_interval(poll_secs) && elapsed % 2 == 0 ==> a == PollAction::Follow,
        0 < elapsed < poll_interval(poll_secs) && elapsed % 2 == 1 ==> a == PollAction::Wait,
{
    let interval = if poll_secs < 30 {
        30
    } else if poll_secs > 600 {
        600
    } else {
        poll_secs
    };
    if elapsed == 0 || elapsed >= interval {
        PollAction::PlaceAndFetch
    } else if elapsed % 2 == 0 {
        PollAction::Follow
    } else {
        PollAction::Wait
    }
}

/// The widget is placed at least every 2 seconds: of two consecutive
/// seconds, at least one places it (by a fetch or a follow).
pub proof fn lemma_places_every_two_seconds(elapsed: int, poll_secs: u32)
    requires
        elapsed >= 0,
    ensures
        scheduled_action(elapsed, poll_secs) != PollAction::Wait || scheduled_action(elapsed + 1, poll_secs)
            != PollAction::Wait,
{
}

/// Two fetches are exactly one interval apart: no fetch happens strictly in
/// between.
pub proof fn lemma_fetch_once_per_interval(elapsed: int, poll_secs: u32)
    requires
        0 < elapsed < poll_interval(poll_secs),
    ensures
        scheduled_action(elapsed, poll_secs) != PollAction::PlaceAndFetch,
        scheduled_action(poll_interval(poll_secs), poll_secs) == PollAction::PlaceAndFetch,
{
}

/// The interval is the configured number of seconds when it lies in
/// 30-600, else the nearer end of that range.
pub proof fn lemma_poll_interval(poll_secs: u32)
    ensures
        30 <= poll_interval(poll_secs) <= 600,
        30 <= poll_secs <= 600 ==> poll_interval(poll_secs) == poll_secs,
        poll_secs < 30 ==> poll_interval(poll_secs) == 30,
        poll_secs > 600 ==> poll_interval(poll_secs) == 600,
{
}

} // verus!
