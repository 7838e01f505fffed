//! Watched shows and the download-eligibility policy.
//!
//! A show carries its two localized titles and a per-cycle flag that says
//! whether one of its episodes is currently worth looking for. The flag is
//! computed once per fetch from an upstream timing signal, by one of two
//! interchangeable heuristics; both are total and never fail, returning
//! `false` on missing input.

use vstd::prelude::*;

verus! {

/// The two localized titles of a show.
#[derive(Debug)]
pub struct Title {
    pub english: String,
    pub romaji: String,
}

/// A watched show, as produced once per reconciliation cycle: its titles and
/// the already-evaluated eligibility flag.
#[derive(Debug)]
pub struct Show {
    pub title: Title,
    pub should_download: bool,
}

/// The mathematical content of a `Show`: its two titles and its eligibility
/// flag.
pub ghost struct ShowView {
    pub english: Seq<char>,
    pub romaji: Seq<char>,
    pub should_download: bool,
}

impl View for Show {
    type V = ShowView;

    open spec fn view(&self) -> ShowView {
        ShowView {
            english: self.title.english@,
            romaji: self.title.romaji@,
            should_download: self.should_download,
        }
    }
}

/// One day, in seconds: a notification older than this no longer marks a show
/// as eligible.
pub const ONE_DAY_SECONDS: i64 = 86400;

/// Six days and fifteen hours, in seconds: a countdown at least this long
/// means the previous episode has already aired with enough margin for a
/// release to appear.
pub const COUNTDOWN_THRESHOLD_SECONDS: i64 = 561600;

/// Notification-freshness strategy: the show is eligible while the airing
/// notification is at most one day old. Total: computed in wide arithmetic,
/// so no pair of timestamps overflows.
pub fn should_download(current_time: i64, created_at: i64) -> (r: bool)
    ensures
        r == (current_time - created_at <= ONE_DAY_SECONDS),
{
    (current_time as i128) - (created_at as i128) <= ONE_DAY_SECONDS as i128
}

/// Airing-countdown strategy: the show is eligible when the time until the
/// next episode airs is at least six days and fifteen hours — a countdown
/// that large means the previous episode has already aired with enough
/// margin for a release to appear — or negative, meaning the episode itself
/// has already aired.
pub fn eligible_countdown(time_until_airing: i64) -> (r: bool)
    ensures
        r == (time_until_airing >= COUNTDOWN_THRESHOLD_SECONDS || time_until_airing < 0),
{
    time_until_airing >= COUNTDOWN_THRESHOLD_SECONDS || time_until_airing < 0
}

/// Build the per-cycle record of one show from one airing notification:
/// the titles are taken as given, and eligibility holds exactly when the
/// notification carries a timestamp that is at most one day old.
pub fn show_from_notification(
    english: String,
    romaji: String,
    created_at: Option<i64>,
    current_time: i64,
) -> (r: Show)
    ensures
        r.title.english@ == english@,
        r.title.romaji@ == romaji@,
        r.should_download == match created_at {
            Some(t) => current_time - t <= ONE_DAY_SECONDS,
            None => false,
        },
{
    let should: bool = match created_at {
        Some(t) => should_download(current_time, t),
        None => false,
    };
    Show { title: Title { english, romaji }, should_download: should }
}

} // verus!
