//! Feed items and release-title parsing.
//!
//! One `TrackerItem` stands for one entry of the tracker feed: the raw
//! filename-style title, the download link, and the show title and episode
//! number that the external filename parser managed to extract, if any.

use vstd::prelude::*;

verus! {

/// The view of an optional owned string, for contracts.
pub open spec fn option_str_view(o: Option<String>) -> Option<Seq<char>> {
    match o {
        Some(s) => Some(s@),
        None => None,
    }
}

/// The show title that the external filename parser extracts from a raw
/// release title, when it extracts one: a function of the raw title alone.
pub uninterp spec fn parsed_title_of(s: Seq<char>) -> Option<Seq<char>>;

/// The episode number that the external filename parser extracts from a raw
/// release title, when it extracts one: a function of the raw title alone.
pub uninterp spec fn parsed_episode_of(s: Seq<char>) -> Option<Seq<char>>;

/// Relies on anitomy::Anitomy::parse with the default options: a
/// deterministic parse of a release filename, whose anime-title and
/// episode-number elements depend on the filename alone. A filename that
/// anitomy fails to classify yields neither field, and its parser reports
/// success only when an anime-title element was found, so an episode number
/// never comes without a title. anitomy::Anitomy::parse does not accept an
/// interior NUL character, so such inputs are excluded.
#[verifier::external_body]
fn parse_filename(s: &str) -> (r: (Option<String>, Option<String>))
    requires
        forall|i: int| 0 <= i < s@.len() ==> s@[i] != '\0',
    ensures
        option_str_view(r.0) == parsed_title_of(s@),
        option_str_view(r.1) == parsed_episode_of(s@),
        r.1 is Some ==> r.0 is Some,
{
    let mut anitomy = anitomy::Anitomy::new();
    match anitomy.parse(s) {
        Ok(elements) => (
            elements.get(anitomy::ElementCategory::AnimeTitle).map(|t| t.to_owned()),
            elements.get(anitomy::ElementCategory::EpisodeNumber).map(|e| e.to_owned()),
        ),
        Err(_) => (None, None),
    }
}

/// One entry of the tracker feed: raw title, download link, and whatever the
/// filename parser extracted from the raw title.
#[derive(Debug)]
pub struct TrackerItem {
    pub title: String,
    pub url: String,
    pub parsed_title: Option<String>,
    pub parsed_episode: Option<String>,
}

/// The mathematical content of a `TrackerItem`.
pub ghost struct TrackerItemView {
    pub title: Seq<char>,
    pub url: Seq<char>,
    pub parsed_title: Option<Seq<char>>,
    pub parsed_episode: Option<Seq<char>>,
}

impl View for TrackerItem {
    type V = TrackerItemView;

    open spec fn view(&self) -> TrackerItemView {
        TrackerItemView {
            title: self.title@,
            url: self.url@,
            parsed_title: option_str_view(self.parsed_title),
            parsed_episode: option_str_view(self.parsed_episode),
        }
    }
}

impl TrackerItem {
    /// Build a feed item from a raw title and link, running the filename
    /// parser on the title: an episode number is never recorded without a
    /// title. A raw title with an interior NUL character is excluded: the
    /// filename parser does not accept one.
    pub fn new(title: String, url: String) -> (r: TrackerItem)
        requires
            forall|i: int| 0 <= i < title@.len() ==> title@[i] != '\0',
        ensures
            r.title@ == title@,
            r.url@ == url@,
            option_str_view(r.parsed_title) == parsed_title_of(title@),
            option_str_view(r.parsed_episode) == parsed_episode_of(title@),
            r.parsed_episode is Some ==> r.parsed_title is Some,
    {
        let (parsed_title, parsed_episode) = parse_filename(title.as_str());
        TrackerItem { title, url, parsed_title, parsed_episode }
    }
}

} // verus!
