//! The release-matching and download-gating engine.
//!
//! One pass of the reconciliation loop walks the feed once per watched show:
//! a release whose parsed title exactly equals one of the show's titles is a
//! match, and a download is issued for it exactly when the show is eligible
//! and the (romaji title, episode) pair is not yet on the ledger; the pair is
//! recorded the moment the download is issued, so a later release of the
//! same episode in the same pass is already gated out.

use vstd::prelude::*;
use crate::anilist::{Show, ShowView};
use crate::ledger::{Ledger, ledger_has_spec, lemma_has_monotone, lemma_record_then_has};
use crate::string_distance::str_eq;
use crate::tracker::{TrackerItem, TrackerItemView};

verus! {

/// One download to submit to the torrent client: the show title the download
/// is filed under, and the release's download link.
#[derive(Debug)]
pub struct DownloadRequest {
    pub title: String,
    pub url: String,
}

impl View for DownloadRequest {
    type V = (Seq<char>, Seq<char>);

    open spec fn view(&self) -> (Seq<char>, Seq<char>) {
        (self.title@, self.url@)
    }
}

/// Exact matching policy: a parsed title matches a show when it equals one
/// of the show's two titles, byte for byte, case-sensitively.
pub open spec fn title_matches(parsed_title: Seq<char>, show: ShowView) -> bool {
    parsed_title == show.english || parsed_title == show.romaji
}

/// A release participates in matching only with both parsed fields present;
/// it then matches a show under the exact policy.
pub open spec fn matches_show(item: TrackerItemView, show: ShowView) -> bool {
    &&& item.parsed_title is Some
    &&& item.parsed_episode is Some
    &&& title_matches(item.parsed_title.unwrap(), show)
}

/// The release matcher: scan the shows in the order supplied and return the
/// first one the release's parsed title matches exactly, if any. A release
/// whose title the parser could not extract must be skipped by the caller
/// and never reaches this function.
pub fn match_release(item: &TrackerItem, shows: &Vec<Show>) -> (r: Option<usize>)
    requires
        item@.parsed_title is Some,
    ensures
        match r {
            Some(i) => {
                &&& i < shows@.len()
                &&& title_matches(item@.parsed_title.unwrap(), shows@[i as int]@)
                &&& forall|j: int|
                    0 <= j < i ==> !title_matches(item@.parsed_title.unwrap(), shows@[j]@)
            },
            None => forall|j: int|
                0 <= j < shows@.len() ==> !title_matches(item@.parsed_title.unwrap(), shows@[j]@),
        },
{
    let parsed_title = item.parsed_title.as_ref().unwrap();
    let mut i: usize = 0;
    while i < shows.len()
        invariant
            i <= shows@.len(),
            item@.parsed_title is Some,
            parsed_title@ == item@.parsed_title.unwrap(),
            forall|j: int| 0 <= j < i ==> !title_matches(item@.parsed_title.unwrap(), shows@[j]@),
        decreases shows@.len() - i,
    {
        let show = &shows[i];
        if str_eq(parsed_title.as_str(), show.title.english.as_str()) || str_eq(
            parsed_title.as_str(),
            show.title.romaji.as_str(),
        ) {
            return Some(i);
        }
        i += 1;
    }
    None
}

/// The download gate: a matching release of an eligible show whose episode
/// is not yet on the ledger.
pub open spec fn wants_download(
    item: TrackerItemView,
    show: ShowView,
    entries: Seq<(Seq<char>, Seq<char>)>,
) -> bool {
    &&& matches_show(item, show)
    &&& show.should_download
    &&& !ledger_has_spec(entries, show.romaji, item.parsed_episode.unwrap())
}

/// The engine's state while walking a feed: the download requests issued so
/// far, and the ledger's records.
pub type EngineState = (Seq<(Seq<char>, Seq<char>)>, Seq<(Seq<char>, Seq<char>)>);

/// One release's effect: a gated release appends one request and one ledger
/// record; any other release changes nothing.
pub open spec fn process_step(st: EngineState, item: TrackerItemView, show: ShowView) -> EngineState {
    if wants_download(item, show, st.1) {
        (
            st.0.push((show.romaji, item.url)),
            st.1.push((show.romaji, item.parsed_episode.unwrap())),
        )
    } else {
        st
    }
}

/// The engine's state after the first `n` feed items, scanned in feed order
/// against one show, starting from the given ledger records.
pub open spec fn process_prefix(
    items: Seq<TrackerItemView>,
    show: ShowView,
    entries0: Seq<(Seq<char>, Seq<char>)>,
    n: int,
) -> EngineState
    decreases n,
{
    if n <= 0 {
        (Seq::empty(), entries0)
    } else {
        process_step(process_prefix(items, show, entries0, n - 1), items[n - 1], show)
    }
}

/// The requests issued and the ledger left behind by one full scan of the
/// feed for one show.
pub open spec fn process_items(
    items: Seq<TrackerItemView>,
    show: ShowView,
    entries0: Seq<(Seq<char>, Seq<char>)>,
) -> EngineState {
    process_prefix(items, show, entries0, items.len() as int)
}

/// A scan appends exactly one ledger record per issued request.
pub proof fn lemma_scan_one_record_per_request(
    items: Seq<TrackerItemView>,
    show: ShowView,
    entries0: Seq<(Seq<char>, Seq<char>)>,
    n: int,
)
    ensures
        process_prefix(items, show, entries0, n).1.len() == entries0.len() + process_prefix(
            items,
            show,
            entries0,
            n,
        ).0.len(),
    decreases n,
{
    if n > 0 {
        lemma_scan_one_record_per_request(items, show, entries0, n - 1);
    }
}

/// A pass appends exactly one ledger record per issued request.
pub proof fn lemma_cycle_one_record_per_request(
    shows: Seq<ShowView>,
    items: Seq<TrackerItemView>,
    entries0: Seq<(Seq<char>, Seq<char>)>,
    n: int,
)
    ensures
        cycle_prefix(shows, items, entries0, n).1.len() == entries0.len() + cycle_prefix(
            shows,
            items,
            entries0,
            n,
        ).0.len(),
    decreases n,
{
    if n > 0 {
        lemma_cycle_one_record_per_request(shows, items, entries0, n - 1);
        let st = cycle_prefix(shows, items, entries0, n - 1);
        lemma_scan_one_record_per_request(items, shows[n - 1], st.1, items.len() as int);
    }
}

/// Scan the feed for one show: issue a download request for every matching,
/// eligible, not-yet-recorded release, recording each issued pair at once.
pub fn try_download(items: &Vec<TrackerItem>, show: &Show, ledger: &mut Ledger) -> (requests: Vec<
    DownloadRequest,
>)
    ensures
        requests@.map_values(|r: DownloadRequest| r@) == process_items(
            items@.map_values(|it: TrackerItem| it@),
            show@,
            old(ledger)@,
        ).0,
        final(ledger)@ == process_items(
            items@.map_values(|it: TrackerItem| it@),
            show@,
            old(ledger)@,
        ).1,
        final(ledger)@.len() == old(ledger)@.len() + requests@.len(),
{
    let ghost items_v = items@.map_values(|it: TrackerItem| it@);
    let ghost entries0 = ledger@;
    let mut requests: Vec<DownloadRequest> = Vec::new();
    proof {
        assert(requests@.map_values(|r: DownloadRequest| r@) =~= Seq::<(
            Seq<char>,
            Seq<char>,
        )>::empty());
    }
    let mut i: usize = 0;
    while i < items.len()
        invariant
            i <= items@.len(),
            items_v == items@.map_values(|it: TrackerItem| it@),
            requests@.map_values(|r: DownloadRequest| r@) == process_prefix(
                items_v,
                show@,
                entries0,
                i as int,
            ).0,
            ledger@ == process_prefix(items_v, show@, entries0, i as int).1,
        decreases items@.len() - i,
    {
        let ghost st = process_prefix(items_v, show@, entries0, i as int);
        let item = &items[i];
        proof {
            assert(items_v[i as int] == item@);
        }
        if item.parsed_title.is_some() && item.parsed_episode.is_some() {
            let p_title = item.parsed_title.as_ref().unwrap();
            let p_ep = item.parsed_episode.as_ref().unwrap();
            if str_eq(p_title.as_str(), show.title.english.as_str()) || str_eq(
                p_title.as_str(),
                show.title.romaji.as_str(),
            ) {
                if show.should_download && !ledger.has(show.title.romaji.as_str(), p_ep.as_str()) {
                    let ghost prev_reqs = requests@.map_values(|r: DownloadRequest| r@);
                    requests.push(
                        DownloadRequest { title: show.title.romaji.clone(), url: item.url.clone() },
                    );
                    ledger.record(show.title.romaji.as_str(), p_ep.as_str());
                    proof {
                        assert(wants_download(items_v[i as int], show@, st.1));
                        assert(requests@.map_values(|r: DownloadRequest| r@) =~= prev_reqs.push(
                            (show@.romaji, items_v[i as int].url),
                        ));
                    }
                } else {
                    proof {
                        assert(!wants_download(items_v[i as int], show@, st.1));
                    }
                }
            } else {
                proof {
                    assert(!matches_show(items_v[i as int], show@));
                }
            }
        } else {
            proof {
                assert(!matches_show(items_v[i as int], show@));
            }
        }
        i += 1;
    }
    proof {
        lemma_scan_one_record_per_request(items_v, show@, entries0, items_v.len() as int);
    }
    requests
}

/// The engine's state after the first `n` watched shows of one
/// reconciliation pass, each scanned against the whole feed in turn, the
/// ledger carried from one show to the next.
pub open spec fn cycle_prefix(
    shows: Seq<ShowView>,
    items: Seq<TrackerItemView>,
    entries0: Seq<(Seq<char>, Seq<char>)>,
    n: int,
) -> EngineState
    decreases n,
{
    if n <= 0 {
        (Seq::empty(), entries0)
    } else {
        let st = cycle_prefix(shows, items, entries0, n - 1);
        let r = process_items(items, shows[n - 1], st.1);
        (st.0 + r.0, r.1)
    }
}

/// The requests issued and the ledger left behind by one full
/// reconciliation pass over every watched show.
pub open spec fn process_cycle(
    shows: Seq<ShowView>,
    items: Seq<TrackerItemView>,
    entries0: Seq<(Seq<char>, Seq<char>)>,
) -> EngineState {
    cycle_prefix(shows, items, entries0, shows.len() as int)
}

/// One reconciliation pass: scan the feed once per watched show, gating
/// every download through the ledger, and hand back the downloads to submit.
pub fn run_cycle(shows: &Vec<Show>, items: &Vec<TrackerItem>, ledger: &mut Ledger) -> (requests:
    Vec<DownloadRequest>)
    ensures
        requests@.map_values(|r: DownloadRequest| r@) == process_cycle(
            shows@.map_values(|s: Show| s@),
            items@.map_values(|it: TrackerItem| it@),
            old(ledger)@,
        ).0,
        final(ledger)@ == process_cycle(
            shows@.map_values(|s: Show| s@),
            items@.map_values(|it: TrackerItem| it@),
            old(ledger)@,
        ).1,
        final(ledger)@.len() == old(ledger)@.len() + requests@.len(),
{
    let ghost shows_v = shows@.map_values(|s: Show| s@);
    let ghost items_v = items@.map_values(|it: TrackerItem| it@);
    let ghost entries0 = ledger@;
    let mut requests: Vec<DownloadRequest> = Vec::new();
    proof {
        assert(requests@.map_values(|r: DownloadRequest| r@) =~= Seq::<(
            Seq<char>,
            Seq<char>,
        )>::empty());
    }
    let mut i: usize = 0;
    while i < shows.len()
        invariant
            i <= shows@.len(),
            shows_v == shows@.map_values(|s: Show| s@),
            items_v == items@.map_values(|it: TrackerItem| it@),
            requests@.map_values(|r: DownloadRequest| r@) == cycle_prefix(
                shows_v,
                items_v,
                entries0,
                i as int,
            ).0,
            ledger@ == cycle_prefix(shows_v, items_v, entries0, i as int).1,
        decreases shows@.len() - i,
    {
        let ghost prev_reqs = requests@.map_values(|r: DownloadRequest| r@);
        let show = &shows[i];
        proof {
            assert(shows_v[i as int] == show@);
        }
        let mut round = try_download(items, show, ledger);
        let ghost round_v = round@.map_values(|r: DownloadRequest| r@);
        requests.append(&mut round);
        proof {
            assert(requests@.map_values(|r: DownloadRequest| r@) =~= prev_reqs + round_v);
        }
        i += 1;
    }
    proof {
        lemma_cycle_one_record_per_request(shows_v, items_v, entries0, shows_v.len() as int);
    }
    requests
}

/// A release with no parsed title never participates in matching, however
/// similar its raw title may be to a watched show: it adds no download
/// request and no ledger record.
pub proof fn lemma_unparsed_never_matches(st: EngineState, item: TrackerItemView, show: ShowView)
    requires
        item.parsed_title is None,
    ensures
        !matches_show(item, show),
        process_step(st, item, show) == st,
{
}

/// After one full scan, every release that matches an eligible show has its
/// (romaji title, episode) pair on the resulting ledger — whether the scan
/// issued its download or found it already recorded.
proof fn lemma_scan_records_all_matches(
    items: Seq<TrackerItemView>,
    show: ShowView,
    entries0: Seq<(Seq<char>, Seq<char>)>,
    n: int,
)
    requires
        0 <= n <= items.len(),
    ensures
        forall|i: int|
            0 <= i < n && #[trigger] matches_show(items[i], show) && show.should_download
                ==> ledger_has_spec(
                process_prefix(items, show, entries0, n).1,
                show.romaji,
                items[i].parsed_episode.unwrap(),
            ),
    decreases n,
{
    if n > 0 {
        lemma_scan_records_all_matches(items, show, entries0, n - 1);
        let st = process_prefix(items, show, entries0, n - 1);
        assert forall|i: int|
            0 <= i < n && #[trigger] matches_show(items[i], show)
                && show.should_download implies ledger_has_spec(
            process_prefix(items, show, entries0, n).1,
            show.romaji,
            items[i].parsed_episode.unwrap(),
        ) by {
            let ep = items[i].parsed_episode.unwrap();
            if i < n - 1 {
                if wants_download(items[n - 1], show, st.1) {
                    lemma_has_monotone(
                        st.1,
                        (show.romaji, items[n - 1].parsed_episode.unwrap()),
                        show.romaji,
                        ep,
                    );
                }
            } else {
                if wants_download(items[i], show, st.1) {
                    lemma_record_then_has(st.1, show.romaji, ep);
                }
            }
        }
    }
}

/// A scan that starts from a ledger already holding every matching,
/// eligible pair issues nothing and leaves the ledger unchanged.
proof fn lemma_scan_of_saturated_ledger(
    items: Seq<TrackerItemView>,
    show: ShowView,
    entries: Seq<(Seq<char>, Seq<char>)>,
    n: int,
)
    requires
        0 <= n <= items.len(),
        forall|i: int|
            0 <= i < items.len() && #[trigger] matches_show(items[i], show)
                && show.should_download ==> ledger_has_spec(
                entries,
                show.romaji,
                items[i].parsed_episode.unwrap(),
            ),
    ensures
        process_prefix(items, show, entries, n).0 == Seq::<(Seq<char>, Seq<char>)>::empty(),
        process_prefix(items, show, entries, n).1 == entries,
    decreases n,
{
    if n > 0 {
        lemma_scan_of_saturated_ledger(items, show, entries, n - 1);
        assert(!wants_download(items[n - 1], show, entries));
    }
}

/// A scan never erases a ledger record: whatever was on record before it is
/// still on record after it.
proof fn lemma_scan_keeps_records(
    items: Seq<TrackerItemView>,
    show: ShowView,
    entries0: Seq<(Seq<char>, Seq<char>)>,
    n: int,
    title: Seq<char>,
    episode: Seq<char>,
)
    requires
        0 <= n <= items.len(),
        ledger_has_spec(entries0, title, episode),
    ensures
        ledger_has_spec(process_prefix(items, show, entries0, n).1, title, episode),
    decreases n,
{
    if n > 0 {
        lemma_scan_keeps_records(items, show, entries0, n - 1, title, episode);
        let st = process_prefix(items, show, entries0, n - 1);
        if wants_download(items[n - 1], show, st.1) {
            lemma_has_monotone(
                st.1,
                (show.romaji, items[n - 1].parsed_episode.unwrap()),
                title,
                episode,
            );
        }
    }
}

/// After one full pass, every (show, release) pair that matches with an
/// eligible show has its (romaji title, episode) pair on the final ledger.
proof fn lemma_cycle_records_all_matches(
    shows: Seq<ShowView>,
    items: Seq<TrackerItemView>,
    entries0: Seq<(Seq<char>, Seq<char>)>,
    n: int,
)
    requires
        0 <= n <= shows.len(),
    ensures
        forall|i: int, j: int|
            0 <= i < n && 0 <= j < items.len() && #[trigger] matches_show(items[j], shows[i])
                && shows[i].should_download ==> ledger_has_spec(
                cycle_prefix(shows, items, entries0, n).1,
                shows[i].romaji,
                items[j].parsed_episode.unwrap(),
            ),
    decreases n,
{
    if n > 0 {
        lemma_cycle_records_all_matches(shows, items, entries0, n - 1);
        let st = cycle_prefix(shows, items, entries0, n - 1);
        lemma_scan_records_all_matches(items, shows[n - 1], st.1, items.len() as int);
        assert forall|i: int, j: int|
            0 <= i < n && 0 <= j < items.len() && #[trigger] matches_show(items[j], shows[i])
                && shows[i].should_download implies ledger_has_spec(
            cycle_prefix(shows, items, entries0, n).1,
            shows[i].romaji,
            items[j].parsed_episode.unwrap(),
        ) by {
            if i < n - 1 {
                lemma_scan_keeps_records(
                    items,
                    shows[n - 1],
                    st.1,
                    items.len() as int,
                    shows[i].romaji,
                    items[j].parsed_episode.unwrap(),
                );
            }
        }
    }
}

/// Re-running a whole pass on the ledger it produced issues no download at
/// all and leaves the ledger as it was.
pub proof fn lemma_cycle_rerun_issues_nothing(
    shows: Seq<ShowView>,
    items: Seq<TrackerItemView>,
    entries0: Seq<(Seq<char>, Seq<char>)>,
)
    ensures
        process_cycle(shows, items, process_cycle(shows, items, entries0).1).0 == Seq::<(
            Seq<char>,
            Seq<char>,
        )>::empty(),
        process_cycle(shows, items, process_cycle(shows, items, entries0).1).1 == process_cycle(
            shows,
            items,
            entries0,
        ).1,
{
    let after = process_cycle(shows, items, entries0).1;
    lemma_cycle_records_all_matches(shows, items, entries0, shows.len() as int);
    assert forall|n: int| 0 <= n <= shows.len() implies cycle_prefix(shows, items, after, n)
        == (Seq::<(Seq<char>, Seq<char>)>::empty(), after) by {
        lemma_cycle_saturated(shows, items, after, n);
    }
}

/// A pass that starts from a ledger already holding every matching,
/// eligible pair of every show issues nothing and changes nothing.
proof fn lemma_cycle_saturated(
    shows: Seq<ShowView>,
    items: Seq<TrackerItemView>,
    entries: Seq<(Seq<char>, Seq<char>)>,
    n: int,
)
    requires
        0 <= n <= shows.len(),
        forall|i: int, j: int|
            0 <= i < shows.len() && 0 <= j < items.len() && #[trigger] matches_show(
                items[j],
                shows[i],
            ) && shows[i].should_download ==> ledger_has_spec(
                entries,
                shows[i].romaji,
                items[j].parsed_episode.unwrap(),
            ),
    ensures
        cycle_prefix(shows, items, entries, n).0 == Seq::<(Seq<char>, Seq<char>)>::empty(),
        cycle_prefix(shows, items, entries, n).1 == entries,
    decreases n,
{
    if n > 0 {
        lemma_cycle_saturated(shows, items, entries, n - 1);
        assert forall|j: int|
            0 <= j < items.len() && #[trigger] matches_show(items[j], shows[n - 1]) && shows[n
                - 1].should_download implies ledger_has_spec(
            entries,
            shows[n - 1].romaji,
            items[j].parsed_episode.unwrap(),
        ) by {
            assert(matches_show(items[j], shows[n - 1]) && shows[n - 1].should_download);
        }
        lemma_scan_of_saturated_ledger(items, shows[n - 1], entries, items.len() as int);
        assert(cycle_prefix(shows, items, entries, n).0 =~= Seq::<(Seq<char>, Seq<char>)>::empty());
    }
}

/// Re-running a scan on the ledger it produced issues no download again:
/// the first scan recorded every pair it acted on, so the second pass finds
/// each of them on record and leaves everything as it was.
pub proof fn lemma_rerun_issues_nothing(
    items: Seq<TrackerItemView>,
    show: ShowView,
    entries0: Seq<(Seq<char>, Seq<char>)>,
)
    ensures
        process_items(items, show, process_items(items, show, entries0).1).0 == Seq::<(
            Seq<char>,
            Seq<char>,
        )>::empty(),
        process_items(items, show, process_items(items, show, entries0).1).1 == process_items(
            items,
            show,
            entries0,
        ).1,
{
    let after = process_items(items, show, entries0).1;
    lemma_scan_records_all_matches(items, show, entries0, items.len() as int);
    lemma_scan_of_saturated_ledger(items, show, after, items.len() as int);
}

} // verus!
