use weeb_helper::anilist::{Show, Title};
use weeb_helper::engine::{match_release, run_cycle, try_download};
use weeb_helper::ledger::Ledger;
use weeb_helper::tracker::TrackerItem;

fn show(english: &str, romaji: &str, should_download: bool) -> Show {
    Show {
        title: Title { english: english.to_string(), romaji: romaji.to_string() },
        should_download,
    }
}

fn item(title: &str, url: &str, parsed_title: Option<&str>, parsed_episode: Option<&str>) -> TrackerItem {
    TrackerItem {
        title: title.to_string(),
        url: url.to_string(),
        parsed_title: parsed_title.map(|s| s.to_string()),
        parsed_episode: parsed_episode.map(|s| s.to_string()),
    }
}

#[test]
fn eligible_show_and_parsed_release_download_once_end_to_end() {
    let shows = vec![show("Jujutsu Kaisen", "Jujutsu Kaisen", true)];
    let items = vec![TrackerItem::new(
        "[Group] Jujutsu Kaisen - 05 [1080p]".to_string(),
        "https://example.invalid/jjk05.torrent".to_string(),
    )];
    assert_eq!(items[0].parsed_title.as_deref(), Some("Jujutsu Kaisen"));
    assert_eq!(items[0].parsed_episode.as_deref(), Some("05"));

    let mut ledger = Ledger::new();
    let requests = run_cycle(&shows, &items, &mut ledger);
    assert_eq!(requests.len(), 1);
    assert_eq!(requests[0].title, "Jujutsu Kaisen");
    assert_eq!(requests[0].url, "https://example.invalid/jjk05.torrent");
    assert!(ledger.has("Jujutsu Kaisen", "05"));
}

#[test]
fn rerunning_the_same_cycle_downloads_nothing_new() {
    let shows = vec![show("Jujutsu Kaisen", "Jujutsu Kaisen", true)];
    let items = vec![item(
        "[Group] Jujutsu Kaisen - 05 [1080p]",
        "https://example.invalid/jjk05.torrent",
        Some("Jujutsu Kaisen"),
        Some("05"),
    )];
    let mut ledger = Ledger::new();
    let first = run_cycle(&shows, &items, &mut ledger);
    assert_eq!(first.len(), 1);
    let entries_after_first = ledger.entries.len();

    let second = run_cycle(&shows, &items, &mut ledger);
    assert_eq!(second.len(), 0);
    assert_eq!(ledger.entries.len(), entries_after_first);
}

#[test]
fn release_without_parsed_title_never_matches() {
    let shows = vec![show("Attack on Titan", "Shingeki no Kyojin", true)];
    // The raw title is exactly the show's title, but no parsed title means
    // no participation in matching at all.
    let items = vec![item("Attack on Titan", "https://example.invalid/t", None, Some("01"))];
    let mut ledger = Ledger::new();
    let requests = run_cycle(&shows, &items, &mut ledger);
    assert_eq!(requests.len(), 0);
    assert_eq!(ledger.entries.len(), 0);
}

#[test]
fn release_without_parsed_episode_never_matches() {
    let shows = vec![show("Attack on Titan", "Shingeki no Kyojin", true)];
    let items = vec![item("x", "https://example.invalid/t", Some("Attack on Titan"), None)];
    let mut ledger = Ledger::new();
    let requests = run_cycle(&shows, &items, &mut ledger);
    assert_eq!(requests.len(), 0);
}

#[test]
fn ineligible_show_downloads_nothing() {
    let shows = vec![show("Attack on Titan", "Shingeki no Kyojin", false)];
    let items = vec![item("x", "u", Some("Attack on Titan"), Some("01"))];
    let mut ledger = Ledger::new();
    let requests = run_cycle(&shows, &items, &mut ledger);
    assert_eq!(requests.len(), 0);
    assert_eq!(ledger.entries.len(), 0);
}

#[test]
fn match_is_exact_and_case_sensitive() {
    let shows = vec![show("Attack on Titan", "Shingeki no Kyojin", true)];
    let mut ledger = Ledger::new();
    // Case differs: no match under the exact policy.
    let items = vec![item("x", "u", Some("attack on titan"), Some("01"))];
    assert_eq!(run_cycle(&shows, &items, &mut ledger).len(), 0);
    // Romaji title matches too.
    let items = vec![item("x", "u", Some("Shingeki no Kyojin"), Some("01"))];
    let requests = run_cycle(&shows, &items, &mut ledger);
    assert_eq!(requests.len(), 1);
    assert_eq!(requests[0].title, "Shingeki no Kyojin");
}

#[test]
fn episode_already_on_ledger_is_not_downloaded_again() {
    let show_a = show("Jujutsu Kaisen", "Jujutsu Kaisen", true);
    let items = vec![item("x", "u", Some("Jujutsu Kaisen"), Some("05"))];
    let mut ledger = Ledger::new();
    ledger.record("Jujutsu Kaisen", "05");
    let requests = try_download(&items, &show_a, &mut ledger);
    assert_eq!(requests.len(), 0);
    assert_eq!(ledger.entries.len(), 1);
}

#[test]
fn duplicate_release_in_one_pass_downloads_once() {
    let show_a = show("Jujutsu Kaisen", "Jujutsu Kaisen", true);
    let items = vec![
        item("x", "u1", Some("Jujutsu Kaisen"), Some("05")),
        item("y", "u2", Some("Jujutsu Kaisen"), Some("05")),
        item("z", "u3", Some("Jujutsu Kaisen"), Some("06")),
    ];
    let mut ledger = Ledger::new();
    let requests = try_download(&items, &show_a, &mut ledger);
    assert_eq!(requests.len(), 2);
    assert_eq!(requests[0].url, "u1");
    assert_eq!(requests[1].url, "u3");
    assert!(ledger.has("Jujutsu Kaisen", "05"));
    assert!(ledger.has("Jujutsu Kaisen", "06"));
}

#[test]
fn matcher_returns_first_matching_show() {
    let shows = vec![
        show("Attack on Titan", "Shingeki no Kyojin", true),
        show("Jujutsu Kaisen", "Jujutsu Kaisen", true),
        show("Jujutsu Kaisen", "Jujutsu Kaisen 2", true),
    ];
    let release = item("x", "u", Some("Jujutsu Kaisen"), Some("05"));
    assert_eq!(match_release(&release, &shows), Some(1));
    let release = item("x", "u", Some("Shingeki no Kyojin"), Some("87"));
    assert_eq!(match_release(&release, &shows), Some(0));
    let release = item("x", "u", Some("Frieren"), Some("01"));
    assert_eq!(match_release(&release, &shows), None);
}

#[test]
fn feed_is_scanned_for_every_show() {
    let shows = vec![
        show("Jujutsu Kaisen", "Jujutsu Kaisen", true),
        show("Attack on Titan", "Shingeki no Kyojin", true),
    ];
    let items = vec![
        item("x", "u1", Some("Shingeki no Kyojin"), Some("87")),
        item("y", "u2", Some("Jujutsu Kaisen"), Some("05")),
    ];
    let mut ledger = Ledger::new();
    let requests = run_cycle(&shows, &items, &mut ledger);
    assert_eq!(requests.len(), 2);
    // Requests come show by show, in feed order within each show.
    assert_eq!(requests[0].title, "Jujutsu Kaisen");
    assert_eq!(requests[1].title, "Shingeki no Kyojin");
}
