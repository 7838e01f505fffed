use weeb_helper::anilist::{eligible_countdown, should_download, show_from_notification};

#[test]
fn countdown_strategy_threshold() {
    assert!(eligible_countdown(561600));
    assert!(!eligible_countdown(561599));
    assert!(eligible_countdown(561601));
}

#[test]
fn countdown_strategy_already_aired_is_eligible() {
    assert!(eligible_countdown(-100));
    assert!(eligible_countdown(-1));
    assert!(!eligible_countdown(0));
}

#[test]
fn freshness_strategy_threshold() {
    let current_time = 100000;
    assert!(should_download(current_time, current_time - 86400));
    assert!(!should_download(current_time, current_time - 86401));
    assert!(should_download(current_time, current_time));
}

#[test]
fn freshness_strategy_extreme_timestamps_do_not_overflow() {
    assert!(should_download(i64::MIN, i64::MAX));
    assert!(!should_download(i64::MAX, i64::MIN));
}

#[test]
fn show_from_notification_with_fresh_timestamp_is_eligible() {
    let show = show_from_notification(
        "Frieren: Beyond Journey's End".to_string(),
        "Sousou no Frieren".to_string(),
        Some(100000 - 86400),
        100000,
    );
    assert_eq!(show.title.english, "Frieren: Beyond Journey's End");
    assert_eq!(show.title.romaji, "Sousou no Frieren");
    assert!(show.should_download);
}

#[test]
fn show_from_notification_with_stale_timestamp_is_not_eligible() {
    let show = show_from_notification("A".to_string(), "B".to_string(), Some(0), 100000000);
    assert!(!show.should_download);
}

#[test]
fn show_from_notification_without_timestamp_is_not_eligible() {
    let show = show_from_notification("A".to_string(), "B".to_string(), None, 100000);
    assert!(!show.should_download);
}
