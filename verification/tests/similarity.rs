use weeb_helper::string_distance::{calc_similarity, clean_string, get_distance, str_eq};

fn percent(parts: (usize, usize)) -> f64 {
    100.0 * (1.0 - parts.0 as f64 / parts.1 as f64)
}

#[test]
fn normalize_strips_punctuation_space_and_case() {
    assert_eq!(clean_string("Kimetsu no Yaiba: S2"), "kimetsunoyaibas2");
}

#[test]
fn normalize_of_all_punctuation_is_empty() {
    assert_eq!(clean_string("!!! ... ???"), "");
    assert_eq!(clean_string(""), "");
}

#[test]
fn normalize_keeps_digits_and_letters_only() {
    assert_eq!(clean_string("Attack on Titan!!"), "attackontitan");
    assert_eq!(clean_string("86—Eighty Six—"), "86eightysix");
}

#[test]
fn similarity_of_a_string_with_itself_is_full() {
    for s in ["AttackonTitan", "JujutsuKaisen", "a", "SpyxFamily 2"] {
        let parts = calc_similarity(s, s);
        assert_eq!(parts.0, 0);
        assert_eq!(percent(parts), 100.0);
    }
}

#[test]
fn similarity_is_symmetric() {
    let pairs = [
        ("Attack on Titan", "Attack on Titan Final Season"),
        ("Kimetsu no Yaiba", "Demon Slayer"),
        ("", "Frieren"),
        ("One Piece", "One Piece"),
    ];
    for (a, b) in pairs {
        assert_eq!(calc_similarity(a, b), calc_similarity(b, a));
        let ab = calc_similarity(a, b);
        let ba = calc_similarity(b, a);
        if ab.1 > 0 {
            assert_eq!(percent(ab), percent(ba));
        }
    }
}

#[test]
fn similarity_ignores_punctuation_case_and_spacing() {
    let parts = calc_similarity("Attack on Titan", "ATTACK ON TITAN!!");
    assert_eq!(parts.0, 0);
    assert_eq!(percent(parts), 100.0);
}

#[test]
fn distance_exact_values() {
    assert_eq!(get_distance("kitten", "sitting"), 3);
    assert_eq!(get_distance("flaw", "lawn"), 2);
    assert_eq!(get_distance("abc", "abc"), 0);
}

#[test]
fn distance_against_empty_is_the_other_length() {
    assert_eq!(get_distance("", "abc"), 3);
    assert_eq!(get_distance("abc", ""), 3);
    assert_eq!(get_distance("", ""), 0);
}

#[test]
fn similarity_partial_overlap() {
    // normalized: "abcd" vs "abc" -> distance 1, max length 4 -> 75 percent.
    let parts = calc_similarity("a b c d", "A-B-C!");
    assert_eq!(parts, (1, 4));
    assert_eq!(percent(parts), 75.0);
}

#[test]
fn str_eq_is_exact_and_case_sensitive() {
    assert!(str_eq("Jujutsu Kaisen", "Jujutsu Kaisen"));
    assert!(!str_eq("Jujutsu Kaisen", "jujutsu kaisen"));
    assert!(!str_eq("abc", "abcd"));
    assert!(str_eq("", ""));
}
