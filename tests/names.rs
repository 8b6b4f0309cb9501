use tableau::chapter::{capitalize_first_letter, capitalize_with, chapter_file_path, extract_chapter_name, format_chapter_id};
use tableau::ids::{draw_icon_id, is_fresh_icon_id};

#[test]
fn chapter_name_from_record_file() {
    assert_eq!(extract_chapter_name("chapter_one.json"), Some("Chapter One".to_string()));
    assert_eq!(extract_chapter_name("chapter_7b.json"), Some("Chapter 7b".to_string()));
    assert_eq!(extract_chapter_name("chapter_.json"), Some("Chapter ".to_string()));
}

#[test]
fn other_files_have_no_chapter_name() {
    assert_eq!(extract_chapter_name("notes.txt"), None);
    assert_eq!(extract_chapter_name("chapter_one.txt"), None);
    assert_eq!(extract_chapter_name("chapterone.json"), None);
    assert_eq!(extract_chapter_name(""), None);
    assert_eq!(extract_chapter_name("Chapter_one.json"), None);
}

#[test]
fn capitalize_first_letter_upper_cases_the_first_character() {
    assert_eq!(capitalize_first_letter("hello"), "Hello");
    assert_eq!(capitalize_first_letter("Hello"), "Hello");
    assert_eq!(capitalize_first_letter("éclair"), "Éclair");
    assert_eq!(capitalize_first_letter("ßa"), "SSa");
    assert_eq!(capitalize_first_letter("1st"), "1st");
    assert_eq!(capitalize_first_letter(""), "");
}

#[test]
fn capitalize_with_replaces_the_first_character() {
    assert_eq!(capitalize_with("hello", "J"), "Jello");
    assert_eq!(capitalize_with("a", "XY"), "XY");
    assert_eq!(capitalize_with("", "X"), "");
}

#[test]
fn chapter_id_becomes_lower_case_path() {
    assert_eq!(format_chapter_id("Intro"), "../tableau/chapters/chapter_intro.json");
    assert_eq!(format_chapter_id("ABC"), "../tableau/chapters/chapter_abc.json");
    assert_eq!(format_chapter_id(""), "../tableau/chapters/chapter_.json");
    assert_eq!(chapter_file_path("Mixed"), "../tableau/chapters/chapter_Mixed.json");
}

#[test]
fn drawn_icon_id_is_ten_alphanumerics() {
    let id = draw_icon_id(&vec![], 1).unwrap();
    assert_eq!(id.chars().count(), 10);
    assert!(id.chars().all(|c| c.is_ascii_alphanumeric()));
}

#[test]
fn drawn_icon_id_avoids_existing_ones() {
    let existing = vec!["abcdefghij".to_string(), "0123456789".to_string()];
    let id = draw_icon_id(&existing, 5).unwrap();
    assert!(!existing.contains(&id));
}

#[test]
fn freshness_compares_whole_identifiers() {
    let existing = vec!["abcdefghij".to_string()];
    assert!(!is_fresh_icon_id(&existing, "abcdefghij"));
    assert!(is_fresh_icon_id(&existing, "abcdefghi"));
    assert!(is_fresh_icon_id(&existing, "Abcdefghij"));
    assert!(is_fresh_icon_id(&vec![], "x"));
}

#[test]
fn no_draws_give_no_icon_id() {
    assert_eq!(draw_icon_id(&vec![], 0), None);
}
