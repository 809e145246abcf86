use easy_read::commands::search::{
    find_case_insensitive_matches, fold_for_search, search_book, search_chapters,
};
use easy_read::state::ChapterText;

#[test]
fn reports_original_offsets_after_expanding_unicode_lowercase() {
    let text = "Intro İstanbul has extra lowercase bytes. Target lands later.".to_string();
    let expected_offset = text.find("Target").unwrap();
    let results = search_chapters(
        vec![ChapterText {
            index: 0,
            title: Some("Unicode".to_string()),
            plain_text: text,
        }],
        "target".to_string(),
    );

    assert_eq!(results.len(), 1);
    assert_eq!(results[0].offset, expected_offset);
    assert!(results[0].snippet.contains("Target lands later"));
}

#[test]
fn keeps_ascii_case_insensitive_non_overlapping_behavior() {
    let results = search_chapters(
        vec![ChapterText {
            index: 0,
            title: None,
            plain_text: "Banana banana BANANA".to_string(),
        }],
        "ana".to_string(),
    );

    assert_eq!(
        results.iter().map(|r| r.offset).collect::<Vec<_>>(),
        vec![1, 8, 15]
    );
}

fn chapter(index: usize, text: &str) -> ChapterText {
    ChapterText { index, title: Some(format!("C{index}")), plain_text: text.to_string() }
}

#[test]
fn folds_unicode_case() {
    assert_eq!(fold_for_search("ÀB İ"), "àb i\u{307}");
    assert_eq!(fold_for_search(""), "");
}

#[test]
fn match_spans_are_ordered_and_disjoint() {
    assert_eq!(find_case_insensitive_matches("aaaa", "aa"), vec![(0, 2), (2, 4)]);
    assert_eq!(find_case_insensitive_matches("xAAy", "aa"), vec![(1, 3)]);
    assert!(find_case_insensitive_matches("xAAy", "zz").is_empty());
    assert_eq!(find_case_insensitive_matches("é É", "é"), vec![(0, 2), (3, 5)]);
    assert_eq!(find_case_insensitive_matches("İx", "i\u{307}"), vec![(0, 2)]);
}

#[test]
fn search_stops_at_thirty_results_across_chapters() {
    let many = "x ".repeat(20);
    let results = search_chapters(vec![chapter(0, &many), chapter(1, &many)], "X".to_string());
    assert_eq!(results.len(), 30);
    assert!(results[..20].iter().all(|r| r.chapter_index == 0));
    assert!(results[20..].iter().all(|r| r.chapter_index == 1));
    assert_eq!(results[20].offset, 0);
    assert_eq!(results[21].offset, 2);
    assert_eq!(results[20].chapter_title.as_deref(), Some("C1"));
}

#[test]
fn snippets_take_sixty_bytes_of_context() {
    let text = format!("{}needle{}", "a".repeat(100), "b".repeat(100));
    let results = search_chapters(vec![chapter(3, &text)], "NEEDLE".to_string());
    assert_eq!(results.len(), 1);
    assert_eq!(results[0].offset, 100);
    assert_eq!(results[0].snippet, format!("{}needle{}", "a".repeat(60), "b".repeat(60)));
    let short = search_chapters(vec![chapter(0, "a needle b")], "needle".to_string());
    assert_eq!(short[0].snippet, "a needle b");
}

#[test]
fn snippets_widen_to_character_boundaries() {
    let text = format!("aé{}needle", "a".repeat(59));
    let results = search_chapters(vec![chapter(0, &text)], "needle".to_string());
    assert_eq!(results[0].offset, 62);
    assert!(results[0].snippet.starts_with('é'));
}

#[test]
fn blank_queries_find_nothing() {
    let chapters = vec![chapter(0, "a b c")];
    assert!(search_book(chapters.clone(), "   ".to_string()).is_empty());
    assert!(search_chapters(chapters.clone(), String::new()).is_empty());
    assert_eq!(search_book(chapters, " b ".to_string()).len(), 1);
}
