use recall::context::{context_window, find_word_index, split_words};
use recall::highlight::{highlight_lowered, highlight_query_in_context, Highlighted};
use recall::locate::find_match_positions;
use recall::render::{
    context_excerpt, excerpts_at, no_results_message, render_result, render_search_results,
    search_excerpts, tag_info, Report, SearchResult,
};
use recall::text::match_at;

fn parts(h: &Highlighted) -> (String, String, String) {
    match h {
        Highlighted::Marked { prefix, matched, suffix } => {
            (prefix.clone(), matched.clone(), suffix.clone())
        }
        Highlighted::Plain(t) => panic!("expected a mark in {:?}", t),
    }
}

fn plain(h: &Highlighted) -> String {
    match h {
        Highlighted::Plain(t) => t.clone(),
        Highlighted::Marked { .. } => panic!("expected plain text"),
    }
}

fn result(id: i32, content: &str, created_at: &str) -> SearchResult {
    SearchResult {
        id,
        url: format!("https://example.com/{}", id),
        title: format!("Page {}", id),
        tags: String::new(),
        content: content.to_string(),
        saved_path: format!("/saved/{}", id),
        created_at: created_at.to_string(),
    }
}

#[test]
fn repeated_char_offsets_overlap() {
    assert_eq!(find_match_positions("aaaa", "a", false), vec![0, 1, 2, 3]);
    assert_eq!(find_match_positions("bbbbbbb", "b", false), vec![0, 1, 2, 3, 4, 5, 6]);
    assert_eq!(find_match_positions("x", "x", false), vec![0]);
}

#[test]
fn overlapping_multichar_occurrences() {
    assert_eq!(find_match_positions("aaaa", "aa", false), vec![0, 1, 2]);
    assert_eq!(find_match_positions("abab", "ab", false), vec![0, 2]);
    assert_eq!(find_match_positions("", "a", false), Vec::<usize>::new());
    assert_eq!(find_match_positions("a", "ab", false), Vec::<usize>::new());
}

#[test]
fn whole_word_excludes_inner_match() {
    assert_eq!(find_match_positions("cat category cat", "cat", true), vec![0, 13]);
}

#[test]
fn substring_includes_inner_match() {
    assert_eq!(find_match_positions("cat category cat", "cat", false), vec![0, 4, 13]);
}

#[test]
fn whole_word_escapes_meta_characters() {
    assert_eq!(find_match_positions("a.b axb a.b", "a.b", true), vec![0, 8]);
    assert_eq!(find_match_positions("x (y) z", "(y)", false), vec![2]);
}

#[test]
fn whole_word_on_punctuation_boundaries() {
    assert_eq!(find_match_positions("cat, cat. cats", "cat", true), vec![0, 5]);
}

#[test]
fn match_at_checks_every_byte() {
    assert!(match_at(b"hello", b"ll", 2));
    assert!(!match_at(b"hello", b"ll", 3));
    assert!(!match_at(b"hello", b"lo", 4));
    assert!(match_at(b"hello", b"", 5));
}

#[test]
fn words_split_on_runs_of_whitespace() {
    assert_eq!(split_words(b"  ab  c\td\n"), vec![(2, 4), (6, 7), (8, 9)]);
    assert_eq!(split_words(b""), Vec::<(usize, usize)>::new());
    assert_eq!(split_words(b"   "), Vec::<(usize, usize)>::new());
}

#[test]
fn words_split_on_vertical_tab() {
    assert_eq!(split_words(b"a\x0bb"), vec![(0, 1), (2, 3)]);
    let w = context_window("x\x0by", 0, 10);
    assert_eq!(w.text, "x y");
}

#[test]
fn whole_word_excerpts_follow_regex_matches() {
    let ex = search_excerpts("cat category CAT", "Cat", true);
    assert_eq!(ex.len(), 2);
    let (_, m, _) = parts(&ex[1].text);
    assert_eq!(m, "cat");
    assert!(search_excerpts("category", "cat", true).is_empty());
}

#[test]
fn word_index_accumulates_length_plus_one() {
    let words = split_words(b"one two three");
    assert_eq!(find_word_index(&words, 0), 0);
    assert_eq!(find_word_index(&words, 1), 1);
    assert_eq!(find_word_index(&words, 4), 1);
    assert_eq!(find_word_index(&words, 5), 2);
    assert_eq!(find_word_index(&words, 8), 2);
    assert_eq!(find_word_index(&words, 9), 3);
    assert_eq!(find_word_index(&words, 100), 3);
}

#[test]
fn short_document_is_not_truncated() {
    let doc = "alpha beta gamma delta epsilon";
    for pos in [0usize, 6, 11, 17, 24, 29, 500] {
        let w = context_window(doc, pos, 10);
        assert!(!w.truncated_start);
        assert!(!w.truncated_end);
        assert_eq!(w.text, doc);
    }
}

#[test]
fn long_document_midpoint_is_truncated_both_ends() {
    let words: Vec<String> = (0..30).map(|i| format!("w{:02}", i)).collect();
    let doc = words.join(" ");
    let pos = doc.find("w15").unwrap();
    let w = context_window(&doc, pos, 10);
    assert!(w.truncated_start);
    assert!(w.truncated_end);
    assert_eq!(w.text, words[5..26].join(" "));
}

#[test]
fn window_joins_with_single_spaces() {
    let w = context_window("a  b\tc\n\nd", 0, 1);
    assert_eq!(w.text, "a b");
    assert!(!w.truncated_start);
    assert!(w.truncated_end);
}

#[test]
fn window_past_end_clamps() {
    let w = context_window("a b c", 1000, 1);
    assert_eq!(w.text, "c");
    assert!(w.truncated_start);
    assert!(!w.truncated_end);
}

#[test]
fn window_on_empty_document() {
    let w = context_window("", 0, 10);
    assert_eq!(w.text, "");
    assert!(!w.truncated_start);
    assert!(!w.truncated_end);
}

#[test]
fn highlight_keeps_source_casing() {
    let h = highlight_query_in_context("the Cat sat", "cat");
    let (p, m, s) = parts(&h);
    assert_eq!(p, "the ");
    assert_eq!(m, "Cat");
    assert_eq!(s, " sat");
}

#[test]
fn highlight_marks_first_occurrence() {
    let h = highlight_query_in_context("CAT cat", "Cat");
    let (p, m, s) = parts(&h);
    assert_eq!(p, "");
    assert_eq!(m, "CAT");
    assert_eq!(s, " cat");
}

#[test]
fn highlight_without_match_is_plain_and_idempotent() {
    let first = highlight_query_in_context("nothing here", "cat");
    let text = plain(&first);
    assert_eq!(text, "nothing here");
    let second = highlight_query_in_context(&text, "cat");
    assert_eq!(plain(&second), text);
}

#[test]
fn highlight_span_off_char_boundary_stays_plain() {
    let h = highlight_lowered("é", "xa", "a", 1);
    assert_eq!(plain(&h), "é");
    let h = highlight_lowered("ab", "ab", "b", 5);
    assert_eq!(plain(&h), "ab");
}

#[test]
fn excerpt_carries_ellipsis_flags() {
    let words: Vec<String> = (0..30).map(|i| format!("w{}", i)).collect();
    let doc = words.join(" ");
    let pos = doc.find("w15").unwrap();
    let e = context_excerpt(&doc, pos, "W15", 10);
    assert!(e.truncated_start);
    assert!(e.truncated_end);
    let (p, m, _) = parts(&e.text);
    assert_eq!(m, "w15");
    assert!(p.starts_with("w5 "));
}

#[test]
fn excerpts_capped_at_five() {
    let positions: Vec<usize> = (0..8).collect();
    let ex = excerpts_at("a a a a a a a a", "a", &positions);
    assert_eq!(ex.len(), 5);
    let ex = excerpts_at("a a", "a", &vec![0, 2]);
    assert_eq!(ex.len(), 2);
}

#[test]
fn search_excerpts_case_insensitive_and_capped() {
    let content = "Cat cat CAT cAt caT cat cat";
    let ex = search_excerpts(content, "CAT", false);
    assert_eq!(ex.len(), 5);
    let (_, m, _) = parts(&ex[0].text);
    assert_eq!(m, "Cat");
    assert!(search_excerpts("dog", "cat", false).is_empty());
    assert!(search_excerpts("dog", "", false).is_empty());
}

#[test]
fn search_excerpts_whole_word_mode() {
    let ex = search_excerpts("category cat", "cat", true);
    assert_eq!(ex.len(), 1);
    assert!(!ex[0].truncated_start);
}

#[test]
fn empty_result_set_gives_one_message() {
    let tags = vec!["rust".to_string(), "web".to_string()];
    match render_search_results(&vec![], "needle", "http://s", &tags, false) {
        Report::NoResults { query, tag_info } => {
            assert_eq!(query, "needle");
            assert_eq!(tag_info, " with tags [rust, web]");
        }
        Report::Results { .. } => panic!("expected the no-results message"),
    }
    assert_eq!(
        no_results_message("needle", &tags),
        "No results found for query: needle with tags [rust, web]"
    );
    assert_eq!(no_results_message("needle", &vec![]), "No results found for query: needle");
    assert_eq!(tag_info(&vec![]), "");
    assert_eq!(tag_info(&vec!["one".to_string()]), " with tags [one]");
}

#[test]
fn seven_results_render_reversed_with_at_most_five_excerpts() {
    let content = "hit hit hit hit hit hit hit hit hit";
    let results: Vec<SearchResult> =
        (1..=7).map(|i| result(i, content, "2024-01-15T10:30:00.123456")).collect();
    match render_search_results(&results, "hit", "http://s", &vec![], false) {
        Report::Results { rendered, failure } => {
            assert!(failure.is_none());
            let ids: Vec<i32> = rendered.iter().map(|r| r.id).collect();
            assert_eq!(ids, vec![7, 6, 5, 4, 3, 2, 1]);
            for r in &rendered {
                assert_eq!(r.excerpts.len(), 5);
            }
        }
        Report::NoResults { .. } => panic!("expected results"),
    }
}

#[test]
fn render_result_header_fields() {
    let r = result(42, "some text with a needle inside", "2024-03-05 07:08:09.5");
    let v = render_result(&r, "needle", "http://localhost:8000", false).ok().unwrap();
    assert_eq!(v.timestamp, "2024-03-05 07:08:09");
    assert_eq!(v.id, 42);
    assert_eq!(v.url, "https://example.com/42");
    assert_eq!(v.title, "Page 42");
    assert_eq!(v.page_url, "http://localhost:8000/page/42");
    assert_eq!(v.excerpts.len(), 1);
}

#[test]
fn unreadable_timestamp_stops_rendering() {
    let results = vec![
        result(1, "x", "2024-01-01T00:00:00"),
        result(2, "x", "yesterday"),
        result(3, "x", "2024-01-03T00:00:00.1"),
    ];
    assert!(render_result(&results[1], "x", "s", false).is_err());
    match render_search_results(&results, "x", "s", &vec![], false) {
        Report::Results { rendered, failure } => {
            assert_eq!(rendered.len(), 1);
            assert_eq!(rendered[0].id, 3);
            assert!(failure.is_some());
        }
        Report::NoResults { .. } => panic!("expected results"),
    }
}
