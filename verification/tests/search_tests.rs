use std::time::Instant;
use symiosis::index::{NoteRecord, NotesIndex};
use symiosis::search::{
    count_occurrences, rank_candidates, score_content_match, score_title_match, search_notes_hybrid,
    MatchType, SearchCandidate,
};
use symiosis::strings::sanitize_fts_query;
use symiosis::text::chars_of;

fn record(name: &str, content: &str, modified: i64) -> NoteRecord {
    NoteRecord {
        filename: name.to_string(),
        content: content.to_string(),
        html_render: String::new(),
        modified,
        is_indexed: false,
    }
}

fn sample_index() -> NotesIndex {
    let mut index = NotesIndex::new();
    index.upsert(record("test_note.md", "# Test note\nsome content about testing", 100));
    index.upsert(record("markdown-guide.md", "# Markdown\nhow to write markdown files", 200));
    index.upsert(record("shopping.txt", "milk, eggs, bread", 300));
    index.upsert(record("ideas.md", "a note on file formats and the content of notes", 50));
    index
}

fn fts_query_sanitization() {
    let special_chars = vec!["test\"quote", "test(paren", "test*wildcard", "test AND operator", "test: colon"];
    let index = sample_index();

    for query in special_chars {
        let result = search_notes_hybrid(&index, query, 10);

        match result {
            Ok(_) => {}
            Err(error) => {
                assert!(
                    !error.message().to_lowercase().contains("syntax error"),
                    "Query resulted in SQL syntax error: {} for input: {}",
                    error.message(),
                    query
                );
            }
        }
    }
}

fn fts_parameter_safety() {
    let dangerous_inputs = vec![
        "'; DROP TABLE notes; --",
        "' UNION SELECT * FROM sqlite_master --",
        "\"; DELETE FROM notes; --",
        "test'; INSERT INTO notes VALUES ('hack'); --",
    ];
    let index = sample_index();

    for dangerous_input in dangerous_inputs {
        let result = search_notes_hybrid(&index, dangerous_input, 10);

        match result {
            Ok(_) => {}
            Err(error) => {
                let error_lower = error.message().to_lowercase();
                assert!(
                    !error_lower.contains("table") || error_lower.contains("fts"),
                    "Unexpected error type: {}",
                    error.message()
                );
            }
        }
    }
}

#[test]
fn tests_test_fts_query_sanitization() {
    fts_query_sanitization();
}

#[test]
fn search_test_fts_query_sanitization() {
    fts_query_sanitization();
}

#[test]
fn tests_test_fts_parameter_safety() {
    fts_parameter_safety();
}

#[test]
fn search_test_fts_parameter_safety() {
    fts_parameter_safety();
}

#[test]
fn test_search_performance_baseline() {
    let test_queries = vec!["test", "note", "content", "markdown", "file"];
    let index = sample_index();

    for query in test_queries {
        let start = Instant::now();
        let result = search_notes_hybrid(&index, query, 100);
        let duration = start.elapsed();

        assert!(duration.as_millis() < 1000, "Search for '{}' took too long: {}ms", query, duration.as_millis());
        assert!(result.is_ok(), "Search for '{}' should not error", query);
    }
}

#[test]
fn test_search_performance_with_limits() {
    let query = "test";
    let limits = vec![1, 10, 100, 1000];
    let index = sample_index();

    for limit in limits {
        let start = Instant::now();
        let result = search_notes_hybrid(&index, query, limit);
        let duration = start.elapsed();

        assert!(duration.as_millis() < 2000, "Search with limit {} took too long: {}ms", limit, duration.as_millis());

        match result {
            Ok(results) => {
                assert!(
                    results.len() <= limit,
                    "Search returned more results ({}) than requested ({})",
                    results.len(),
                    limit
                );
            }
            Err(e) => {
                panic!("Search with limit {} failed: {}", limit, e.message());
            }
        }
    }
}

#[test]
fn test_search_performance_stress_queries() {
    let stress_queries = vec!["a", "the", "aaaaaa", "test AND note", ""];
    let index = sample_index();

    for query in stress_queries {
        let start = Instant::now();
        let result = search_notes_hybrid(&index, query, 50);
        let duration = start.elapsed();

        assert!(duration.as_millis() < 3000, "Stress query '{}' took too long: {}ms", query, duration.as_millis());

        match result {
            Ok(_) => {}
            Err(e) => {
                let error_msg = e.message().to_lowercase();
                assert!(
                    !error_msg.contains("panic") && !error_msg.contains("crash"),
                    "Search error for '{}' indicates system failure: {}",
                    query,
                    e.message()
                );
            }
        }
    }
}

#[test]
fn blank_query_lists_most_recent_first() {
    let index = sample_index();
    let r = search_notes_hybrid(&index, "   ", 2).unwrap();
    assert_eq!(r, vec!["shopping.txt".to_string(), "markdown-guide.md".to_string()]);
    let all = search_notes_hybrid(&index, "", 10).unwrap();
    assert_eq!(all.len(), 4);
    assert_eq!(all[3], "ideas.md");
}

#[test]
fn exact_title_ranks_before_prefix_and_content() {
    let index = sample_index();
    let r = search_notes_hybrid(&index, "markdown", 10).unwrap();
    assert_eq!(r[0], "markdown-guide.md");
    let r = search_notes_hybrid(&index, "test note", 10).unwrap();
    assert_eq!(r[0], "test_note.md");
}

#[test]
fn search_without_candidates_is_empty() {
    let index = sample_index();
    let r = search_notes_hybrid(&index, "zzzzqqq", 10).unwrap();
    assert!(r.is_empty());
    let r = search_notes_hybrid(&index, "AND OR NOT", 10).unwrap();
    assert!(r.is_empty());
}

#[test]
fn title_scores_follow_the_kinds_of_match() {
    assert_eq!(score_title_match("notes", "notes.md", "notes"), Some((1100, MatchType::ExactTitle)));
    assert_eq!(score_title_match("notes app", "x.md", "notes"), Some((900, MatchType::PrefixTitle)));
    assert_eq!(score_title_match("my notes", "x.md", "notes"), Some((800, MatchType::PrefixTitle)));
    assert_eq!(score_title_match("zzz", "notes.md", "notes"), Some((850, MatchType::PrefixTitle)));
    assert_eq!(score_title_match("zzz", "my_notes.md", "notes"), Some((750, MatchType::PrefixTitle)));
}

#[test]
fn content_score_counts_matches() {
    assert_eq!(score_content_match("a cat and a cat", "cat"), Some(70));
    assert_eq!(score_content_match("aaaa", "aa"), Some(70));
    assert_eq!(count_occurrences(&chars_of("aaaa"), &chars_of("aa")), 2);
    assert_eq!(count_occurrences(&chars_of("abc"), &chars_of("")), 4);
}

#[test]
fn ranking_orders_by_kind_score_time_title() {
    let cand = |f: &str, t: &str, m: i64, c: &str| SearchCandidate {
        filename: f.to_string(),
        title: t.to_string(),
        modified: m,
        title_lower: t.to_lowercase(),
        filename_lower: f.to_lowercase(),
        content_lower: c.to_lowercase(),
    };
    let cands = vec![
        cand("b.md", "Beta", 10, "word word"),
        cand("a.md", "Alpha", 10, "word word"),
        cand("word.md", "Word", 5, ""),
        cand("c.md", "Gamma", 20, "word word"),
    ];
    let r = rank_candidates(&cands, "word", 10);
    assert_eq!(r, vec!["word.md", "c.md", "a.md", "b.md"]);
    let r = rank_candidates(&cands, "word", 2);
    assert_eq!(r, vec!["word.md", "c.md"]);
}

#[test]
fn sanitizing_drops_operators_and_punctuation() {
    assert_eq!(sanitize_fts_query("test AND operator"), "test operator");
    assert_eq!(sanitize_fts_query("test\"quote"), "testquote");
    assert_eq!(sanitize_fts_query("*"), "");
    assert_eq!(sanitize_fts_query("test*wildcard"), "test*wildcard");
    assert_eq!(sanitize_fts_query("not Near match"), "");
}

#[test]
fn sanitizer_keeps_letters_of_any_script_and_drops_operators_in_any_case() {
    assert_eq!(sanitize_fts_query("café ünïcödé"), "café ünïcödé");
    assert_eq!(sanitize_fts_query("cats and dogs"), "cats dogs");
    assert_eq!(sanitize_fts_query("x Or y nEaR z"), "x y z");
}

#[test]
fn upper_case_queries_find_lower_case_titles() {
    let index = sample_index();
    let results = search_notes_hybrid(&index, "MARKDOWN", 10).unwrap();
    assert_eq!(results[0], "markdown-guide.md");
    let by_content = search_notes_hybrid(&index, "EGGS", 10).unwrap();
    assert_eq!(by_content, vec!["shopping.txt".to_string()]);
}
