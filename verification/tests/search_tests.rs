use rustgrep::search;
use rustgrep::search_lines;
use rustgrep::split_lines;
use rustgrep::SearchResult;

#[test]
fn one_result() {
    let query = "duct";
    let contents = "Rust:\nsafe, fast, productive\nPick Three.";

    assert_eq!(
        vec![SearchResult {
            line_number: 2,
            contents: String::from("safe, fast, productive"),
        }],
        search(query, contents)
    );
}

#[test]
fn no_match_yields_empty() {
    let contents = "Rust:\nsafe, fast, productive\nPick Three.";
    assert!(search("monomorphization", contents).is_empty());
}

#[test]
fn empty_query_returns_every_line_trimmed() {
    let results = search("", "  alpha\nbeta\n\tgamma stays  ");
    assert_eq!(results.len(), 3);
    assert_eq!(results[0].line_number, 1);
    assert_eq!(results[0].contents, "alpha");
    assert_eq!(results[1].line_number, 2);
    assert_eq!(results[1].contents, "beta");
    assert_eq!(results[2].line_number, 3);
    assert_eq!(results[2].contents, "gamma stays  ");
}

#[test]
fn empty_text_has_no_lines() {
    assert!(search("x", "").is_empty());
    assert!(search("", "").is_empty());
}

#[test]
fn line_numbers_count_all_lines() {
    let contents = "Rust:\nsafe, fast, productive\nPick Three.\nTrust me.\n";
    let results = search("ust", contents);
    assert_eq!(results.len(), 2);
    assert_eq!(results[0].line_number, 1);
    assert_eq!(results[0].contents, "Rust:");
    assert_eq!(results[1].line_number, 4);
    assert_eq!(results[1].contents, "Trust me.");
}

#[test]
fn matching_is_case_sensitive() {
    let contents = "Rust:\nsafe, fast, productive\nPick Three.\nTrust me.\n";

    let capital = search("Rust", contents);
    assert_eq!(capital.len(), 1);
    assert_eq!(capital[0].line_number, 1);

    let lower = search("rust", contents);
    assert_eq!(lower.len(), 1);
    assert_eq!(lower[0].line_number, 4);
}

#[test]
fn results_keep_original_order() {
    let contents = "one match\nnothing here\nmatch again\nstill nothing\na third match";
    let results = search("match", contents);
    let numbers: Vec<usize> = results.iter().map(|r| r.line_number).collect();
    assert_eq!(numbers, vec![1, 3, 5]);
    for pair in numbers.windows(2) {
        assert!(pair[0] < pair[1]);
    }
}

#[test]
fn only_leading_whitespace_is_trimmed() {
    let results = search("keep", " \t keep  inner\t and trailing \t ");
    assert_eq!(results.len(), 1);
    assert_eq!(results[0].contents, "keep  inner\t and trailing \t ");
}

#[test]
fn blank_lines_and_final_newline() {
    assert_eq!(split_lines("a\n\nb\n"), vec!["a", "", "b"]);
    assert_eq!(split_lines(""), Vec::<String>::new());
    assert_eq!(split_lines("\n"), vec![""]);
    assert_eq!(split_lines("no newline"), vec!["no newline"]);
}

#[test]
fn unreadable_lines_are_skipped_but_keep_their_number() {
    let lines = vec![
        Some(String::from("first stub")),
        None,
        Some(String::from("third stub")),
    ];
    let results = search_lines("stub", &lines);
    assert_eq!(results.len(), 2);
    assert_eq!(results[0].line_number, 1);
    assert_eq!(results[0].contents, "first stub");
    assert_eq!(results[1].line_number, 3);
    assert_eq!(results[1].contents, "third stub");
}

#[test]
fn unreadable_lines_never_match_even_the_empty_query() {
    let lines = vec![Some(String::from("a")), None, Some(String::from("b"))];
    let results = search_lines("", &lines);
    assert_eq!(results.len(), 2);
    assert_eq!(results[0].line_number, 1);
    assert_eq!(results[1].line_number, 3);
}

#[test]
fn search_result_equality_needs_both_fields() {
    let a = SearchResult { line_number: 1, contents: String::from("x") };
    let b = SearchResult { line_number: 1, contents: String::from("x") };
    let c = SearchResult { line_number: 2, contents: String::from("x") };
    let d = SearchResult { line_number: 1, contents: String::from("y") };
    assert_eq!(a, b);
    assert_ne!(a, c);
    assert_ne!(a, d);
}
