use rustgrep::render_result;
use rustgrep::run_lines;
use rustgrep::SearchResult;

#[test]
fn end_to_end_poem() {
    let text = "Rust:\nsafe, fast, productive\nPick Three.\nTrust me.\n";
    let out = run_lines("poem.txt", "ust", text);
    assert_eq!(out, vec!["poem.txt:1 Rust:", "poem.txt:4 Trust me."]);
}

#[test]
fn no_match_prints_nothing() {
    let out = run_lines("poem.txt", "python", "Rust:\nsafe, fast, productive\n");
    assert!(out.is_empty());
}

#[test]
fn single_result_line_format() {
    let result = SearchResult { line_number: 7, contents: String::from("hello  there ") };
    assert_eq!(render_result("notes.md", &result), "notes.md:7 hello  there ");
}

#[test]
fn multi_digit_line_numbers() {
    let result = SearchResult { line_number: 1203, contents: String::from("x") };
    assert_eq!(render_result("f", &result), "f:1203 x");

    let text = "-\n-\n-\n-\n-\n-\n-\n-\n-\n-\n-\nneedle here";
    let out = run_lines("big", "needle", text);
    assert_eq!(out, vec!["big:12 needle here"]);
}

#[test]
fn line_number_zero_renders_as_zero() {
    let result = SearchResult { line_number: 0, contents: String::new() };
    assert_eq!(render_result("s", &result), "s:0 ");
}
