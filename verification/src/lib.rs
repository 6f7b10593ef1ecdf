//! A minimal line-oriented text search library: given a query string and a
//! body of text, it returns every line that contains the query, tagged with
//! its 1-based line number and with leading whitespace stripped.
//!
//! The searching itself is pure and verified; opening a source, reading its
//! lines and printing the matches are left to the surrounding program, which
//! hands the library plain strings and gets plain values back.

mod config;
mod engine;
mod render;

pub use config::Config;
pub use config::ConfigError;
pub use engine::SearchResult;
pub use engine::contains_seq;
pub use engine::contains_substring;
pub use engine::find_newline;
pub use engine::lemma_find_newline_at;
pub use engine::lemma_find_newline_range;
pub use engine::is_space;
pub use engine::is_space_char;
pub use engine::lemma_contains_empty;
pub use engine::lemma_search_empty_query;
pub use engine::lemma_search_line_numbers;
pub use engine::lemma_search_no_match;
pub use engine::lemma_search_order;
pub use engine::lemma_trim_start_leading_only;
pub use engine::lines_spec;
pub use engine::match_at;
pub use engine::matches_of;
pub use engine::opt_views;
pub use engine::search;
pub use engine::search_lines;
pub use engine::search_spec;
pub use engine::some_lines;
pub use engine::split_lines;
pub use engine::str_views;
pub use engine::trim_start_owned;
pub use engine::trim_start_spec;
pub use render::dec_str;
pub use render::render_result;
pub use render::rendered;
pub use render::run_lines;
