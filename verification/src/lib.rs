//! A small line-oriented text search library.
//!
//! Given a query and the full contents of a text, the library returns the
//! lines that contain the query, either with exact case or case-insensitively
//! (in which case each matching line is also trimmed of surrounding
//! whitespace). A companion configuration type resolves the query, the file
//! path and the matching mode from a list of argument tokens.

mod casefold;
mod config;
mod lines;
mod matching;
mod search;

pub use casefold::lower_of;
pub use casefold::trim_of;
pub use config::Config;
pub use config::ConfigError;
pub use lines::drop_trailing_cr;
pub use lines::lines_of;
pub use lines::newline_index;
pub use lines::split_lines;
pub use matching::contains_substring;
pub use matching::has_substring;
pub use matching::is_subsequence;
pub use matching::lemma_empty_needle;
pub use matching::lemma_filter_is_subsequence;
pub use matching::lemma_subsequence_membership;
pub use search::case_insensitive_search;
pub use search::insensitive_kept;
pub use search::insensitive_matches;
pub use search::lemma_empty_query_insensitive;
pub use search::lemma_empty_query_sensitive;
pub use search::lemma_insensitive_matches_sound;
pub use search::lemma_no_contents_no_matches;
pub use search::lemma_search_deterministic;
pub use search::lemma_sensitive_matches_sound;
pub use search::line_matches;
pub use search::line_matches_insensitive;
pub use search::search;
pub use search::sensitive_matches;
