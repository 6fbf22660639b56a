use minigrep::case_insensitive_search;
use minigrep::search;

#[test]
fn one_result() {
    let query = "duct";
    let contents = "\
Rust:
safe, fast, productive.
Pick three.";
    assert_eq!(vec!["safe, fast, productive."], search(query, contents));
}

#[test]
fn case_insensitive() {
    let query = "RuSt";
    let contents = "\
Rust:
safe, fast, productive.
Pick three.
Trust me";
    assert_eq!(vec!["Rust:", "Trust me"], case_insensitive_search(query, contents));
}

#[test]
fn empty_query_returns_every_line() {
    let contents = "first\nsecond\nthird";
    assert_eq!(vec!["first", "second", "third"], search("", contents));
}

#[test]
fn empty_query_returns_every_line_trimmed() {
    let contents = "  first \nsecond\n\tthird\t";
    assert_eq!(
        vec!["first", "second", "third"],
        case_insensitive_search("", contents)
    );
}

#[test]
fn empty_contents_yield_nothing() {
    assert_eq!(Vec::<&str>::new(), search("anything", ""));
    assert_eq!(Vec::<&str>::new(), case_insensitive_search("anything", ""));
    assert_eq!(Vec::<&str>::new(), search("", ""));
    assert_eq!(Vec::<&str>::new(), case_insensitive_search("", ""));
}

#[test]
fn no_match_yields_nothing() {
    let contents = "alpha\nbeta";
    assert_eq!(Vec::<&str>::new(), search("gamma", contents));
    assert_eq!(Vec::<&str>::new(), case_insensitive_search("gamma", contents));
}

#[test]
fn exact_case_only() {
    let contents = "Rust\nrust\nRUST";
    assert_eq!(vec!["rust"], search("rust", contents));
}

#[test]
fn crlf_breaks_lines_too() {
    let contents = "first\r\nsecond\nthird";
    assert_eq!(vec!["first", "third"], search("ir", contents));
    assert_eq!(vec!["first"], search("first", contents));
}

#[test]
fn lone_carriage_return_stays_in_line() {
    let contents = "a\rb\nc";
    assert_eq!(vec!["a\rb"], search("a\rb", contents));
}

#[test]
fn trailing_line_break_adds_no_line() {
    let contents = "one\ntwo\n";
    assert_eq!(vec!["one", "two"], search("", contents));
}

#[test]
fn final_line_without_break_counts() {
    let contents = "one\ntwo";
    assert_eq!(vec!["two"], search("two", contents));
}

#[test]
fn insensitive_match_is_trimmed() {
    let contents = "  Alpha beta  \ngamma";
    assert_eq!(vec!["Alpha beta"], case_insensitive_search("alpha", contents));
}

#[test]
fn sensitive_match_is_not_trimmed() {
    let contents = "  alpha beta  \ngamma";
    assert_eq!(vec!["  alpha beta  "], search("alpha", contents));
}

#[test]
fn insensitive_handles_non_ascii() {
    let contents = "Die Äpfel\nBirnen";
    assert_eq!(vec!["Die Äpfel"], case_insensitive_search("ÄPFEL", contents));
}

#[test]
fn rerunning_gives_identical_results() {
    let query = "st";
    let contents = "Rust:\nsafe, fast, productive.\nPick three.";
    assert_eq!(search(query, contents), search(query, contents));
    assert_eq!(
        case_insensitive_search(query, contents),
        case_insensitive_search(query, contents)
    );
}
