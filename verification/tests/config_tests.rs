use minigrep::Config;
use minigrep::ConfigError;

fn tokens(words: &[&str]) -> Vec<String> {
    words.iter().map(|w| w.to_string()).collect()
}

#[test]
fn no_arguments_fail() {
    match Config::build(Vec::new(), false) {
        Err(e) => assert_eq!(e, ConfigError::MissingArguments),
        Ok(_) => panic!("resolution should fail without arguments"),
    }
}

#[test]
fn one_usable_argument_fails() {
    match Config::build(tokens(&["prog", "needle"]), false) {
        Err(e) => assert_eq!(e, ConfigError::MissingArguments),
        Ok(_) => panic!("resolution should fail with a single usable argument"),
    }
}

#[test]
fn two_usable_arguments_succeed() {
    match Config::build(tokens(&["prog", "needle", "notes.txt"]), false) {
        Ok(c) => {
            assert_eq!(c.query, "needle");
            assert_eq!(c.file_path, "notes.txt");
            assert!(!c.ignore_case);
        }
        Err(_) => panic!("resolution should succeed with query and file path"),
    }
}

#[test]
fn extra_arguments_are_ignored() {
    match Config::build(tokens(&["prog", "needle", "notes.txt", "extra"]), false) {
        Ok(c) => {
            assert_eq!(c.query, "needle");
            assert_eq!(c.file_path, "notes.txt");
        }
        Err(_) => panic!("resolution should succeed with extra arguments"),
    }
}

#[test]
fn ignore_case_toggle_is_kept() {
    match Config::build(tokens(&["prog", "needle", "notes.txt"]), true) {
        Ok(c) => assert!(c.ignore_case),
        Err(_) => panic!("resolution should succeed with query and file path"),
    }
}

#[test]
fn error_messages() {
    assert_eq!(ConfigError::MissingArguments.message(), "Not enough arguments.");
    assert_eq!(ConfigError::MissingQuery.message(), "No query");
    assert_eq!(ConfigError::MissingFilePath.message(), "No file path");
}
