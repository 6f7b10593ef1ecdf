use rustgrep::Config;
use rustgrep::ConfigError;

fn args(tokens: &[&str]) -> Vec<String> {
    tokens.iter().map(|t| String::from(*t)).collect()
}

#[test]
fn no_tokens_at_all_is_missing_query() {
    assert_eq!(Config::new(Vec::new()).unwrap_err(), ConfigError::MissingQuery);
}

#[test]
fn only_the_program_name_is_missing_query() {
    assert_eq!(Config::new(args(&["grep"])).unwrap_err(), ConfigError::MissingQuery);
}

#[test]
fn a_query_without_a_source_is_missing_source() {
    assert_eq!(Config::new(args(&["grep", "needle"])).unwrap_err(), ConfigError::MissingSource);
}

#[test]
fn two_usable_tokens_build_a_config() {
    let config = Config::new(args(&["grep", "needle", "haystack.txt"])).unwrap();
    assert_eq!(config.query().as_str(), "needle");
    assert_eq!(config.filename().as_str(), "haystack.txt");
}

#[test]
fn extra_tokens_are_ignored() {
    let config = Config::new(args(&["grep", "needle", "haystack.txt", "extra", "more"])).unwrap();
    assert_eq!(config.query().as_str(), "needle");
    assert_eq!(config.filename().as_str(), "haystack.txt");
}

#[test]
fn error_messages_name_the_missing_token() {
    assert_eq!(ConfigError::MissingQuery.message(), "No query string found");
    assert_eq!(ConfigError::MissingSource.message(), "No filename found");
}
