use minigrep::{Config, ReadMode};

#[test]
fn from_file_keeps_what_it_is_given() {
    let config = Config::from_file("needle", "haystack.txt", true);
    assert_eq!(config.query(), "needle");
    assert!(config.ignore_case());
    assert!(matches!(config.read_mode(), ReadMode::File("haystack.txt")));
}

#[test]
fn new_is_from_file() {
    let config = Config::new("needle", "haystack.txt", false);
    assert_eq!(config.query(), "needle");
    assert!(!config.ignore_case());
    assert!(matches!(config.read_mode(), ReadMode::File("haystack.txt")));
}

#[test]
fn from_stream_reads_standard_input() {
    let config = Config::from_stream("needle", false);
    assert_eq!(config.query(), "needle");
    assert!(!config.ignore_case());
    assert!(matches!(config.read_mode(), ReadMode::Stream()));
}

#[test]
fn an_empty_query_and_a_missing_file_are_accepted() {
    let config = Config::from_file("", "/no/such/file", true);
    assert_eq!(config.query(), "");
    assert!(matches!(config.read_mode(), ReadMode::File("/no/such/file")));
    let config = Config::from_stream("", true);
    assert_eq!(config.query(), "");
    assert!(config.ignore_case());
}
