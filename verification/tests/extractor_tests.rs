use colorcolumn::delimiter::extract_column;
use colorcolumn::delimiter::Delimiter;
use colorcolumn::errors::ConfigError;

#[test]
fn extract_column_by_pattern() {
    let delimiter = Delimiter::new(r"[ \t]+").unwrap();
    assert_eq!(extract_column("word key word", &delimiter, 0), Some("word".to_string()));
    assert_eq!(extract_column("word key word", &delimiter, 1), Some("key".to_string()));
    assert_eq!(extract_column("word\tkey word", &delimiter, 1), Some("key".to_string()));
    assert_eq!(extract_column("word key word", &delimiter, 4), None);
}

#[test]
fn extract_column_literal_delimiter() {
    let delimiter = Delimiter::new(",").unwrap();
    assert_eq!(extract_column("a,b", &delimiter, 1), Some("b".to_string()));
    assert_eq!(extract_column("a,b", &delimiter, 2), None);
}

#[test]
// An empty line splits to a single empty token: column 0 exists, column 1
// does not.
fn extract_column_empty_line() {
    let delimiter = Delimiter::new(r"[ \t]+").unwrap();
    assert_eq!(extract_column("", &delimiter, 0), Some(String::new()));
    assert_eq!(extract_column("", &delimiter, 1), None);
}

#[test]
// Extraction of a column is unaffected by the content of the other columns.
fn extract_column_ignores_other_columns() {
    let delimiter = Delimiter::new(r"[ \t]+").unwrap();
    assert_eq!(
        extract_column("alpha key beta", &delimiter, 1),
        extract_column("gamma key delta", &delimiter, 1)
    );
}

#[test]
fn malformed_delimiter_is_rejected() {
    assert_eq!(Delimiter::new("[").err(), Some(ConfigError::BadDelimiter));
    assert!(Delimiter::new(r"[ \t]+").is_ok());
}
