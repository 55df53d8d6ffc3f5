use kat::config::{build_config, Selector};

#[test]
fn test_no_args() {
    // Only a bytes list: tab delimiter and standard input by default.
    let cfg = build_config(vec![], None, None, None, Some("1".to_string()));

    assert!(cfg.is_ok());
    let cfg = cfg.unwrap();
    assert_eq!(cfg.delimiter, b'\t');
    assert_eq!(cfg.files, vec!["-"]);
}

#[test]
fn test_custom_delim() {
    let files = vec!["a.txt".to_string(), "b.txt".to_string()];
    let cfg = build_config(
        files,
        Some("x".to_string()),
        Some("1".to_string()),
        None,
        None,
    );

    assert!(cfg.is_ok());
    let cfg = cfg.unwrap();
    assert_eq!(cfg.delimiter, b'x');
    assert_eq!(cfg.files, vec!["a.txt", "b.txt"]);
}

#[test]
fn test_bad_delim() {
    let cfg = build_config(
        vec![],
        Some("xxx".to_string()),
        Some("1".to_string()),
        None,
        None,
    );

    assert!(cfg.is_err());
    assert_eq!(cfg.unwrap_err().message(), "kat: bad delimiter");
}

#[test]
fn test_multibyte_delim_is_bad() {
    // One character, but not one byte: rejected like any other bad length.
    let cfg = build_config(
        vec![],
        Some("\u{e9}".to_string()),
        Some("1".to_string()),
        None,
        None,
    );

    assert!(cfg.is_err());
    assert_eq!(cfg.unwrap_err().message(), "kat: bad delimiter");
}

#[test]
fn test_no_selector() {
    let cfg = build_config(vec![], None, None, None, None);

    assert!(cfg.is_err());
    assert_eq!(
        cfg.unwrap_err().message(),
        "Must have --fields, --bytes, or --chars"
    );
}

#[test]
fn test_fields_selector_wins() {
    let cfg = build_config(
        vec![],
        None,
        Some("1".to_string()),
        None,
        Some("2".to_string()),
    );

    assert!(cfg.is_ok());
    let cfg = cfg.unwrap();
    assert!(matches!(cfg.selector, Selector::Fields(_)));
}

#[test]
fn test_bad_list_in_selector() {
    let cfg = build_config(vec![], None, None, Some("0".to_string()), None);

    assert!(cfg.is_err());
    assert_eq!(
        cfg.unwrap_err().message(),
        "kat: list values may not include zero"
    );
}
