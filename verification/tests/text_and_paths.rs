use wc_storage::error::WcError;
use wc_storage::paths::{
    file_name_of, lexical_normalize, path_components, path_starts_with, sidecar_path,
};
use wc_storage::storage::{
    backend_routing_keys, check_config_revision, config_value_or_default, forced_config_value,
    history_trim_sql, revision_bump_needed,
};
use wc_storage::text::{
    i64_to_decimal, is_blank, join_strings, parse_i64, parse_u32,
    parse_u64, replace_all, split_whitespace, starts_with, to_ascii_uppercase, trim,
    u64_to_decimal,
};

#[test]
fn trimming_uses_unicode_white_space() {
    assert_eq!(trim("  a b \t"), "a b");
    assert_eq!(trim("\u{3000}森\u{00a0}"), "森");
    assert!(is_blank(" \n\u{2003}"));
    assert!(!is_blank(" x "));
    assert_eq!(split_whitespace("a\u{3000}b\u{2003}c"), vec!["a", "b", "c"]);
}

#[test]
fn split_whitespace_drops_empty_words() {
    assert_eq!(
        split_whitespace("  forest\u{3000}scene\t\nnight "),
        vec!["forest", "scene", "night"]
    );
    assert_eq!(split_whitespace("   "), Vec::<String>::new());
    assert_eq!(join_strings(&vec!["a".to_string(), "b".to_string()], ", "), "a, b");
    assert_eq!(join_strings(&Vec::new(), ", "), "");
}

#[test]
fn decimal_text_and_parsing_round_trip() {
    assert_eq!(u64_to_decimal(0), "0");
    assert_eq!(u64_to_decimal(u64::MAX), "18446744073709551615");
    assert_eq!(i64_to_decimal(i64::MIN), "-9223372036854775808");
    assert_eq!(i64_to_decimal(-42), "-42");
    assert_eq!(parse_u64("18446744073709551615"), Some(u64::MAX));
    assert_eq!(parse_u64("18446744073709551616"), None);
    assert_eq!(parse_u64(""), None);
    assert_eq!(parse_u64("12a"), None);
    assert_eq!(parse_u32("4294967296"), None);
    assert_eq!(parse_u32("7"), Some(7));
    assert_eq!(parse_i64("-9223372036854775808"), Some(i64::MIN));
    assert_eq!(parse_i64("9223372036854775808"), None);
    assert_eq!(parse_i64("+5"), Some(5));
}

#[test]
fn replacement_and_prefix_and_case() {
    assert_eq!(replace_all("a'b''c", "'", "''"), "a''b''''c");
    assert_eq!(replace_all("aaa", "aa", "b"), "ba");
    assert!(starts_with("/walls/a.jpg", "/walls"));
    assert!(!starts_with("/wal", "/walls"));
    assert_eq!(to_ascii_uppercase("text Ä"), "TEXT Ä");
}

#[test]
fn paths_follow_component_rules() {
    assert_eq!(path_components("/walls//a/./b.jpg"), vec!["/", "walls", "a", "b.jpg"]);
    assert_eq!(path_components("./a"), vec![".", "a"]);
    assert_eq!(file_name_of("/walls/a.jpg"), Some("a.jpg".to_string()));
    assert_eq!(file_name_of("/walls/.."), None);
    assert_eq!(file_name_of("/"), None);
    assert!(path_starts_with("/walls/a/b.jpg", "/walls/a"));
    assert!(!path_starts_with("/walls/ab/b.jpg", "/walls/a"));
    assert_eq!(lexical_normalize("/walls/./a/../b.jpg"), "/walls/b.jpg");
    assert_eq!(lexical_normalize("/../a"), "/a");
    assert_eq!(lexical_normalize("../a/./b/.."), "../a");
    assert_eq!(sidecar_path("/db/wc.db", "-wal"), "/db/wc.db-wal");
}

#[test]
fn storage_backend_is_forced_to_sqlite() {
    assert_eq!(forced_config_value("storage_backend"), Some("sqlite".to_string()));
    assert_eq!(forced_config_value("theme"), None);
    assert_eq!(config_value_or_default(None, "missing"), "missing");
    assert_eq!(
        config_value_or_default(Some("dark".into()), "missing"),
        "dark"
    );
    assert_eq!(
        backend_routing_keys(),
        vec![
            ("image_backend", "awww"),
            ("gif_backend", "awww"),
            ("video_backend", "mpvpaper"),
        ]
    );
}

#[test]
fn history_trim_and_revision_rules() {
    assert_eq!(
        history_trim_sql(100),
        "DELETE FROM history WHERE id NOT IN (SELECT id FROM history ORDER BY id DESC LIMIT 100)"
    );
    assert!(check_config_revision("3", "3".into()).is_ok());
    match check_config_revision("3", "4".into()) {
        Err(WcError::ConfigRevisionChanged { expected, observed }) => {
            assert_eq!(expected, "3");
            assert_eq!(observed, "4");
        }
        other => panic!("unexpected {other:?}"),
    }
    assert!(revision_bump_needed(1));
    assert!(!revision_bump_needed(0));
}

#[test]
fn error_text_names_each_kind() {
    assert_eq!(WcError::Other("plain".into()).to_string(), "plain");
    assert_eq!(
        WcError::Sqlite("no such table".into()).to_string(),
        "SQLite error: no such table"
    );
    assert_eq!(
        WcError::InvalidCursor { reason: "bad hex" }.to_string(),
        "invalid library cursor: bad hex"
    );
    assert_eq!(
        WcError::RevisionChanged {
            expected: 3,
            observed: 4
        }
        .to_string(),
        "library changed: expected revision 3, observed 4"
    );
    assert_eq!(
        WcError::ConfigRevisionChanged {
            expected: "a".into(),
            observed: "b".into()
        }
        .to_string(),
        "behavior settings changed: expected revision a, observed b"
    );
    let io = WcError::Io(std::io::Error::new(std::io::ErrorKind::Other, "disk gone"));
    assert_eq!(io.to_string(), "I/O error: disk gone");
}
