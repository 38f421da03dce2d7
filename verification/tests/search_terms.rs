use wc_storage::sqlite::library_fts::{
    fts_chunk_continues, fts_chunk_start, fts_status_after_chunk, library_fts_match_term,
    revision_as_sql, FtsReset,
};
use wc_storage::sqlite::library_page::fts_query;
use wc_storage::sqlite::backup::quote_identifier;
use wc_storage::sqlite::legacy::sqlite_escape;
use wc_storage::sqlite::library_browser::escape_like_term;

#[test]
fn short_terms_fall_back_and_metacharacters_are_quoted() {
    assert_eq!(library_fts_match_term("中"), None);
    assert_eq!(library_fts_match_term("ab"), None);
    assert_eq!(library_fts_match_term("a%b"), Some("\"a%b\"".into()));
    assert_eq!(library_fts_match_term("a\"b"), Some("\"a\"\"b\"".into()));
}

#[test]
fn fts_query_strips_sql_syntax_and_adds_prefix_suffix() {
    assert_eq!(fts_query("forest scene"), "\"forest\"* \"scene\"*");
    assert_eq!(fts_query("abc' OR 1=1 --"), "\"abc\"* \"OR\"* \"11\"*");
}

#[test]
fn match_term_counts_characters_not_bytes() {
    // Three CJK characters are nine bytes but only three characters.
    assert_eq!(library_fts_match_term("图库来"), Some("\"图库来\"".into()));
    assert_eq!(library_fts_match_term("中文"), None);
    assert_eq!(library_fts_match_term("abc"), Some("\"abc\"".into()));
    assert_eq!(library_fts_match_term("\"\"\""), Some("\"\"\"\"\"\"\"\"".into()));
}

#[test]
fn fts_query_of_blank_or_symbol_only_input_is_empty() {
    assert_eq!(fts_query(""), "");
    assert_eq!(fts_query("   "), "");
    assert_eq!(fts_query("-- ' ;"), "");
}

#[test]
fn fts_query_keeps_inner_separators_and_trims_outer_ones() {
    assert_eq!(fts_query("a-b c.."), "\"a-b\"* \"c\"*");
    assert_eq!(fts_query("_x_ .y."), "\"x\"* \"y\"*");
}

#[test]
fn fts_query_handles_unicode_letters_and_unicode_spaces() {
    assert_eq!(fts_query("中文 日本"), "\"中文\"* \"日本\"*");
    // U+3000 is an ideographic space: the query splits there too.
    assert_eq!(fts_query("森\u{3000}林"), "\"森\"* \"林\"*");
    assert_eq!(fts_query("Café!"), "\"Café\"*");
}

#[test]
fn escaped_text_keeps_every_character() {
    assert_eq!(sqlite_escape("a''b"), "a''''b");
    assert_ne!(sqlite_escape("a'"), sqlite_escape("a''"));
    assert_eq!(escape_like_term("\\%"), "%\\\\\\%%");
    assert_ne!(escape_like_term("a%"), escape_like_term("a\\%"));
    assert_ne!(
        library_fts_match_term("ab\""),
        library_fts_match_term("ab\"\"")
    );
    assert_eq!(quote_identifier("\"\""), "\"\"\"\"\"\"");
}

#[test]
fn full_text_queries_hold_no_query_syntax() {
    for raw in [
        "a:(b) NEAR/2 \"c\" ^d",
        "title:* OR {x} -- ;",
        "森林* AND \"quoted\"",
        "x'); DROP TABLE wallpapers; --",
    ] {
        let query = fts_query(raw);
        assert!(
            query.chars().all(|c| c.is_alphanumeric()
                || c == '_'
                || c == '-'
                || c == '.'
                || c == '"'
                || c == '*'
                || c == ' '),
            "{raw:?} -> {query:?}"
        );
    }
    assert_eq!(fts_query("a:(b) NEAR/2 \"c\" ^d"), "\"ab\"* \"NEAR2\"* \"c\"* \"d\"*");
}

#[test]
fn index_chunks_reset_when_the_revision_moved() {
    assert_eq!(revision_as_sql(7), 7);
    assert_eq!(revision_as_sql(u64::MAX), i64::MAX);
    assert_eq!(fts_chunk_start(7, 120, 7), (None, 120));
    assert_eq!(fts_chunk_start(-1, 120, 7), (Some(FtsReset::Recreate), 0));
    assert_eq!(fts_chunk_start(6, 120, 7), (Some(FtsReset::DeleteAll), 0));
    assert_eq!(fts_chunk_start(i64::MAX, 3, u64::MAX), (None, 3));
    assert!(fts_chunk_continues(0, true));
    assert!(fts_chunk_continues(3, false));
    assert!(!fts_chunk_continues(3, true));
    assert_eq!(fts_status_after_chunk(true), "pending");
    assert_eq!(fts_status_after_chunk(false), "ready");
}

#[test]
fn escaped_text_doubles_each_quote_and_nothing_else() {
    let s = "it's 'quoted'";
    let r = sqlite_escape(s);
    assert_eq!(r, "it''s ''quoted''");
    assert_eq!(r.len(), s.len() + s.matches('\'').count());
    assert_eq!(r.replace("''", "'"), s);
    assert_eq!(sqlite_escape("no quotes"), "no quotes");
}
