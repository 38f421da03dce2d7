use wc_storage::flat::{
    append_unique_line, contains_line, dedupe_by_keys, dedupe_file, history_add_lines,
    parse_lines, read_single_line, remove_line, remove_listed_line, render_lines,
};
use wc_storage::order::{sort_strings, str_lt};

fn lines(items: &[&str]) -> Vec<String> {
    items.iter().map(|s| s.to_string()).collect()
}

#[test]
fn file_text_becomes_trimmed_non_blank_lines() {
    assert_eq!(
        parse_lines("  /walls/a.jpg \n\n\t\n/walls/b.jpg\r\n/walls/c.jpg"),
        lines(&["/walls/a.jpg", "/walls/b.jpg", "/walls/c.jpg"])
    );
    assert_eq!(parse_lines(""), Vec::<String>::new());
    assert_eq!(parse_lines("\n\n"), Vec::<String>::new());
}

#[test]
fn lines_render_with_a_trailing_line_feed_each() {
    assert_eq!(render_lines(&lines(&["a", "b"])), "a\nb\n");
    assert_eq!(render_lines(&Vec::new()), "");
    // What is written reads back as the same lines.
    let written = render_lines(&lines(&["/walls/a.jpg", "/walls/b.jpg"]));
    assert_eq!(parse_lines(&written), lines(&["/walls/a.jpg", "/walls/b.jpg"]));
}

#[test]
fn appending_an_existing_line_changes_nothing() {
    let current = lines(&["/walls/a.jpg"]);
    assert_eq!(append_unique_line(&current, "/walls/a.jpg"), None);
    let added = append_unique_line(&current, "/walls/b.jpg").unwrap();
    assert_eq!(added, lines(&["/walls/a.jpg", "/walls/b.jpg"]));
    assert!(contains_line(&added, "/walls/b.jpg"));
    assert!(!contains_line(&added, "/walls/c.jpg"));
}

#[test]
fn removing_a_line_drops_every_copy() {
    let current = lines(&["a", "b", "a", "c"]);
    assert_eq!(remove_line(&current, "a"), lines(&["b", "c"]));
    assert_eq!(remove_line(&current, "z"), current);
    assert_eq!(remove_listed_line(&current, "z"), None);
    assert_eq!(remove_listed_line(&current, "b"), Some(lines(&["a", "a", "c"])));
}

#[test]
fn dedupe_keeps_first_occurrences_and_is_idempotent() {
    let current = lines(&["b", "a", "b", "c", "a"]);
    let once = dedupe_file(&current);
    assert_eq!(once, lines(&["b", "a", "c"]));
    assert_eq!(dedupe_file(&once), once);
}

#[test]
fn dedupe_by_keys_compares_canonical_forms() {
    let current = lines(&["/walls/./a.jpg", "/walls/a.jpg", "/walls/b.jpg"]);
    let keys = lines(&["/walls/a.jpg", "/walls/a.jpg", "/walls/b.jpg"]);
    assert_eq!(
        dedupe_by_keys(&current, &keys),
        lines(&["/walls/./a.jpg", "/walls/b.jpg"])
    );
}

#[test]
fn history_add_moves_the_path_first_and_trims() {
    let current = lines(&["/walls/b.jpg", "/walls/./a.jpg", "/walls/c.jpg"]);
    let keys = lines(&["/walls/b.jpg", "/walls/a.jpg", "/walls/c.jpg"]);
    assert_eq!(
        history_add_lines(&current, &keys, "/walls/a.jpg", "/walls/a.jpg", 10),
        lines(&["/walls/a.jpg", "/walls/b.jpg", "/walls/c.jpg"])
    );
    assert_eq!(
        history_add_lines(&current, &keys, "/walls/d.jpg", "/walls/d.jpg", 2),
        lines(&["/walls/d.jpg", "/walls/b.jpg"])
    );
    assert_eq!(
        history_add_lines(&current, &keys, "/walls/d.jpg", "/walls/d.jpg", 0),
        Vec::<String>::new()
    );
}

#[test]
fn single_line_files_read_their_first_line() {
    assert_eq!(read_single_line(&Vec::new()), None);
    assert_eq!(
        read_single_line(&lines(&["/walls/cur.jpg", "x"])),
        Some("/walls/cur.jpg".to_string())
    );
}

#[test]
fn strings_sort_by_code_point_and_stably() {
    assert!(str_lt("a", "b"));
    assert!(str_lt("B", "a"));
    assert!(str_lt("ab", "abc"));
    assert!(!str_lt("abc", "abc"));
    assert!(!str_lt("b", "a"));
    assert_eq!(
        sort_strings(lines(&["c", "a", "B", "b", "a"])),
        lines(&["B", "a", "a", "b", "c"])
    );
    assert_eq!(sort_strings(Vec::new()), Vec::<String>::new());
}

#[test]
fn applying_the_same_wallpaper_twice_is_one_application() {
    let current = lines(&["/walls/b.jpg", "/walls/./a.jpg", "/walls/c.jpg"]);
    let keys = lines(&["/walls/b.jpg", "/walls/a.jpg", "/walls/c.jpg"]);
    let once = history_add_lines(&current, &keys, "/walls/a.jpg", "/walls/a.jpg", 2);
    let once_keys = history_add_lines(&keys, &keys, "/walls/a.jpg", "/walls/a.jpg", 2);
    assert_eq!(once, lines(&["/walls/a.jpg", "/walls/b.jpg"]));
    let twice = history_add_lines(&once, &once_keys, "/walls/a.jpg", "/walls/a.jpg", 2);
    assert_eq!(twice, once);
}

#[test]
fn lines_read_from_any_file_survive_a_rewrite() {
    for text in [
        "  a \r\n\n b\t\nc",
        "\u{3000}森\u{3000}\n\n",
        "",
        "x\ny\nx\n",
    ] {
        let read = parse_lines(text);
        assert_eq!(parse_lines(&render_lines(&read)), read, "{text:?}");
    }
}
