use jumper::clipboard::join_lines;
use jumper::config::{default_delete_confirmation, default_flash_duration_ms, default_quick_jumps,
    default_sort, SortMode};
use jumper::text::{base_name, drop_last_char, join_path, parent_dir, str_lex_le};

#[test]
fn join_inserts_exactly_one_separator() {
    assert_eq!(join_path("/a/b", "c"), "/a/b/c");
    assert_eq!(join_path("/", "c"), "/c");
    assert_eq!(join_path("/a/", "c"), "/a/c");
}

#[test]
fn base_name_is_the_last_component() {
    assert_eq!(base_name("/a/b/c.txt"), "c.txt");
    assert_eq!(base_name("/c"), "c");
    assert_eq!(base_name("plain"), "plain");
}

#[test]
fn parent_walks_one_level_up() {
    assert_eq!(parent_dir("/a/b"), Some("/a".to_string()));
    assert_eq!(parent_dir("/a"), Some("/".to_string()));
    assert_eq!(parent_dir("/"), None);
    assert_eq!(parent_dir("noslash"), None);
}

#[test]
fn lexicographic_compare_is_by_scalar_value() {
    assert!(str_lex_le("abc", "abd"));
    assert!(str_lex_le("ab", "abc"));
    assert!(!str_lex_le("abc", "ab"));
    assert!(str_lex_le("", "a"));
    assert!(str_lex_le("a", "a"));
    assert!(str_lex_le("A", "a"), "uppercase scalars sort first");
}

#[test]
fn drop_last_char_shortens_by_one() {
    assert_eq!(drop_last_char(&"ab".to_string()), "a");
    assert_eq!(drop_last_char(&"a".to_string()), "");
    assert_eq!(drop_last_char(&"".to_string()), "");
}

#[test]
fn joined_lines_have_no_trailing_newline() {
    assert_eq!(join_lines(&vec![]), "");
    assert_eq!(join_lines(&vec!["/a".to_string()]), "/a");
    assert_eq!(
        join_lines(&vec!["/a".to_string(), "/b".to_string(), "/c".to_string()]),
        "/a\n/b\n/c"
    );
}

#[test]
fn configuration_defaults_match_the_documented_values() {
    assert_eq!(default_sort(), SortMode::Name);
    assert!(default_delete_confirmation());
    assert_eq!(default_flash_duration_ms(), 150);
    let jumps = default_quick_jumps("/home/me");
    assert_eq!(jumps.len(), 3);
    assert_eq!(jumps[0], ("gh".to_string(), "/home/me".to_string()));
    assert_eq!(jumps[1], ("gd".to_string(), "/home/me/Downloads".to_string()));
    assert_eq!(jumps[2], ("gp".to_string(), "/home/me/Projects".to_string()));
}
