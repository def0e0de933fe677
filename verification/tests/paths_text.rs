use deskvio::paths::{
    component_count, components, file_name, has_parent, is_absolute, join_str, path_starts_with,
};
use deskvio::repo_meta::resolve_worktree_file_path;
use deskvio::sys::{now_unix, secs_as_timestamp};
use deskvio::text::{
    concat_str, i64_to_string, lower_chars, split_on, trim, trim_char_chars, trim_start_chars,
    u64_to_string,
};
use deskvio::zip_import::zip_path_depth;

fn cv(s: &str) -> Vec<char> {
    s.chars().collect()
}

fn st(v: &[char]) -> String {
    v.iter().collect()
}

#[test]
fn trim_removes_unicode_whitespace() {
    assert_eq!(trim("  a b \t\n"), "a b");
    assert_eq!(trim("\u{3000}x\u{a0}"), "x");
    assert_eq!(trim("   "), "");
    assert_eq!(st(&trim_start_chars(&cv("  ?? x "))), "?? x ");
}

#[test]
fn trim_char_strips_both_ends() {
    assert_eq!(st(&trim_char_chars(&cv("__a_b__"), '_')), "a_b");
    assert_eq!(st(&trim_char_chars(&cv("____"), '_')), "");
}

#[test]
fn lowercase_is_ascii_only() {
    assert_eq!(st(&lower_chars(&cv("HeLLo Ä"))), "hello Ä");
}

#[test]
fn decimal_text() {
    assert_eq!(u64_to_string(0), "0");
    assert_eq!(u64_to_string(20000), "20000");
    assert_eq!(u64_to_string(u64::MAX), u64::MAX.to_string());
    assert_eq!(i64_to_string(-42), "-42");
    assert_eq!(i64_to_string(i64::MIN), i64::MIN.to_string());
}

#[test]
fn concat_joins_text() {
    assert_eq!(concat_str("ab", "cd"), "abcd");
}

#[test]
fn split_keeps_empty_pieces() {
    let parts: Vec<String> = split_on(&cv("a\n\nb\n"), '\n').iter().map(|p| st(p)).collect();
    assert_eq!(parts, vec!["a", "", "b", ""]);
}

#[test]
fn components_follow_path_rules() {
    let render = |p: &str| -> Vec<String> { components(&cv(p)).iter().map(|c| st(c)).collect() };
    assert_eq!(render("/a//b/./c/"), vec!["/", "a", "b", "c"]);
    assert_eq!(render("./a/../b"), vec![".", "a", "..", "b"]);
    assert_eq!(render("a/b/c"), vec!["a", "b", "c"]);
    assert!(render("").is_empty());
}

#[test]
fn component_counts() {
    assert_eq!(component_count(&cv("a/b/c")), 3);
    assert_eq!(component_count(&cv("/")), 1);
    assert_eq!(zip_path_depth("a/./b/"), 2);
}

#[test]
fn joining_paths() {
    assert_eq!(join_str("/a", "b"), "/a/b");
    assert_eq!(join_str("/a/", "b"), "/a/b");
    assert_eq!(join_str("/a", "/b"), "/b");
    assert_eq!(join_str("", "b"), "b");
}

#[test]
fn file_names() {
    assert_eq!(file_name(&cv("/tmp/archive.zip")).map(|v| st(&v)), Some("archive.zip".to_string()));
    assert_eq!(file_name(&cv("/tmp/dir/")).map(|v| st(&v)), Some("dir".to_string()));
    assert_eq!(file_name(&cv("/")), None);
    assert_eq!(file_name(&cv("a/..")), None);
}

#[test]
fn parents_and_absolute_paths() {
    assert!(has_parent(&cv("/a")));
    assert!(!has_parent(&cv("/")));
    assert!(!has_parent(&cv("")));
    assert!(is_absolute(&cv("/x")));
    assert!(!is_absolute(&cv("x")));
}

#[test]
fn starts_with_is_component_wise() {
    assert!(path_starts_with(&cv("/repo/a/b"), &cv("/repo")));
    assert!(path_starts_with(&cv("/repo/"), &cv("/repo")));
    assert!(!path_starts_with(&cv("/repository"), &cv("/repo")));
    assert!(!path_starts_with(&cv("/other"), &cv("/repo")));
}

#[test]
fn clock_reading() {
    assert_eq!(secs_as_timestamp(None), 0);
    assert_eq!(secs_as_timestamp(Some(1_700_000_000)), 1_700_000_000);
    assert!(now_unix() > 1_600_000_000);
}

#[test]
fn worktree_files_resolve_against_the_canonical_root() {
    // The root is canonicalized before the file is checked to stay inside it.
    assert_eq!(
        resolve_worktree_file_path("/etc/../etc", "passwd"),
        Ok("/etc/passwd".to_string())
    );
    assert_eq!(
        resolve_worktree_file_path("/etc", "."),
        Err("not a regular file".to_string())
    );
    assert!(resolve_worktree_file_path("/etc", "no-such-file-deskvio")
        .expect_err("missing")
        .starts_with("resolved path does not exist: "));
}

#[test]
fn fresh_ids_are_32_lowercase_hex_digits() {
    let a = deskvio::sys::fresh_id();
    let b = deskvio::sys::fresh_id();
    assert_eq!(a.len(), 32);
    assert!(a.chars().all(|c| c.is_ascii_digit() || ('a'..='f').contains(&c)));
    assert_ne!(a, b);
}
