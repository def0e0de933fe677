use deskvio::clone::{clone_command_args, first_same_origin, remotes_match_origin};
use deskvio::clone::{
    cancel_clone_result, check_clone_url, check_dest_parent, clone_done, clone_repo_name,
    compute_clone_target, is_same_origin, normalize_clone_url, pick_clone_target, CloneExit,
    CloneSession,
    CloneSessions, ProgressLines,
};

#[test]
fn only_https_urls_are_cloned() {
    assert_eq!(
        check_clone_url("  https://github.com/a/b.git "),
        Ok("https://github.com/a/b.git".to_string())
    );
    assert_eq!(
        check_clone_url("git@github.com:a/b.git"),
        Err("only public https clone URLs are supported".to_string())
    );
    assert_eq!(
        check_clone_url("http://github.com/a/b"),
        Err("only public https clone URLs are supported".to_string())
    );
}

#[test]
fn destination_is_required() {
    let msg = "repo root is not set; please choose a destination directory first".to_string();
    assert_eq!(check_dest_parent(None), Err(msg.clone()));
    assert_eq!(check_dest_parent(Some("   ")), Err(msg));
    assert_eq!(check_dest_parent(Some(" /tmp/x ")), Ok("/tmp/x".to_string()));
}

#[test]
fn clone_names() {
    assert_eq!(clone_repo_name("https://github.com/a/b.git"), "b");
    assert_eq!(clone_repo_name("https://github.com/a/tool"), "tool");
    assert_eq!(clone_repo_name("https://github.com/a/b.git.git"), "b");
    assert_eq!(clone_repo_name("https://github.com/a/"), "repo");
    assert_eq!(clone_repo_name("https://github.com/a/.git"), "repo");
}

#[test]
fn clone_target_when_free() {
    assert_eq!(
        compute_clone_target("/nonexistent-deskvio-base", "b"),
        "/nonexistent-deskvio-base/b"
    );
}

#[test]
fn clone_target_skips_existing_names() {
    // `/` holds `tmp`, so the first free name is `tmp-2` (unless that exists too).
    let t = compute_clone_target("/", "tmp");
    assert!(t.starts_with("/tmp-"));
    let n: u64 = t["/tmp-".len()..].parse().expect("numbered");
    assert!(n >= 2);
}

#[test]
fn clone_urls_normalize() {
    assert_eq!(
        normalize_clone_url("  HTTPS://GitHub.com/A/B.git/ "),
        "https://github.com/a/b"
    );
    assert_eq!(normalize_clone_url("https://x/y//"), "https://x/y");
    // Slashes are stripped before `.git`, once.
    assert_eq!(normalize_clone_url("https://x/y.git/.git"), "https://x/y.git/");
}

#[test]
fn origin_matching() {
    let wanted = normalize_clone_url("https://github.com/a/b");
    assert!(is_same_origin("origin", "https://GitHub.com/a/b.git", &wanted));
    assert!(!is_same_origin("upstream", "https://github.com/a/b", &wanted));
    assert!(!is_same_origin("origin", "https://github.com/a/c", &wanted));
}

fn text_lines(lines: Vec<Vec<u8>>) -> Vec<String> {
    lines.into_iter().map(|l| String::from_utf8(l).expect("utf8")).collect()
}

#[test]
fn progress_lines_split_on_cr_and_lf() {
    let mut p = ProgressLines::new();
    let lines = p.feed(b"Cloning\rReceiving 10%\r\nReceiving 100%\n\n\rtail");
    assert_eq!(
        text_lines(lines),
        vec!["Cloning", "Receiving 10%", "Receiving 100%"]
    );
    assert_eq!(p.finish(), Some(b"tail".to_vec()));
}

#[test]
fn progress_lines_do_not_depend_on_chunking() {
    let whole = b"abc\rdef\n\nghi\rjk";
    let mut one = ProgressLines::new();
    let all = text_lines(one.feed(whole));
    let rest = one.finish();
    for cut in 0..whole.len() {
        let mut two = ProgressLines::new();
        let mut got = text_lines(two.feed(&whole[..cut]));
        got.extend(text_lines(two.feed(&whole[cut..])));
        assert_eq!(got, all);
        assert_eq!(two.finish(), rest);
    }
}

#[test]
fn progress_without_trailing_text_finishes_empty() {
    let mut p = ProgressLines::new();
    let _ = p.feed(b"done\n");
    assert_eq!(p.finish(), None);
}

#[test]
fn sessions_register_cancel_and_remove() {
    let mut s = CloneSessions::new();
    s.insert(
        "s1".to_string(),
        CloneSession { pid: 42, cancelled: false, target: "/t/a".to_string() },
    );
    s.insert(
        "s2".to_string(),
        CloneSession { pid: 43, cancelled: false, target: "/t/b".to_string() },
    );
    assert_eq!(s.mark_cancelled("s1"), Some((42, "/t/a".to_string())));
    assert_eq!(s.mark_cancelled("nope"), None);
    let removed = s.remove("s1").expect("present");
    assert_eq!(removed.pid, 42);
    assert!(removed.cancelled);
    assert_eq!(removed.target, "/t/a");
    assert!(s.remove("s1").is_none());
    let other = s.remove("s2").expect("present");
    assert!(!other.cancelled);
}

#[test]
fn sessions_replace_same_id() {
    let mut s = CloneSessions::new();
    s.insert("x".to_string(), CloneSession { pid: 1, cancelled: false, target: "/a".to_string() });
    s.insert("x".to_string(), CloneSession { pid: 2, cancelled: false, target: "/b".to_string() });
    let got = s.remove("x").expect("present");
    assert_eq!(got.pid, 2);
    assert_eq!(got.target, "/b");
    assert!(s.remove("x").is_none());
}

#[test]
fn cancel_report_for_missing_session() {
    let r = cancel_clone_result("sid".to_string(), None, true);
    assert_eq!(r.session_id, "sid");
    assert_eq!(r.target, "");
    assert!(!r.killed);
    assert!(!r.removed);
    assert!(!r.still_exists);
    assert_eq!(r.error, Some("clone session not found".to_string()));
}

#[test]
fn cancel_report_for_stopped_session() {
    let r = cancel_clone_result("sid".to_string(), Some("/t/a".to_string()), false);
    assert!(r.killed);
    assert!(r.removed);
    assert_eq!(r.error, None);
    let r = cancel_clone_result("sid".to_string(), Some("/t/a".to_string()), true);
    assert!(r.killed);
    assert!(!r.removed);
    assert!(r.still_exists);
    assert_eq!(r.target, "/t/a");
}

#[test]
fn clone_outcomes() {
    let ok = clone_done(CloneExit::Success, false, true);
    assert!(ok.ok && ok.register && !ok.remove_target && ok.error.is_none());
    let cancelled = clone_done(CloneExit::Success, true, true);
    assert!(!cancelled.ok && cancelled.remove_target && !cancelled.register);
    assert_eq!(cancelled.error, Some("cancelled".to_string()));
    let failed = clone_done(CloneExit::Failure("exit status: 128".to_string()), false, true);
    assert_eq!(failed.error, Some("git clone exited with exit status: 128".to_string()));
    assert!(failed.remove_target && !failed.register && !failed.ok);
    let gone = clone_done(CloneExit::WaitError("no child".to_string()), false, false);
    assert_eq!(gone.error, Some("no child".to_string()));
    assert!(!gone.remove_target);
}

#[test]
fn clone_target_is_first_free_candidate() {
    assert_eq!(pick_clone_target("/b", "n", &[true, true, false]), Some("/b/n-3".to_string()));
    assert_eq!(pick_clone_target("/b", "n", &[false]), Some("/b/n".to_string()));
    assert_eq!(pick_clone_target("/b", "n", &[true, true]), None);
}

#[test]
fn clone_conflict_is_the_first_repository_with_that_origin() {
    let wanted = "https://example.com/u/repo";
    let r = |name: &str, url: &str| (name.to_string(), url.to_string());
    assert!(remotes_match_origin(&[r("origin", "https://example.com/u/repo.git/")], wanted));
    assert!(!remotes_match_origin(&[r("upstream", "https://example.com/u/repo")], wanted));
    let probes = vec![
        None,
        Some(vec![r("origin", "https://example.com/u/other")]),
        Some(vec![r("fork", "x"), r("origin", "HTTPS://example.com/u/repo")]),
        Some(vec![r("origin", "https://example.com/u/repo")]),
    ];
    assert_eq!(first_same_origin(&probes, wanted), Some(2));
    assert_eq!(first_same_origin(&probes[..2], wanted), None);
    assert_eq!(
        clone_command_args("https://h/r", "/t/r"),
        vec!["clone", "--progress", "--", "https://h/r", "/t/r"]
    );
}
