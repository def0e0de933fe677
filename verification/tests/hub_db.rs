use deskvio::db::require_found;
use deskvio::db::{
    cache_hit, favorite_params, head_params, insert_params, is_duplicate_column_message,
    like_pattern, prune_excess, record_from_row, search_params, tags_json, Database, RepoRow,
    SqlParam,
};
use deskvio::hub::{
    asset_file_name, check_deletable_path, classify_import_source, clean_paths, deletion_decision,
    git_evidence, hub_search, looks_like_git_repo_dir, prune_missing_repos, removal_after_attempt,
    removal_retry_delay_ms, removal_should_start, require_worktree, scan_depth, search_text,
    summarize_head_refresh, prune_plan, ImportSource, RemovalStep,
};
use deskvio::repo_meta::{
    accept_worktree_file, check_worktree_rel, default_version, merge_project_file_into_db,
    project_file_for, project_file_from_db, project_json_path, project_json_tmp_path,
    project_meta_dir, push_segments, resolve_worktree_file_path, RepoProjectFile,
};

fn memory_db() -> Database {
    Database::open(":memory:").expect("in-memory database")
}

fn row(tags_json: &str) -> RepoRow {
    RepoRow {
        id: 7,
        path: "/r".to_string(),
        display_name: Some("R".to_string()),
        project_intro: None,
        is_favorite: 2,
        tags_json: tags_json.to_string(),
        last_opened_at: Some(9),
        is_bare: 0,
        last_head: None,
        created_at: 3,
    }
}

#[test]
fn like_pattern_escapes_wildcards() {
    assert_eq!(like_pattern("50%_off"), "%50\\%\\_off%");
    assert_eq!(like_pattern(""), "%%");
}

#[test]
fn duplicate_column_errors_are_recognized() {
    assert!(is_duplicate_column_message("Duplicate Column Name: project_intro"));
    assert!(!is_duplicate_column_message("no such table: repos"));
}

#[test]
fn prune_counts() {
    assert_eq!(prune_excess(48, 48), None);
    assert_eq!(prune_excess(10, 48), None);
    assert_eq!(prune_excess(50, 48), Some(2));
}

#[test]
fn cached_listing_is_used_only_for_current_revision() {
    let cached = Some(("abc".to_string(), "[1]".to_string()));
    assert_eq!(cache_hit(cached.clone(), "abc"), Some("[1]".to_string()));
    assert_eq!(cache_hit(cached, "def"), None);
    assert_eq!(cache_hit(None, "abc"), None);
}

#[test]
fn tags_round_trip_through_json() {
    let tags = vec!["a".to_string(), "b \"q\"".to_string()];
    let j = tags_json(&tags);
    assert_eq!(j, "[\"a\",\"b \\\"q\\\"\"]");
    assert_eq!(record_from_row(row(&j)).tags, tags);
    assert_eq!(tags_json(&[]), "[]");
    assert!(record_from_row(row("{bad")).tags.is_empty());
}

#[test]
fn rows_become_records() {
    let r = record_from_row(row("[\"x\"]"));
    assert_eq!(r.id, 7);
    assert!(r.is_favorite);
    assert!(!r.is_bare);
    assert_eq!(r.tags, vec!["x".to_string()]);
    assert_eq!(r.display_name, Some("R".to_string()));
    assert_eq!(r.last_opened_at, Some(9));
    let bad = record_from_row(row("not json"));
    assert!(bad.tags.is_empty());
}

#[test]
fn database_registers_and_updates_repositories() {
    let mut db = memory_db();
    assert!(db.list_all().expect("list").is_empty());
    let a = db.insert_repo("/repos/a", Some("A".to_string()), false, Some("h1".to_string())).expect("insert");
    assert_eq!(a.path, "/repos/a");
    assert_eq!(a.display_name, Some("A".to_string()));
    assert!(a.tags.is_empty());
    let again = db.insert_repo("/repos/a", None, true, None).expect("upsert");
    assert_eq!(again.id, a.id);
    assert_eq!(again.display_name, Some("A".to_string()));
    assert_eq!(again.last_head, Some("h1".to_string()));
    assert!(again.is_bare);

    db.set_tags(a.id, &["t1".to_string(), "t2".to_string()]).expect("tags");
    db.set_favorite(a.id, true).expect("favorite");
    db.set_project_intro(a.id, Some("intro text".to_string())).expect("intro");
    db.set_display_name(a.id, None).expect("name");
    db.update_cached_head(a.id, Some("h2")).expect("head");
    db.touch_opened(a.id).expect("touch");
    let got = db.get(a.id).expect("get").expect("present");
    assert_eq!(got.tags, vec!["t1".to_string(), "t2".to_string()]);
    assert!(got.is_favorite);
    assert_eq!(got.project_intro, Some("intro text".to_string()));
    assert_eq!(got.display_name, None);
    assert_eq!(got.last_head, Some("h2".to_string()));
    assert!(got.last_opened_at.is_some());

    assert!(db.get(a.id + 1000).expect("get").is_none());
    assert!(db.delete(a.id).expect("delete"));
    assert!(!db.delete(a.id).expect("delete again"));
}

#[test]
fn favorites_come_first() {
    let mut db = memory_db();
    let a = db.insert_repo("/repos/a", Some("a".to_string()), false, None).expect("a");
    let b = db.insert_repo("/repos/b", Some("b".to_string()), false, None).expect("b");
    db.set_favorite(b.id, true).expect("favorite");
    let ids: Vec<i64> = db.list_all().expect("list").iter().map(|r| r.id).collect();
    assert_eq!(ids, vec![b.id, a.id]);
}

#[test]
fn search_matches_path_name_intro_and_tags() {
    let mut db = memory_db();
    let a = db.insert_repo("/repos/alpha", None, false, None).expect("a");
    let b = db.insert_repo("/repos/beta", Some("Second".to_string()), false, None).expect("b");
    let c = db.insert_repo("/repos/gamma", None, false, None).expect("c");
    db.set_tags(c.id, &["rust_lang".to_string()]).expect("tags");
    db.set_project_intro(a.id, Some("100% offline".to_string())).expect("intro");
    let ids = |q: &str| -> Vec<i64> { hub_search(&db, q).expect("search").iter().map(|r| r.id).collect() };
    assert_eq!(ids("alpha"), vec![a.id]);
    assert_eq!(ids("  second "), vec![b.id]);
    assert_eq!(ids("rust_lang"), vec![c.id]);
    assert_eq!(ids("rustxlang"), Vec::<i64>::new());
    assert_eq!(ids("100%"), vec![a.id]);
    assert_eq!(ids("   ").len(), 3);
}

#[test]
fn tree_cache_stores_listings_per_revision() {
    let mut db = memory_db();
    let r = db.insert_repo("/repos/a", None, false, None).expect("repo");
    assert_eq!(db.tree_cache_get_if_current(r.id, "HEAD", "c1").expect("get"), None);
    db.tree_cache_put(r.id, "HEAD", "c1", "[\"a.txt\"]").expect("put");
    assert_eq!(
        db.tree_cache_get_if_current(r.id, "HEAD", "c1").expect("get"),
        Some("[\"a.txt\"]".to_string())
    );
    assert_eq!(db.tree_cache_get_if_current(r.id, "HEAD", "c2").expect("get"), None);
    db.tree_cache_put(r.id, "HEAD", "c2", "[]").expect("replace");
    assert_eq!(db.tree_cache_get_if_current(r.id, "HEAD", "c2").expect("get"), Some("[]".to_string()));
    db.tree_cache_invalidate_repo(r.id).expect("invalidate");
    assert_eq!(db.tree_cache_get_if_current(r.id, "HEAD", "c2").expect("get"), None);
}

#[test]
fn tree_cache_keeps_a_bounded_number_of_rows() {
    let mut db = memory_db();
    let r = db.insert_repo("/repos/a", None, false, None).expect("repo");
    for i in 0..60 {
        db.tree_cache_put(r.id, &format!("rev{}", i), "x", "[]").expect("put");
    }
    let present = (0..60)
        .filter(|i| db.tree_cache_get_if_current(r.id, &format!("rev{}", i), "x").expect("get").is_some())
        .count();
    assert_eq!(present, 48);
}

#[test]
fn missing_repositories_are_pruned() {
    let mut db = memory_db();
    db.insert_repo("/nonexistent-deskvio/a", None, false, None).expect("a");
    db.insert_repo("/", None, false, None).expect("root");
    assert_eq!(prune_missing_repos(&mut db).expect("prune"), 1);
    let paths: Vec<String> = db.list_all().expect("list").into_iter().map(|r| r.path).collect();
    assert_eq!(paths, vec!["/".to_string()]);
}

#[test]
fn search_text_of_blank_query_is_none() {
    assert_eq!(search_text("  "), None);
    assert_eq!(search_text(" x "), Some("x".to_string()));
}

#[test]
fn scan_depth_defaults_to_twelve() {
    assert_eq!(scan_depth(None), 12);
    assert_eq!(scan_depth(Some(3)), 3);
}

#[test]
fn dangerous_deletions_are_refused() {
    assert_eq!(check_deletable_path("rel/path"), Err("refusing to delete non-absolute path".to_string()));
    assert_eq!(check_deletable_path("/"), Err("refusing to delete filesystem root".to_string()));
    assert_eq!(check_deletable_path("/repos/a"), Ok(()));
    assert_eq!(
        deletion_decision(true, false),
        Err("refusing to delete path that does not look like a git repository".to_string())
    );
    assert_eq!(deletion_decision(true, true), Ok(true));
    assert_eq!(deletion_decision(false, false), Ok(false));
}

#[test]
fn git_repository_evidence() {
    assert!(git_evidence(true, false, false, false));
    assert!(git_evidence(false, true, false, false));
    assert!(git_evidence(false, false, true, true));
    assert!(!git_evidence(false, false, true, false));
    assert!(!looks_like_git_repo_dir("/nonexistent-deskvio/a"));
}

#[test]
fn removal_retries() {
    assert!(removal_should_start("/t/a", true));
    assert!(!removal_should_start("/t/a", false));
    assert!(!removal_should_start("t/a", true));
    assert!(!removal_should_start("/", true));
    assert_eq!(removal_retry_delay_ms(0), 120);
    assert_eq!(removal_retry_delay_ms(11), 1440);
    assert_eq!(removal_retry_delay_ms(12), 1500);
    assert_eq!(removal_retry_delay_ms(59), 1500);
    assert!(matches!(removal_after_attempt(0, true, true), RemovalStep::Removed { attempts: 1 }));
    assert!(matches!(removal_after_attempt(4, false, false), RemovalStep::Disappeared { attempt: 5 }));
    assert!(matches!(removal_after_attempt(2, false, true), RemovalStep::RetryAfterMs(360)));
    assert!(matches!(removal_after_attempt(59, false, true), RemovalStep::Exhausted));
}

#[test]
fn import_sources() {
    assert!(matches!(classify_import_source("   ", false, false, false), ImportSource::Skip));
    match classify_import_source(" /x/y ", false, false, false) {
        ImportSource::Fail(m) => assert_eq!(m, "path not found: /x/y"),
        _ => panic!("expected a failure"),
    }
    match classify_import_source("/x", true, true, false) {
        ImportSource::Fail(m) => assert_eq!(m, "folders are not supported; select files only"),
        _ => panic!("expected a failure"),
    }
    match classify_import_source(" /x/f.bin", true, false, true) {
        ImportSource::File(p) => assert_eq!(p, "/x/f.bin"),
        _ => panic!("expected a file"),
    }
    match classify_import_source("/dev/null", true, false, false) {
        ImportSource::Fail(m) => assert_eq!(m, "not a file or directory: /dev/null"),
        _ => panic!("expected a failure"),
    }
}

#[test]
fn asset_names() {
    assert_eq!(asset_file_name("/tmp/archive.zip"), "archive.zip");
    assert_eq!(asset_file_name("/"), "asset.bin");
}

#[test]
fn bare_repositories_have_no_worktree() {
    assert_eq!(require_worktree(true), Err("bare repository has no worktree files".to_string()));
    assert_eq!(require_worktree(false), Ok(()));
}

#[test]
fn lookup_paths_are_cleaned() {
    let v = vec![" a ".to_string(), "  ".to_string(), "b/c".to_string()];
    assert_eq!(clean_paths(&v), vec!["a".to_string(), "b/c".to_string()]);
}

#[test]
fn head_refresh_counts() {
    let s = summarize_head_refresh(&[true, false, true]);
    assert_eq!((s.total, s.ok, s.failed), (3, 2, 1));
}

#[test]
fn project_file_paths() {
    assert_eq!(project_json_path("/repo"), "/repo/.deskvio/project.json");
    assert_eq!(project_meta_dir("/repo"), "/repo/.deskvio");
    assert_eq!(project_json_tmp_path("/repo"), "/repo/.deskvio/project.json.tmp");
    assert_eq!(default_version(), 1);
}

#[test]
fn project_file_contents() {
    let f = project_file_for(Some("hello"), &["a".to_string()]);
    assert_eq!(f.version, 1);
    assert_eq!(f.intro, Some("hello".to_string()));
    assert_eq!(f.tags, vec!["a".to_string()]);
    assert_eq!(project_file_for(None, &[]).intro, None);
}

#[test]
fn project_file_and_database_exchange() {
    let mut db = memory_db();
    let r = db.insert_repo("/repos/a", None, false, None).expect("repo");
    assert_eq!(merge_project_file_into_db(&mut db, r.id, None).expect("merge"), false);
    let file = RepoProjectFile { version: 1, intro: Some("about".to_string()), tags: vec!["x".to_string()] };
    assert_eq!(merge_project_file_into_db(&mut db, r.id, Some(file)).expect("merge"), true);
    let (path, f) = project_file_from_db(&db, r.id).expect("from db");
    assert_eq!(path, "/repos/a");
    assert_eq!(f.intro, Some("about".to_string()));
    assert_eq!(f.tags, vec!["x".to_string()]);
    assert_eq!(project_file_from_db(&db, r.id + 1).map(|_| ()), Err("repository not found".to_string()));
}

#[test]
fn worktree_paths_checked_before_the_disk() {
    let err = |rel: &str| resolve_worktree_file_path("/nonexistent-deskvio/repo", rel);
    assert_eq!(err("   "), Err("path is empty".to_string()));
    assert_eq!(err("/etc/passwd"), Err("absolute paths are not allowed".to_string()));
    assert_eq!(err("\\etc\\passwd"), Err("absolute paths are not allowed".to_string()));
    assert_eq!(err("a/../b"), Err("invalid path segment".to_string()));
    assert_eq!(err("a\\..\\b"), Err("invalid path segment".to_string()));
    assert!(err("a/b").expect_err("no repo").starts_with("repository path: "));
    let segs: Vec<String> = check_worktree_rel(" a\\b//c ")
        .expect("ok")
        .iter()
        .map(|s| s.iter().collect())
        .collect();
    assert_eq!(segs, vec!["a", "b", "", "c"]);
}

#[test]
fn worktree_file_must_stay_inside_the_root() {
    assert_eq!(
        accept_worktree_file("/repo", Err("No such file".to_string()), false),
        Err("resolved path does not exist: No such file".to_string())
    );
    assert_eq!(
        accept_worktree_file("/repo", Ok("/repository/x".to_string()), true),
        Err("path escapes repository root".to_string())
    );
    assert_eq!(
        accept_worktree_file("/repo", Ok("/repo/dir".to_string()), false),
        Err("not a regular file".to_string())
    );
    assert_eq!(
        accept_worktree_file("/repo", Ok("/repo/a.txt".to_string()), true),
        Ok("/repo/a.txt".to_string())
    );
}

#[test]
fn corrupt_cached_listing_is_a_miss() {
    assert_eq!(cache_hit(Some(("abc".to_string(), "{bad".to_string())), "abc"), None);
    assert_eq!(cache_hit(Some(("abc".to_string(), "{}".to_string())), "abc"), None);
}

#[test]
fn pruning_picks_missing_directories_in_order() {
    let mut db = memory_db();
    let a = db.insert_repo("/x/a", None, false, None).expect("a");
    let b = db.insert_repo("/x/b", None, false, None).expect("b");
    let c = db.insert_repo("/x/c", None, false, None).expect("c");
    let recs = vec![a.clone(), b.clone(), c.clone()];
    assert_eq!(prune_plan(&recs, &[false, true, false]), vec![a.id, c.id]);
    assert!(prune_plan(&recs, &[true, true, true]).is_empty());
}

#[test]
fn statement_parameters() {
    let p = favorite_params(7, true);
    assert!(matches!(p.as_slice(), [SqlParam::Integer(1), SqlParam::Integer(7)]));
    let p = head_params(3, None);
    assert!(matches!(p.as_slice(), [SqlParam::Null, SqlParam::Integer(3)]));
    match search_params("a_b").as_slice() {
        [SqlParam::Text(t)] => assert_eq!(t, "%a\\_b%"),
        _ => panic!("expected one text parameter"),
    }
    match insert_params("/r", None, true, Some("h".to_string()), 9).as_slice() {
        [SqlParam::Text(p), SqlParam::Null, SqlParam::Text(t), SqlParam::Integer(1), SqlParam::Text(h), SqlParam::Integer(9)] => {
            assert_eq!(p, "/r");
            assert_eq!(t, "[]");
            assert_eq!(h, "h");
        },
        _ => panic!("expected six parameters"),
    }
}

#[test]
fn equivalent_relative_paths_join_alike() {
    let joined = |rel: &str| push_segments("/repo", &check_worktree_rel(rel).expect("ok"));
    assert_eq!(joined("a/b"), "/repo/a/b");
    assert_eq!(joined(" a\\b//c "), "/repo/a/b/c");
    assert_eq!(joined("a/b/c"), "/repo/a/b/c");
    assert_eq!(joined("a//b/"), joined("a/b"));
}

#[test]
fn a_missing_repository_is_reported() {
    assert_eq!(require_found(None).map(|r| r.id), Err("repository not found".to_string()));
    let mut db = memory_db();
    let a = db.insert_repo("/repos/found", None, false, None).expect("a");
    assert_eq!(require_found(db.get(a.id).expect("get")).map(|r| r.path), Ok("/repos/found".to_string()));
}
