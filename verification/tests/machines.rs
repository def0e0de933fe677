use deskvio::clone::{cancel_wait_step, CancelWait};
use deskvio::db_open::{backup_path, DbOpening, DbRepairStatus, OpenAction, OpenEvent};
use deskvio::remote_update::{
    has_tracked_uncommitted, GitStep, RemoteUpdate, StepOutcome, UpdateAction,
};
use deskvio::zip_import::{
    check_zip_entry_count, entry_path_stays_inside, import_dest, zip_entry_step, ZipEntryAction,
    ZipEntryInfo,
};

fn exited(success: bool, stdout: &str, stderr: &str) -> StepOutcome {
    StepOutcome::Exited { success, stdout: stdout.to_string(), stderr: stderr.to_string() }
}

fn finished(a: UpdateAction) -> (bool, bool, bool, Option<String>) {
    match a {
        UpdateAction::Finish(Ok(r)) => (r.ok, r.dirty, r.stashed, r.error),
        _ => panic!("expected a report"),
    }
}

#[test]
fn untracked_and_ignored_files_do_not_count() {
    assert!(!has_tracked_uncommitted(""));
    assert!(!has_tracked_uncommitted("?? new.txt\n!! build/\n\n"));
    assert!(has_tracked_uncommitted("?? new.txt\n M src/lib.rs\n"));
    assert!(has_tracked_uncommitted("A  added.rs"));
    assert!(has_tracked_uncommitted("   D gone.rs"));
}

#[test]
fn clean_update_fetches_and_resets() {
    let (mut u, a) = RemoteUpdate::start(false, 0);
    assert!(matches!(a, UpdateAction::Run(GitStep::Status)));
    let a = u.step(exited(true, "?? x\n", ""));
    assert!(matches!(a, UpdateAction::Run(GitStep::FetchOrigin)));
    let a = u.step(exited(true, "", ""));
    assert!(matches!(a, UpdateAction::Run(GitStep::ResetHard)));
    let a = u.step(exited(true, "", ""));
    assert!(matches!(a, UpdateAction::RecordHead));
    assert_eq!(finished(u.step(exited(true, "", ""))), (true, false, false, None));
}

#[test]
fn dirty_worktree_stops_plain_update() {
    let (mut u, _) = RemoteUpdate::start(false, 0);
    assert_eq!(finished(u.step(exited(true, " M a.rs\n", ""))), (false, true, false, None));
    let again = u.step(exited(true, "", ""));
    match again {
        UpdateAction::Finish(Err(m)) => assert_eq!(m, "update already finished"),
        _ => panic!("expected an error"),
    }
}

#[test]
fn dirty_worktree_is_stashed_by_auto_update() {
    let (mut u, _) = RemoteUpdate::start(true, 1700000000);
    match u.step(exited(true, " M a.rs\n", "")) {
        UpdateAction::Run(GitStep::StashPush(m)) => assert_eq!(m, "deskvio-overwrite-1700000000"),
        _ => panic!("expected a stash"),
    }
    assert!(matches!(u.step(exited(true, "", "")), UpdateAction::Run(GitStep::FetchOrigin)));
    assert!(matches!(u.step(exited(true, "", "")), UpdateAction::Run(GitStep::ResetHard)));
    assert!(matches!(u.step(exited(true, "", "")), UpdateAction::RecordHead));
    assert_eq!(finished(u.step(exited(false, "", ""))), (true, false, true, None));
}

#[test]
fn failed_steps_are_reported() {
    let (mut u, _) = RemoteUpdate::start(false, 0);
    assert_eq!(
        finished(u.step(exited(false, "", " fatal: not a git repository \n"))),
        (false, false, false, Some("fatal: not a git repository".to_string()))
    );

    let (mut u, _) = RemoteUpdate::start(true, 5);
    let _ = u.step(exited(true, "M x\n", ""));
    assert_eq!(
        finished(u.step(exited(false, "", "no local changes\n"))),
        (false, false, false, Some("stash failed: no local changes".to_string()))
    );

    let (mut u, _) = RemoteUpdate::start(false, 0);
    let _ = u.step(exited(true, "", ""));
    assert_eq!(
        finished(u.step(exited(false, "", "network down"))),
        (false, false, false, Some("fetch failed: network down".to_string()))
    );

    let (mut u, _) = RemoteUpdate::start(false, 0);
    let _ = u.step(exited(true, "", ""));
    let _ = u.step(exited(true, "", ""));
    assert_eq!(
        finished(u.step(exited(false, "", "bad ref"))),
        (false, false, false, Some("reset failed: bad ref".to_string()))
    );
}

#[test]
fn spawn_failure_ends_the_request() {
    let (mut u, _) = RemoteUpdate::start(false, 0);
    match u.step(StepOutcome::SpawnFailed("No such file or directory".to_string())) {
        UpdateAction::Finish(Err(m)) => assert_eq!(m, "No such file or directory"),
        _ => panic!("expected an error"),
    }
}

#[test]
fn backup_name_sits_next_to_the_database() {
    assert_eq!(backup_path("/app", "hub.db", "abc"), "/app/hub.db.bak.abc");
}

fn start() -> DbOpening {
    let (o, a) = DbOpening::start(
        "/app/hub.db".to_string(),
        "/app/hub.db.bak.x".to_string(),
        "/tmp/deskvio/db-x".to_string(),
    );
    match a {
        OpenAction::Open(p) => assert_eq!(p, "/app/hub.db"),
        _ => panic!("expected an open"),
    }
    o
}

fn status_of(a: OpenAction) -> (DbRepairStatus, String) {
    match a {
        OpenAction::Finish(Ok(info)) => (info.status, info.db_path),
        _ => panic!("expected a status"),
    }
}

#[test]
fn database_that_opens_is_intact() {
    let mut o = start();
    let (s, p) = status_of(o.step(OpenEvent::Opened));
    assert!(s == DbRepairStatus::Intact);
    assert_eq!(p, "/app/hub.db");
}

#[test]
fn corrupt_database_is_moved_aside_and_recreated() {
    let mut o = start();
    match o.step(OpenEvent::OpenFailed("file is not a database".to_string())) {
        OpenAction::MoveAside { backup } => assert_eq!(backup, "/app/hub.db.bak.x"),
        _ => panic!("expected a move"),
    }
    match o.step(OpenEvent::MovedAside) {
        OpenAction::Open(p) => assert_eq!(p, "/app/hub.db"),
        _ => panic!("expected an open"),
    }
    let (s, p) = status_of(o.step(OpenEvent::Opened));
    assert!(s == DbRepairStatus::Repaired);
    assert_eq!(p, "/app/hub.db");
}

#[test]
fn unusable_directory_falls_back_to_temporary_database() {
    let mut o = start();
    let _ = o.step(OpenEvent::OpenFailed("a".to_string()));
    let _ = o.step(OpenEvent::MovedAside);
    match o.step(OpenEvent::OpenFailed("readonly".to_string())) {
        OpenAction::MakeDir(d) => assert_eq!(d, "/tmp/deskvio/db-x"),
        _ => panic!("expected a directory"),
    }
    match o.step(OpenEvent::DirCreated) {
        OpenAction::Open(p) => assert_eq!(p, "/tmp/deskvio/db-x/hub.db"),
        _ => panic!("expected an open"),
    }
    let (s, p) = status_of(o.step(OpenEvent::Opened));
    assert!(s == DbRepairStatus::Temp);
    assert_eq!(p, "/tmp/deskvio/db-x/hub.db");
}

#[test]
fn start_up_fails_with_the_second_error() {
    let mut o = start();
    let _ = o.step(OpenEvent::OpenFailed("a".to_string()));
    let _ = o.step(OpenEvent::MovedAside);
    let _ = o.step(OpenEvent::OpenFailed("readonly".to_string()));
    match o.step(OpenEvent::DirFailed) {
        OpenAction::Finish(Err(m)) => assert_eq!(m, "readonly"),
        _ => panic!("expected an error"),
    }

    let mut o = start();
    let _ = o.step(OpenEvent::OpenFailed("a".to_string()));
    let _ = o.step(OpenEvent::MovedAside);
    let _ = o.step(OpenEvent::OpenFailed("readonly".to_string()));
    let _ = o.step(OpenEvent::DirCreated);
    match o.step(OpenEvent::OpenFailed("temp broken".to_string())) {
        OpenAction::Finish(Err(m)) => assert_eq!(m, "readonly"),
        _ => panic!("expected an error"),
    }
}

#[test]
fn zip_entry_count_limit() {
    assert_eq!(check_zip_entry_count(20000), Ok(()));
    assert_eq!(
        check_zip_entry_count(20001),
        Err("zip contains too many entries: 20001 (max 20000)".to_string())
    );
}

fn zentry(name: &str, enclosed: Option<&str>, size: u64) -> ZipEntryInfo {
    ZipEntryInfo { name: name.to_string(), enclosed: enclosed.map(|s| s.to_string()), declared_size: size }
}

#[test]
fn zip_entries_become_files_and_directories() {
    match zip_entry_step("/dest/import-1", 10, &zentry("a/b.txt", Some("a/b.txt"), 5)) {
        Ok((t, ZipEntryAction::WriteFile(f))) => {
            assert_eq!(t, 15);
            assert_eq!(f, "/dest/import-1/a/b.txt");
        },
        _ => panic!("expected a file"),
    }
    match zip_entry_step("/dest/import-1", 0, &zentry("a/", Some("a"), 0)) {
        Ok((t, ZipEntryAction::CreateDir(d))) => {
            assert_eq!(t, 0);
            assert_eq!(d, "/dest/import-1/a");
        },
        _ => panic!("expected a directory"),
    }
    match zip_entry_step("/dest", 7, &zentry("../evil", None, 100)) {
        Ok((t, ZipEntryAction::Skip)) => assert_eq!(t, 7),
        _ => panic!("expected a skip"),
    }
}

#[test]
fn zip_entry_limits() {
    let deep: String = vec!["d"; 33].join("/");
    assert_eq!(
        zip_entry_step("/dest", 0, &zentry(&deep, Some(&deep), 1)).map(|_| ()),
        Err(format!("zip entry path too deep: {} (max depth 32)", deep))
    );
    assert_eq!(
        zip_entry_step("/dest", 0, &zentry("big", Some("big"), 256_000_001)).map(|_| ()),
        Err("zip entry too large: 256000001 bytes (max 256000000)".to_string())
    );
    assert_eq!(
        zip_entry_step("/dest", 999_999_990, &zentry("f", Some("f"), 11)).map(|_| ()),
        Err("zip unpack size exceeds limit: 1000000001 bytes (max 1000000000)".to_string())
    );
    assert_eq!(
        zip_entry_step("/dest", u64::MAX - 1, &zentry("f", Some("f"), 2)).map(|_| ()),
        Err("zip unpack size overflow".to_string())
    );
    let ok_deep: String = vec!["d"; 32].join("/");
    assert!(zip_entry_step("/dest", 0, &zentry(&ok_deep, Some(&ok_deep), 1)).is_ok());
}

#[test]
fn unpacked_entries_stay_in_the_import_directory() {
    let dest = import_dest("/repos/", 42);
    assert_eq!(dest, "/repos/import-42");
    for p in ["a", "./a/b", "a/../b", "x/y/z.txt"] {
        match zip_entry_step(&dest, 0, &zentry(p, Some(p), 1)) {
            Ok((_, ZipEntryAction::WriteFile(f))) => {
                assert!(std::path::Path::new(&f).starts_with(&dest));
            },
            _ => panic!("expected a file"),
        }
    }
}

#[test]
fn failure_after_a_stash_reports_the_stash() {
    let (mut u, _) = RemoteUpdate::start(true, 7);
    let _ = u.step(exited(true, " M a.rs\n", ""));
    assert!(matches!(u.step(exited(true, "", "")), UpdateAction::Run(GitStep::FetchOrigin)));
    assert_eq!(
        finished(u.step(exited(false, "", "offline\n"))),
        (false, false, true, Some("fetch failed: offline".to_string()))
    );

    let (mut u, _) = RemoteUpdate::start(true, 7);
    let _ = u.step(exited(true, " M a.rs\n", ""));
    let _ = u.step(exited(true, "", ""));
    let _ = u.step(exited(true, "", ""));
    assert_eq!(
        finished(u.step(exited(false, "", "locked"))),
        (false, false, true, Some("reset failed: locked".to_string()))
    );
}

#[test]
fn cancelled_target_is_polled_six_times_at_most() {
    assert!(matches!(cancel_wait_step(0, false), CancelWait::Gone));
    assert!(matches!(cancel_wait_step(0, true), CancelWait::PollAfterMs(200)));
    assert!(matches!(cancel_wait_step(5, true), CancelWait::PollAfterMs(200)));
    assert!(matches!(cancel_wait_step(6, true), CancelWait::StillThere));
    assert!(matches!(cancel_wait_step(6, false), CancelWait::Gone));
}

#[test]
fn entry_paths_that_climb_are_left_out() {
    assert!(entry_path_stays_inside("a/b.txt"));
    assert!(entry_path_stays_inside("a/../b.txt"));
    assert!(entry_path_stays_inside("./a"));
    assert!(!entry_path_stays_inside("a/../../x"));
    assert!(!entry_path_stays_inside("../x"));
    assert!(!entry_path_stays_inside("/etc/x"));
    let entry = ZipEntryInfo {
        name: "a/../../x".to_string(),
        enclosed: Some("a/../../x".to_string()),
        declared_size: 3,
    };
    match zip_entry_step("/dest", 10, &entry) {
        Ok((t, ZipEntryAction::Skip)) => assert_eq!(t, 10),
        _ => panic!("expected the entry to be left out"),
    }
}
