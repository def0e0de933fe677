use deskvio::db::Database;
use deskvio::hub::{blob_base64, register_repo};
use deskvio::migrate::{
    app_data_root, hub_db_path, legacy_app_data_roots, legacy_joined_app_data_root,
    legacy_marker_path, pick_legacy_source, LegacyMigration, MigrateAction, MigrateEvent,
};
use deskvio::repo_meta::RepoProjectFile;
use deskvio::zip_import::{checked_entry_count, import_dest, open_archive, zip_entry_info};
use std::io::Write;

fn expect_exists(a: MigrateAction) -> String {
    match a {
        MigrateAction::CheckExists(p) => p,
        _ => panic!("expected an existence check"),
    }
}

fn expect_rename(a: MigrateAction) -> (String, String) {
    match a {
        MigrateAction::Rename { from, to } => (from, to),
        _ => panic!("expected a rename"),
    }
}

fn is_ok_finish(a: &MigrateAction) -> bool {
    matches!(a, MigrateAction::Finish(Ok(())))
}

#[test]
fn same_directory_needs_no_migration() {
    let (_, a) = LegacyMigration::start("/data/deskvio/".to_string(), "/data//deskvio".to_string());
    assert!(is_ok_finish(&a));
}

#[test]
fn existing_database_stops_migration() {
    let (mut m, a) = LegacyMigration::start("/data/deskvio/deskvio".to_string(), "/data/deskvio".to_string());
    assert_eq!(expect_exists(a), "/data/deskvio/hub.db");
    assert!(is_ok_finish(&m.step(MigrateEvent::Answer(true))));
}

#[test]
fn missing_old_database_stops_migration() {
    let (mut m, _) = LegacyMigration::start("/old".to_string(), "/new".to_string());
    assert_eq!(expect_exists(m.step(MigrateEvent::Answer(false))), "/old/hub.db");
    assert!(is_ok_finish(&m.step(MigrateEvent::Answer(false))));
}

#[test]
fn old_directory_is_renamed_when_new_one_is_missing() {
    let (mut m, _) = LegacyMigration::start("/d/deskvio/deskvio".to_string(), "/d/deskvio".to_string());
    let _ = m.step(MigrateEvent::Answer(false));
    assert_eq!(expect_exists(m.step(MigrateEvent::Answer(true))), "/d/deskvio");
    match m.step(MigrateEvent::Answer(false)) {
        MigrateAction::CreateParentDirs(p) => assert_eq!(p, "/d/deskvio"),
        _ => panic!("expected parent directories"),
    }
    assert_eq!(
        expect_rename(m.step(MigrateEvent::Done)),
        ("/d/deskvio/deskvio".to_string(), "/d/deskvio".to_string())
    );
    assert!(is_ok_finish(&m.step(MigrateEvent::Done)));
}

#[test]
fn database_is_copied_when_it_cannot_be_renamed() {
    let (mut m, _) = LegacyMigration::start("/old".to_string(), "/new".to_string());
    let _ = m.step(MigrateEvent::Answer(false));
    let _ = m.step(MigrateEvent::Answer(true));
    assert_eq!(expect_exists(m.step(MigrateEvent::Answer(true))), "/new/hub.db");
    assert_eq!(
        expect_rename(m.step(MigrateEvent::Answer(false))),
        ("/old/hub.db".to_string(), "/new/hub.db".to_string())
    );
    match m.step(MigrateEvent::Failed("cross-device link".to_string())) {
        MigrateAction::CopyFile { from, to } => {
            assert_eq!(from, "/old/hub.db");
            assert_eq!(to, "/new/hub.db");
        },
        _ => panic!("expected a copy"),
    }
    match m.step(MigrateEvent::Done) {
        MigrateAction::RemoveFile(p) => assert_eq!(p, "/old/hub.db"),
        _ => panic!("expected a removal"),
    }
    assert_eq!(expect_exists(m.step(MigrateEvent::Done)), "/old/repositories");
    assert!(is_ok_finish(&m.step(MigrateEvent::Answer(false))));
}

#[test]
fn failed_copy_ends_migration_with_its_error() {
    let (mut m, _) = LegacyMigration::start("/old".to_string(), "/new".to_string());
    let _ = m.step(MigrateEvent::Answer(false));
    let _ = m.step(MigrateEvent::Answer(true));
    let _ = m.step(MigrateEvent::Answer(true));
    let _ = m.step(MigrateEvent::Answer(false));
    let _ = m.step(MigrateEvent::Failed("x".to_string()));
    match m.step(MigrateEvent::Failed("disk full".to_string())) {
        MigrateAction::Finish(Err(e)) => assert_eq!(e, "disk full"),
        _ => panic!("expected an error"),
    }
    match m.step(MigrateEvent::Done) {
        MigrateAction::Finish(Err(e)) => assert_eq!(e, "migration already finished"),
        _ => panic!("expected an error"),
    }
}

#[test]
fn repositories_are_moved_entry_by_entry_when_needed() {
    let (mut m, _) = LegacyMigration::start("/old".to_string(), "/new".to_string());
    let _ = m.step(MigrateEvent::Answer(false));
    let _ = m.step(MigrateEvent::Answer(true));
    let _ = m.step(MigrateEvent::Answer(true));
    assert_eq!(expect_exists(m.step(MigrateEvent::Answer(true))), "/old/repositories");
    assert_eq!(expect_exists(m.step(MigrateEvent::Answer(true))), "/new/repositories");
    assert_eq!(
        expect_rename(m.step(MigrateEvent::Answer(false))),
        ("/old/repositories".to_string(), "/new/repositories".to_string())
    );
    match m.step(MigrateEvent::Failed("busy".to_string())) {
        MigrateAction::CreateDirAll(p) => assert_eq!(p, "/new/repositories"),
        _ => panic!("expected a directory"),
    }
    match m.step(MigrateEvent::Done) {
        MigrateAction::ReadDir(p) => assert_eq!(p, "/old/repositories"),
        _ => panic!("expected a listing"),
    }
    assert!(matches!(m.step(MigrateEvent::Done), MigrateAction::NextEntry));
    match m.step(MigrateEvent::Entry("proj".to_string())) {
        MigrateAction::IsDir(p) => assert_eq!(p, "/old/repositories/proj"),
        _ => panic!("expected a kind check"),
    }
    assert_eq!(
        expect_rename(m.step(MigrateEvent::Answer(true))),
        ("/old/repositories/proj".to_string(), "/new/repositories/proj".to_string())
    );
    assert!(matches!(m.step(MigrateEvent::Done), MigrateAction::NextEntry));
    let _ = m.step(MigrateEvent::Entry("notes.txt".to_string()));
    match m.step(MigrateEvent::Answer(false)) {
        MigrateAction::CopyFile { from, to } => {
            assert_eq!(from, "/old/repositories/notes.txt");
            assert_eq!(to, "/new/repositories/notes.txt");
        },
        _ => panic!("expected a copy"),
    }
    assert!(matches!(m.step(MigrateEvent::Done), MigrateAction::NextEntry));
    assert!(is_ok_finish(&m.step(MigrateEvent::NoMore)));
}

#[test]
fn legacy_source_is_first_usable_candidate() {
    let c = vec![
        ("/new/".to_string(), true),
        ("/a".to_string(), false),
        ("/b".to_string(), true),
        ("/c".to_string(), true),
    ];
    assert_eq!(pick_legacy_source("/new", false, false, &c), Some(2));
    assert_eq!(pick_legacy_source("/new", true, false, &c), None);
    assert_eq!(pick_legacy_source("/new", false, true, &c), None);
    assert_eq!(pick_legacy_source("/new", false, false, &c[..2]), None);
}

#[test]
fn data_directory_files() {
    assert_eq!(hub_db_path("/data"), "/data/hub.db");
    assert_eq!(legacy_marker_path("/data"), "/data/.migrated-from-legacy");
}

#[test]
fn data_directories_follow_the_application_name() {
    if let Ok(root) = app_data_root() {
        assert!(root.ends_with("deskvio"));
        assert_eq!(legacy_joined_app_data_root(), Ok(format!("{}/deskvio", root)));
    } else {
        assert_eq!(
            legacy_joined_app_data_root(),
            Err("could not resolve application data directory".to_string())
        );
    }
    for r in legacy_app_data_roots() {
        assert!(r.ends_with("/projectshelf") || r.ends_with("/offline-git-hub"));
    }
}

#[test]
fn import_directory_is_named_after_the_time() {
    assert_eq!(import_dest("/repos", 1700000000123), "/repos/import-1700000000123");
}

#[test]
fn bytes_that_are_not_an_archive_are_refused() {
    let r = open_archive(b"not a zip".to_vec());
    assert!(r.expect_err("invalid").starts_with("invalid zip: "));
}

#[test]
fn archive_entries_are_counted() {
    let mut buf = std::io::Cursor::new(Vec::new());
    {
        let mut w = zip::ZipWriter::new(&mut buf);
        let opts = zip::write::SimpleFileOptions::default()
            .compression_method(zip::CompressionMethod::Stored);
        w.add_directory("a/", opts).expect("dir");
        w.start_file("a/b.txt", opts).expect("file");
        w.write_all(b"hello").expect("write");
        w.finish().expect("finish");
    }
    let archive = open_archive(buf.into_inner()).expect("archive");
    assert_eq!(checked_entry_count(&archive), Ok(2));
}

#[test]
fn base64_of_bytes() {
    assert_eq!(blob_base64(b"hello"), "aGVsbG8=");
    assert_eq!(blob_base64(b""), "");
    assert_eq!(blob_base64(&[0xff, 0xfe, 0xfd]), "//79");
}

#[test]
fn registering_copies_the_project_file() {
    let mut db = Database::open(":memory:").expect("db");
    let file = RepoProjectFile { version: 1, intro: Some("about".to_string()), tags: vec!["t".to_string()] };
    let rec = register_repo(&mut db, "/repos/a", Some("a".to_string()), false, None, Some(file)).expect("register");
    assert_eq!(rec.project_intro, Some("about".to_string()));
    assert_eq!(rec.tags, vec!["t".to_string()]);
    let again = register_repo(&mut db, "/repos/a", None, false, Some("h".to_string()), None).expect("again");
    assert_eq!(again.id, rec.id);
    assert_eq!(again.display_name, Some("a".to_string()));
    assert_eq!(again.last_head, Some("h".to_string()));
    assert_eq!(again.tags, vec!["t".to_string()]);
}

#[test]
fn archive_entries_are_read_with_their_safe_paths() {
    let mut buf = std::io::Cursor::new(Vec::new());
    {
        let mut w = zip::ZipWriter::new(&mut buf);
        let opts = zip::write::SimpleFileOptions::default()
            .compression_method(zip::CompressionMethod::Stored);
        w.start_file("a/b.txt", opts).expect("file");
        w.write_all(b"hello").expect("write");
        w.start_file("../evil.txt", opts).expect("file");
        w.write_all(b"x").expect("write");
        w.finish().expect("finish");
    }
    let mut archive = open_archive(buf.into_inner()).expect("archive");
    let first = zip_entry_info(&mut archive, 0).expect("entry");
    assert_eq!(first.name, "a/b.txt");
    assert_eq!(first.enclosed, Some("a/b.txt".to_string()));
    assert_eq!(first.declared_size, 5);
    let second = zip_entry_info(&mut archive, 1).expect("entry");
    assert_eq!(second.name, "../evil.txt");
    assert_eq!(second.enclosed, None);
    assert!(zip_entry_info(&mut archive, 2).is_err());
}
