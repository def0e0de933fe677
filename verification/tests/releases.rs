use deskvio::releases::{
    release_segment,
    assert_unique_release_versions, is_safe_asset_stored_path, make_unique_asset_target,
    normalize_release_entries, normalize_stored_path, pick_asset_target, prepare_releases_for_save,
    removed_asset_disk_paths, repo_releases_json_path, repo_releases_meta_dir,
    resolve_asset_disk_path, sanitize_segment, sort_newest_first, stored_paths, ReleaseAsset,
    ReleaseEntry,
};

fn asset(id: &str, name: &str, stored: &str) -> ReleaseAsset {
    ReleaseAsset {
        id: id.to_string(),
        name: name.to_string(),
        stored_path: stored.to_string(),
        original_path: String::new(),
        size_bytes: 5,
        added_at: 100,
    }
}

fn entry(id: &str, version: &str, updated_at: i64, assets: Vec<ReleaseAsset>) -> ReleaseEntry {
    ReleaseEntry {
        id: id.to_string(),
        version: version.to_string(),
        title: String::new(),
        notes: String::new(),
        source_url: String::new(),
        assets,
        created_at: 1,
        updated_at,
    }
}

fn is_lower_hex(c: char) -> bool {
    c.is_ascii_digit() || ('a'..='f').contains(&c)
}

#[test]
fn sanitize_keeps_safe_characters() {
    assert_eq!(sanitize_segment("v1.2.3-rc_1"), "v1.2.3-rc_1");
    assert_eq!(sanitize_segment("AbC09"), "AbC09");
}

#[test]
fn sanitize_replaces_and_strips_underscores() {
    assert_eq!(sanitize_segment("my release!"), "my_release");
    assert_eq!(sanitize_segment("__a b__"), "a_b");
    assert_eq!(sanitize_segment("a/b\\c"), "a_b_c");
    assert_eq!(sanitize_segment("é"), "item");
}

#[test]
fn sanitize_of_nothing_is_item() {
    assert_eq!(sanitize_segment(""), "item");
    assert_eq!(sanitize_segment("!!!"), "item");
    assert_eq!(sanitize_segment("___"), "item");
}

#[test]
fn sanitize_keeps_dot_dot() {
    assert_eq!(sanitize_segment(".."), "..");
}

#[test]
fn sanitize_is_idempotent_on_examples() {
    for s in ["my release!", "", "..", "_x_", "a\tb", "rel/1"] {
        let once = sanitize_segment(s);
        assert_eq!(sanitize_segment(&once), once);
    }
}

#[test]
fn normalize_turns_backslashes_into_slashes() {
    assert_eq!(normalize_stored_path("assets\\r1\\a.bin"), "assets/r1/a.bin");
    assert_eq!(normalize_stored_path("assets/r1/a.bin"), "assets/r1/a.bin");
}

#[test]
fn safe_stored_paths() {
    assert!(is_safe_asset_stored_path("assets/rel1/a1-file.bin"));
    assert!(is_safe_asset_stored_path("assets\\rel1\\a1-file.bin"));
    assert!(is_safe_asset_stored_path("assets/./x"));
}

#[test]
fn unsafe_stored_paths() {
    assert!(!is_safe_asset_stored_path("assets/../secret"));
    assert!(!is_safe_asset_stored_path("assets\\..\\secret"));
    assert!(!is_safe_asset_stored_path("other/file"));
    assert!(!is_safe_asset_stored_path("/assets/file"));
    assert!(!is_safe_asset_stored_path("assets"));
    assert!(!is_safe_asset_stored_path(""));
}

#[test]
fn releases_meta_paths() {
    assert_eq!(repo_releases_meta_dir("/repo"), "/repo/.deskvio/releases");
    assert_eq!(repo_releases_meta_dir("/repo/"), "/repo/.deskvio/releases");
    assert_eq!(
        repo_releases_json_path("/repo"),
        "/repo/.deskvio/releases/releases.json"
    );
}

#[test]
fn resolve_asset_path_ok() {
    assert_eq!(
        resolve_asset_disk_path("/repo", "assets\\rel1\\a1-file.bin"),
        Ok("/repo/.deskvio/releases/assets/rel1/a1-file.bin".to_string())
    );
}

#[test]
fn resolve_asset_path_refuses_unsafe() {
    assert_eq!(
        resolve_asset_disk_path("/repo", "assets/../../etc/passwd"),
        Err("invalid stored asset path".to_string())
    );
    assert_eq!(
        resolve_asset_disk_path("/repo", "/etc/passwd"),
        Err("invalid stored asset path".to_string())
    );
}

#[test]
fn duplicate_version_message_names_the_repeat() {
    let entries = vec![
        entry("a", "v1.0.0", 1, Vec::new()),
        entry("b", "  V1.0.0 ", 1, Vec::new()),
    ];
    assert_eq!(
        assert_unique_release_versions(&entries),
        Err("duplicate release version: V1.0.0".to_string())
    );
}

#[test]
fn empty_versions_are_not_duplicates() {
    let entries = vec![
        entry("a", "", 1, Vec::new()),
        entry("b", "   ", 1, Vec::new()),
        entry("c", "v2", 1, Vec::new()),
        entry("d", "v3", 1, Vec::new()),
    ];
    assert_eq!(assert_unique_release_versions(&entries), Ok(()));
}

#[test]
fn first_duplicate_is_reported() {
    let entries = vec![
        entry("a", "x", 1, Vec::new()),
        entry("b", "y", 1, Vec::new()),
        entry("c", "Y", 1, Vec::new()),
        entry("d", "X", 1, Vec::new()),
    ];
    assert_eq!(
        assert_unique_release_versions(&entries),
        Err("duplicate release version: Y".to_string())
    );
}

#[test]
fn stored_paths_are_normalized() {
    let entries = vec![entry(
        "r",
        "v1",
        1,
        vec![asset("a", "a", "assets\\r\\a"), asset("b", "b", "assets/r/b")],
    )];
    let paths: Vec<String> = stored_paths(&entries)
        .iter()
        .map(|v| v.iter().collect())
        .collect();
    assert_eq!(paths, vec!["assets/r/a".to_string(), "assets/r/b".to_string()]);
}

#[test]
fn removed_assets_are_listed_for_deletion() {
    let previous = vec![entry(
        "rel1",
        "v1",
        1,
        vec![asset("a1", "file.bin", "assets/rel1/a1-file.bin")],
    )];
    let next = vec![entry("rel1", "v1", 1, Vec::new())];
    assert_eq!(
        removed_asset_disk_paths("/repo", &previous, &next),
        vec!["/repo/.deskvio/releases/assets/rel1/a1-file.bin".to_string()]
    );
}

#[test]
fn kept_and_unsafe_assets_are_not_deleted() {
    let previous = vec![entry(
        "rel1",
        "v1",
        1,
        vec![
            asset("a1", "keep", "assets/rel1/keep.bin"),
            asset("a2", "evil", "assets/../outside.bin"),
            asset("a3", "gone", "assets\\rel1\\gone.bin"),
            asset("a4", "gone again", "assets/rel1/gone.bin"),
        ],
    )];
    let next = vec![entry(
        "rel1",
        "v1",
        1,
        vec![asset("a1", "keep", "assets\\rel1\\keep.bin")],
    )];
    assert_eq!(
        removed_asset_disk_paths("/repo", &previous, &next),
        vec!["/repo/.deskvio/releases/assets/rel1/gone.bin".to_string()]
    );
}

#[test]
fn nothing_removed_when_nothing_changes() {
    let previous = vec![entry("rel1", "v1", 1, vec![asset("a1", "f", "assets/rel1/f")])];
    assert!(removed_asset_disk_paths("/repo", &previous, &previous).is_empty());
}

#[test]
fn normalize_entries_trims_and_drops_unversioned() {
    let mut e = entry(" my id ", "  v1.0 ", 5, vec![asset(" x y ", "  name ", "assets\\r\\f")]);
    e.title = "  Title ".to_string();
    e.notes = "\nnotes\n".to_string();
    e.source_url = " https://example.com ".to_string();
    e.assets[0].original_path = " /tmp/f ".to_string();
    let dropped = entry("gone", "   ", 6, Vec::new());
    let out = normalize_release_entries(&[e, dropped]);
    assert_eq!(out.len(), 1);
    let n = &out[0];
    assert_eq!(n.id, "my_id");
    assert_eq!(n.version, "v1.0");
    assert_eq!(n.title, "Title");
    assert_eq!(n.notes, "notes");
    assert_eq!(n.source_url, "https://example.com");
    assert_eq!(n.updated_at, 5);
    assert_eq!(n.assets[0].id, "x_y");
    assert_eq!(n.assets[0].name, "name");
    assert_eq!(n.assets[0].stored_path, "assets/r/f");
    assert_eq!(n.assets[0].original_path, "/tmp/f");
    assert_eq!(n.assets[0].size_bytes, 5);
}

#[test]
fn sort_is_newest_first_and_stable() {
    let v = vec![
        entry("a", "1", 10, Vec::new()),
        entry("b", "2", 30, Vec::new()),
        entry("c", "3", 10, Vec::new()),
        entry("d", "4", 20, Vec::new()),
        entry("e", "5", 30, Vec::new()),
    ];
    let ids: Vec<String> = sort_newest_first(v).into_iter().map(|e| e.id).collect();
    assert_eq!(ids, vec!["b", "e", "d", "a", "c"]);
}

#[test]
fn prepare_for_save_orders_and_normalizes() {
    let input = vec![
        entry("old", "v1", 1, Vec::new()),
        entry("no version", "", 99, Vec::new()),
        entry("new one", " v2 ", 5, Vec::new()),
    ];
    let out = prepare_releases_for_save(&input).expect("saved");
    let ids: Vec<&str> = out.iter().map(|e| e.id.as_str()).collect();
    assert_eq!(ids, vec!["new_one", "old"]);
    assert_eq!(out[0].version, "v2");
}

#[test]
fn prepare_for_save_refuses_duplicates_after_trimming() {
    let input = vec![
        entry("a", "v1", 1, Vec::new()),
        entry("b", "", 1, Vec::new()),
        entry("c", " V1", 1, Vec::new()),
    ];
    assert_eq!(
        prepare_releases_for_save(&input).map(|v| v.len()),
        Err("duplicate release version: V1".to_string())
    );
}

#[test]
fn saving_twice_gives_the_same_releases() {
    let input = vec![
        entry(" a ", " v1 ", 3, vec![asset(" i d", " n ", "assets\\a\\f")]),
        entry("b!", "v2", 7, Vec::new()),
        entry("c", "v3", 3, Vec::new()),
    ];
    let once = prepare_releases_for_save(&input).expect("first save");
    let twice = prepare_releases_for_save(&once).expect("second save");
    assert_eq!(once.len(), twice.len());
    for (x, y) in once.iter().zip(twice.iter()) {
        assert_eq!(x.id, y.id);
        assert_eq!(x.version, y.version);
        assert_eq!(x.updated_at, y.updated_at);
        assert_eq!(x.assets.len(), y.assets.len());
        for (p, q) in x.assets.iter().zip(y.assets.iter()) {
            assert_eq!(p.id, q.id);
            assert_eq!(p.name, q.name);
            assert_eq!(p.stored_path, q.stored_path);
        }
    }
    let ids: Vec<&str> = twice.iter().map(|e| e.id.as_str()).collect();
    assert_eq!(ids, vec!["b", "a", "c"]);
}

#[test]
fn imported_asset_target_has_expected_shape() {
    let (id, rel, disk) =
        make_unique_asset_target("/nonexistent-deskvio-root", "r1", "archive.zip");
    assert_eq!(id.len(), 32);
    assert!(id.chars().all(is_lower_hex));
    assert_eq!(rel, format!("assets/r1/{}-archive.zip", id));
    assert_eq!(
        disk,
        format!("/nonexistent-deskvio-root/.deskvio/releases/{}", rel)
    );
    assert!(is_safe_asset_stored_path(&rel));
    assert_eq!(
        resolve_asset_disk_path("/nonexistent-deskvio-root", &rel),
        Ok(disk)
    );
}

#[test]
fn imported_asset_target_sanitizes_names() {
    let (id, rel, _) = make_unique_asset_target("/nonexistent-deskvio-root", "my rel", "a b.zip");
    assert_eq!(rel, format!("assets/my_rel/{}-a_b.zip", id));
}

#[test]
fn imported_asset_targets_differ() {
    let (a, rel_a, _) = make_unique_asset_target("/nonexistent-deskvio-root", "r1", "archive.zip");
    let (b, rel_b, _) = make_unique_asset_target("/nonexistent-deskvio-root", "r1", "archive.zip");
    assert_ne!(a, b);
    assert_ne!(rel_a, rel_b);
}

#[test]
fn dot_dot_release_id_still_gives_a_safe_path() {
    let (_, rel, disk) = make_unique_asset_target("/nonexistent-deskvio-root", "..", "f");
    assert!(rel.starts_with("assets/item/"));
    assert!(is_safe_asset_stored_path(&rel));
    assert_eq!(resolve_asset_disk_path("/nonexistent-deskvio-root", &rel), Ok(disk));
}

#[test]
fn resolved_assets_stay_in_the_assets_directory() {
    for stored in ["assets/r/a.bin", "assets\\r\\b.bin", "assets/./r/c", "assets//x"] {
        let disk = resolve_asset_disk_path("/repo", stored).expect("safe");
        assert!(std::path::Path::new(&disk).starts_with("/repo/.deskvio/releases/assets"));
    }
}

#[test]
fn asset_target_is_first_free_attempt() {
    let d0 = "0123456789abcdef0123456789abcdef".to_string();
    let d1 = "fedcba9876543210fedcba9876543210".to_string();
    let (id, rel, disk) =
        pick_asset_target("/repo", "r 1", "a.zip", &[d0.clone(), d1.clone()], &[true, false]).expect("free");
    assert_eq!(id, format!("{}-2", d1));
    assert_eq!(rel, format!("assets/r_1/{}-2-a.zip", d1));
    assert_eq!(disk, format!("/repo/.deskvio/releases/{}", rel));
    let (id0, _, _) = pick_asset_target("/repo", "r", "a", &[d0.clone()], &[false]).expect("free");
    assert_eq!(id0, d0);
    assert!(pick_asset_target("/repo", "r", "a", &[d0], &[true]).is_none());
}

#[test]
fn a_taken_asset_path_is_not_picked_again() {
    let d0 = "0123456789abcdef0123456789abcdef".to_string();
    let (_, rel1, dst1) = pick_asset_target("/repo", "r1", "archive.zip", &[d0.clone()], &[false]).expect("free");
    // The same draw again: its path now holds the first import, so it is reported taken.
    let d1 = "fedcba9876543210fedcba9876543210".to_string();
    let (_, rel2, dst2) =
        pick_asset_target("/repo", "r1", "archive.zip", &[d0, d1], &[true, false]).expect("free");
    assert_ne!(rel1, rel2);
    assert_ne!(dst1, dst2);
    assert!(rel2.starts_with("assets/r1/"));
    assert!(rel2.ends_with("-archive.zip"));
}

#[test]
fn release_folder_is_never_dot_or_dot_dot() {
    assert_eq!(release_segment(".."), "item");
    assert_eq!(release_segment("."), "item");
    assert_eq!(release_segment("v1.0"), "v1.0");
    assert_eq!(release_segment("..."), "...");
    let d0 = "0123456789abcdef0123456789abcdef".to_string();
    for id in ["..", "."] {
        let (_, rel, _) = pick_asset_target("/repo", id, "a.zip", &[d0.clone()], &[false]).expect("free");
        assert_eq!(rel, format!("assets/item/{}-a.zip", d0));
        assert!(is_safe_asset_stored_path(&rel));
    }
}
