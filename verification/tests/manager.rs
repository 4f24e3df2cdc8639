//! The record store: locating the handle, sanitizing archive paths,
//! planning installs and replaying uninstalls.

use std::collections::HashMap;

use kmmgr::mod_manager::{
    sanitize_file_path, Error, InstallAction, InstallPlan, ModManager, ZipEntry,
};
use kmmgr::records::{Record, Records};
use kmmgr::text::parse_u64;

fn manager() -> ModManager {
    ModManager::from_res_mods_path("game/bin/10/res_mods".to_string())
}

#[test]
fn locate_picks_greatest_build() {
    let entries = vec!["junk".to_string(), "10".to_string(), "2".to_string()];
    let m = ModManager::try_from_game_dir("game", &entries).expect("a numeric build exists");
    assert_eq!(m.path(), "game/bin/10/res_mods");
}

#[test]
fn locate_later_entry_wins_ties() {
    let entries = vec!["10".to_string(), "010".to_string()];
    let m = ModManager::try_from_game_dir("game", &entries).expect("a numeric build exists");
    assert_eq!(m.path(), "game/bin/010/res_mods");
}

#[test]
fn locate_fails_without_numeric_build() {
    let entries = vec!["res".to_string(), "v1.2".to_string()];
    match ModManager::try_from_game_dir("game", &entries) {
        Err(Error::ResModsDirNotFound { game_dir_path }) => assert_eq!(game_dir_path, "game"),
        other => panic!("expected ResModsDirNotFound, got {:?}", other),
    }
}

#[test]
fn build_numbers_parse_like_u64() {
    assert_eq!(parse_u64("10"), Some(10));
    assert_eq!(parse_u64("+7"), Some(7));
    assert_eq!(parse_u64(""), None);
    assert_eq!(parse_u64("1.2"), None);
    assert_eq!(parse_u64("18446744073709551615"), Some(u64::MAX));
    assert_eq!(parse_u64("18446744073709551616"), None);
}

#[test]
fn manifest_path_sits_in_res_mods() {
    let m = manager();
    assert_eq!(m.manifest_path(), "game/bin/10/res_mods/.kmmgr.json");
    assert_eq!(m.full_path("a.txt"), "game/bin/10/res_mods/a.txt");
}

#[test]
fn paths_are_sanitized_per_segment() {
    assert_eq!(sanitize_file_path("a.txt"), "a.txt");
    assert_eq!(sanitize_file_path("dir/b.txt"), "dir/b.txt");
    assert_eq!(sanitize_file_path("dir\\b.txt"), "dir/b.txt");
    assert_eq!(sanitize_file_path("di:r/b*.txt"), "dir/b.txt");
    // traversal segments collapse to nothing
    assert_eq!(sanitize_file_path("../evil"), "/evil");
    assert_eq!(sanitize_file_path("a/../b"), "a//b");
}

fn entry(name: &str, dir: bool) -> ZipEntry {
    ZipEntry { name: name.to_string(), is_dir: dir }
}

#[test]
fn install_plan_lists_every_path_in_entry_order() {
    let m = manager();
    let entries = vec![entry("a.txt", false), entry("dir", true), entry("dir/b.txt", false)];
    let exists = vec![false, false, false];
    let plan = m.install_zip_plan(&entries, &exists).expect("no conflicts");
    assert_eq!(plan.files, vec!["a.txt", "dir", "dir/b.txt"]);
    assert_eq!(plan.actions.len(), 3);
    match &plan.actions[0] {
        InstallAction::WriteFile { path, entry_index } => {
            assert_eq!(path, "a.txt");
            assert_eq!(*entry_index, 0);
        }
        other => panic!("expected a file write, got {:?}", other),
    }
    match &plan.actions[1] {
        InstallAction::MakeDir { path } => assert_eq!(path, "dir"),
        other => panic!("expected a directory, got {:?}", other),
    }
    match &plan.actions[2] {
        InstallAction::WriteFile { path, entry_index } => {
            assert_eq!(path, "dir/b.txt");
            assert_eq!(*entry_index, 2);
        }
        other => panic!("expected a file write, got {:?}", other),
    }
}

#[test]
fn existing_directories_are_skipped_not_conflicts() {
    let m = manager();
    let entries = vec![entry("dir", true), entry("dir/b.txt", false)];
    let exists = vec![true, false];
    let plan = m.install_zip_plan(&entries, &exists).expect("a present directory is fine");
    assert_eq!(plan.files, vec!["dir", "dir/b.txt"]);
    assert_eq!(plan.actions.len(), 1);
}

#[test]
fn existing_file_refuses_whole_install() {
    let m = manager();
    let entries = vec![entry("a.txt", false), entry("dir/b.txt", false)];
    let exists = vec![true, true];
    match m.install_zip_plan(&entries, &exists) {
        Err(Error::FileConflict { file }) => assert_eq!(file, "a.txt"),
        other => panic!("expected the first conflict, got {:?}", other),
    }
}

/// A tiny directory model for exercising plans end to end in the tests:
/// path -> is_dir.
fn apply(plan: &InstallPlan, fs: &mut HashMap<String, bool>) {
    for action in plan.actions.iter() {
        match action {
            InstallAction::MakeDir { path } => {
                fs.insert(path.clone(), true);
            }
            InstallAction::WriteFile { path, .. } => {
                fs.insert(path.clone(), false);
            }
        }
    }
}

fn exists_flags(entries: &[ZipEntry], fs: &HashMap<String, bool>) -> Vec<bool> {
    // the manager's own sanitization decides which destination is checked
    entries.iter().map(|e| fs.contains_key(&sanitize_file_path(&e.name))).collect()
}

#[test]
fn scenario_install_then_rerun_conflicts() {
    // archive ["a.txt", "dir/b.txt"] into an empty directory as m1 1.0
    let m = manager();
    let entries = vec![entry("a.txt", false), entry("dir/b.txt", false)];
    let mut fs: HashMap<String, bool> = HashMap::new();
    let exists = exists_flags(&entries, &fs);
    let plan = m.install_zip_plan(&entries, &exists).expect("empty directory");
    assert_eq!(plan.files, vec!["a.txt", "dir/b.txt"]);
    apply(&plan, &mut fs);
    assert_eq!(fs.get("a.txt"), Some(&false));
    assert_eq!(fs.get("dir/b.txt"), Some(&false));

    let rec = m.install_record("1.0", 123, &plan);
    assert!(rec.metadata.is_none());
    assert_eq!(rec.version, "1.0");
    assert_eq!(rec.update_time, 123);
    assert_eq!(rec.files, vec!["a.txt", "dir/b.txt"]);
    let mut records = Records::new();
    records.insert("m1".to_string(), rec);

    // installing the same archive again before uninstalling conflicts on a.txt
    let exists2 = exists_flags(&entries, &fs);
    match m.install_zip_plan(&entries, &exists2) {
        Err(Error::FileConflict { file }) => assert_eq!(file, "a.txt"),
        other => panic!("expected FileConflict on a.txt, got {:?}", other),
    }
}

#[test]
fn retry_after_dirs_only_is_safe() {
    let m = manager();
    let entries = vec![entry("dir", true), entry("dir/b.txt", false)];
    let mut fs: HashMap<String, bool> = HashMap::new();
    fs.insert("dir".to_string(), true); // an earlier attempt created the directory, wrote nothing
    let exists = exists_flags(&entries, &fs);
    assert!(m.install_zip_plan(&entries, &exists).is_ok());
}

#[test]
fn uninstall_replays_exactly_the_recorded_files() {
    let m = manager();
    let entries = vec![entry("a.txt", false), entry("dir", true), entry("dir/b.txt", false)];
    let mut fs: HashMap<String, bool> = HashMap::new();
    fs.insert("keep.txt".to_string(), false);
    let exists = exists_flags(&entries, &fs);
    let plan = m.install_zip_plan(&entries, &exists).expect("no conflicts");
    apply(&plan, &mut fs);

    let mut records = Records::new();
    records.insert("m1".to_string(), m.install_record("1.0", 5, &plan));

    let files = m.uninstall_files(&records, "m1").expect("m1 is recorded");
    assert_eq!(files, vec!["a.txt", "dir", "dir/b.txt"]);
    for f in files.iter() {
        // directories recorded in the list are left alone
        if fs.get(f) == Some(&false) {
            fs.remove(f);
        }
    }
    assert_eq!(fs.len(), 2);
    assert_eq!(fs.get("keep.txt"), Some(&false)); // untouched outside the list
    assert_eq!(fs.get("dir"), Some(&true)); // directories stay behind
    // the record itself stays in the manifest after a successful removal
    assert!(records.get("m1").is_some());
}

#[test]
fn scenario_uninstall_unknown_id_reports_nothing_removed() {
    let m = manager();
    let mut records = Records::new();
    records.insert(
        "other".to_string(),
        Record { metadata: None, update_time: 1, version: "1".to_string(), files: vec![] },
    );
    assert!(m.uninstall_files(&records, "m1").is_none());
    // the no-op safeguard: removing the stale id leaves the manifest as it was
    records.remove("m1");
    assert_eq!(records.len(), 1);
    assert!(records.get("other").is_some());
}
