//! Task lifecycles, progress reporting, and the scheduling of the single
//! record-store handle.

use kmmgr::mod_manager::ModManager;
use kmmgr::orchestrator::{Directive, Orchestrator};
use kmmgr::progress::{Progress, PROGRESS_SCALE};
use kmmgr::registry::{Mod, Registry};
use kmmgr::records::{Record, Records};
use kmmgr::tasks::{
    archive_type_supported, Download, DownloadError, DownloadState, DownloadUpdate, Install,
    InstallState, Uninstall, UninstallState,
};

fn handle() -> ModManager {
    ModManager::from_res_mods_path("game/bin/10/res_mods".to_string())
}

fn listing(id: &str, url: &str) -> Mod {
    Mod {
        id: id.to_string(),
        version: "1.0".to_string(),
        url: url.to_string(),
        image_url: String::new(),
        name: format!("The {} mod", id),
    }
}

#[test]
fn progress_fraction_stays_in_range() {
    let half = Progress { current: 5, max: 10 };
    assert_eq!(half.fraction_scaled(), (PROGRESS_SCALE / 2) as i64);
    let none = Progress { current: 0, max: 10 };
    assert_eq!(none.fraction_scaled(), 0);
    let done = Progress { current: 10, max: 10 };
    assert_eq!(done.fraction_scaled(), PROGRESS_SCALE as i64);
    // a total beyond the declared size still reads as complete, never above one
    let over = Progress { current: 11, max: 10 };
    assert_eq!(over.fraction_scaled(), PROGRESS_SCALE as i64);
    // an unknown total reads as exactly -1
    let unknown = Progress { current: 3, max: 0 };
    assert_eq!(unknown.fraction_scaled(), -1);
}

#[test]
fn download_lifecycle() {
    let mut d = Download::new("m1".to_string(), "https://x/m1.zip".to_string());
    assert!(matches!(d.state(), DownloadState::Ready));
    assert_eq!(d.id(), "m1");
    assert!(d.start());
    assert!(matches!(d.state(), DownloadState::Running { .. }));
    // starting a running task is a no-op
    assert!(!d.start());
    d.update(DownloadUpdate::Downloading(Progress { current: 1, max: 4 }));
    match d.state() {
        DownloadState::Running { progress } => {
            assert_eq!(progress.current, 1);
            assert_eq!(progress.max, 4);
        }
        other => panic!("expected running, got {:?}", other),
    }
    d.update(DownloadUpdate::Finished(Ok("/tmp/m1.zip".to_string())));
    assert!(matches!(d.state(), DownloadState::Finished));
    // a terminal task ignores further events
    d.update(DownloadUpdate::Finished(Err(DownloadError::Transport)));
    assert!(matches!(d.state(), DownloadState::Finished));
}

#[test]
fn failed_download_marks_failed() {
    let mut d = Download::new("m1".to_string(), "https://x/m1.zip".to_string());
    d.start();
    d.update(DownloadUpdate::Finished(Err(DownloadError::Io)));
    assert!(matches!(d.state(), DownloadState::Failed));
}

#[test]
fn install_and_uninstall_tasks_share_the_lifecycle() {
    let mut t = Install::new("m1", "/tmp/m1.zip", "1.0", "zip");
    assert!(matches!(t.state(), InstallState::Ready));
    assert!(t.start());
    assert!(!t.start());
    let mut u = Uninstall::new("m1");
    assert!(matches!(u.state(), UninstallState::Ready));
    assert!(u.start());
    assert!(!u.start());
}

#[test]
fn only_zip_archives_are_supported() {
    assert!(archive_type_supported("zip"));
    assert!(!archive_type_supported("rar"));
    assert!(!archive_type_supported("ZIP"));
}

#[test]
fn registry_load_replaces_never_merges() {
    let mut orch = Orchestrator::new();
    let mut r1 = Registry::new();
    r1.insert("old".to_string(), listing("old", "https://x/old.zip"));
    orch.begin_load_registries();
    orch.registry_loaded(r1);
    assert!(orch.request_mod("old").is_some());

    let mut r2 = Registry::new();
    r2.insert("new".to_string(), listing("new", "https://x/new.zip"));
    orch.begin_load_registries();
    assert!(orch.request_mod("old").is_none());
    orch.registry_loaded(r2);
    // the effective mod set is exactly the second registry's
    assert!(orch.request_mod("new").is_some());
    assert!(orch.request_mod("old").is_none());
}

#[test]
fn front_registry_wins_within_a_batch() {
    let mut orch = Orchestrator::new();
    let mut r1 = Registry::new();
    r1.insert("m".to_string(), listing("m", "https://first/m.zip"));
    let mut r2 = Registry::new();
    r2.insert("m".to_string(), listing("m", "https://second/m.zip"));
    orch.begin_load_registries();
    orch.registry_loaded(r1);
    orch.registry_loaded(r2);
    // the later-loaded registry stands in front
    assert_eq!(orch.request_mod("m").unwrap().url, "https://second/m.zip");
}

#[test]
fn uninstalls_run_before_installs() {
    let mut orch = Orchestrator::new();
    // the handle is not here yet: both tasks queue up
    assert!(orch.install_mod("a", "/tmp/a.zip", "1.0", "zip").is_none());
    assert!(orch.uninstall_mod("b").is_none());
    assert!(!orch.runner_active());

    let d1 = orch.handle_ready(handle());
    let m1 = match d1 {
        Directive::RunUninstall { manager, id } => {
            assert_eq!(id, "b");
            manager
        }
        other => panic!("the pending uninstall goes first, got {:?}", other),
    };
    assert!(orch.runner_active());
    orch.finish_uninstall_task("b", true);
    orch.remove_current_mod("b");
    assert!(!orch.runner_active());

    let d2 = orch.handle_ready(m1);
    let m2 = match d2 {
        Directive::RunInstall { manager, id, path, version, ty } => {
            assert_eq!(id, "a");
            assert_eq!(path, "/tmp/a.zip");
            assert_eq!(version, "1.0");
            assert_eq!(ty, "zip");
            manager
        }
        other => panic!("the pending install goes next, got {:?}", other),
    };
    orch.finish_install_task("a", true);
    orch.add_current_mod("a".to_string());

    let d3 = orch.handle_ready(m2);
    assert!(matches!(d3, Directive::Parked));
    assert!(orch.mod_manager.is_some());
}

#[test]
fn failed_tasks_return_the_handle_and_drain() {
    let mut orch = Orchestrator::new();
    assert!(orch.install_mod("a", "/tmp/a.zip", "1.0", "zip").is_none());
    let d1 = orch.handle_ready(handle());
    let m1 = match d1 {
        Directive::RunInstall { manager, .. } => manager,
        other => panic!("expected the install to start, got {:?}", other),
    };
    // the install fails; the handle still comes back and the queue drains
    orch.finish_install_task("a", false);
    assert!(!orch.runner_active());
    let d2 = orch.handle_ready(m1);
    assert!(matches!(d2, Directive::Parked));
    // the failed task was discarded by the scheduler's scan
    assert_eq!(orch.installs.len(), 0);
}

#[test]
fn deferred_refreshes_run_when_the_handle_frees() {
    let mut orch = Orchestrator::new();
    assert!(orch.uninstall_mod("b").is_none());
    let d1 = orch.handle_ready(handle());
    let m1 = match d1 {
        Directive::RunUninstall { manager, .. } => manager,
        other => panic!("expected the uninstall to start, got {:?}", other),
    };
    // both refreshes asked for while the handle is out: flags are set
    assert!(orch.queue_update_current_mods().is_none());
    assert!(orch.queue_update_records().is_none());
    orch.finish_uninstall_task("b", true);
    // current-mods refresh is served first
    let d2 = orch.handle_ready(m1);
    let m2 = match d2 {
        Directive::RefreshCurrentMods { manager } => manager,
        other => panic!("expected the current-mods refresh, got {:?}", other),
    };
    orch.set_current_mods(vec!["b".to_string()]);
    let d3 = orch.handle_ready(m2);
    let m3 = match d3 {
        Directive::RefreshRecords { manager } => manager,
        other => panic!("expected the records refresh, got {:?}", other),
    };
    orch.set_records(Records::new());
    assert!(matches!(orch.handle_ready(m3), Directive::Parked));
}

#[test]
fn immediate_refresh_takes_the_parked_handle() {
    let mut orch = Orchestrator::new();
    let d0 = orch.handle_ready(handle());
    assert!(matches!(d0, Directive::Parked));
    match orch.queue_update_records() {
        Some(Directive::RefreshRecords { manager }) => {
            assert!(orch.mod_manager.is_none());
            orch.set_records(Records::new());
            assert!(matches!(orch.handle_ready(manager), Directive::Parked));
        }
        other => panic!("a parked handle serves the refresh at once, got {:?}", other),
    }
}

#[test]
fn download_pool_hands_back_the_fetched_path() {
    let mut orch = Orchestrator::new();
    orch.start_download("m1".to_string(), "https://x/m1.zip".to_string());
    assert_eq!(orch.downloads.len(), 1);
    assert!(matches!(orch.downloads[0].state(), DownloadState::Running { .. }));
    let r = orch.download_updated("m1", DownloadUpdate::Downloading(Progress {
        current: 1,
        max: 2,
    }));
    assert!(r.is_none());
    let r2 = orch.download_updated("m1", DownloadUpdate::Finished(Ok("/tmp/m1.zip".to_string())));
    assert_eq!(r2.as_deref(), Some("/tmp/m1.zip"));
    assert_eq!(orch.downloads.len(), 0);
    // an event for an unknown download does nothing
    assert!(orch.download_updated("ghost", DownloadUpdate::Finished(Err(
        DownloadError::Transport
    ))).is_none());
}

#[test]
fn failed_download_stays_marked_in_the_pool() {
    let mut orch = Orchestrator::new();
    orch.start_download("m1".to_string(), "https://x/m1.zip".to_string());
    let r = orch.download_updated("m1", DownloadUpdate::Finished(Err(DownloadError::Io)));
    assert!(r.is_none());
    assert_eq!(orch.downloads.len(), 1);
    assert!(matches!(orch.downloads[0].state(), DownloadState::Failed));
}

#[test]
fn selection_sets_exclude_each_other() {
    let mut orch = Orchestrator::new();
    orch.add_install_mod("m".to_string());
    orch.add_uninstall_mod("m".to_string());
    // marking for uninstall unmarks the install
    assert_eq!(orch.install_mods.len(), 0);
    assert_eq!(orch.uninstall_mods.len(), 1);
    orch.add_install_mod("m".to_string());
    assert_eq!(orch.install_mods.len(), 1);
    assert_eq!(orch.uninstall_mods.len(), 0);
    orch.remove_install_mod("m");
    assert_eq!(orch.install_mods.len(), 0);
    // adding twice keeps the set a set
    orch.add_current_mod("c".to_string());
    orch.add_current_mod("c".to_string());
    assert_eq!(orch.current_mods.len(), 1);
}

#[test]
fn records_cache_follows_the_manifest() {
    let mut orch = Orchestrator::new();
    let mut records = Records::new();
    records.insert(
        "m1".to_string(),
        Record { metadata: None, update_time: 9, version: "2".to_string(), files: vec![] },
    );
    let keys = records.keys();
    orch.set_records(records);
    orch.set_current_mods(keys);
    assert_eq!(orch.current_mods, vec!["m1".to_string()]);
    assert_eq!(orch.records.len(), 1);
}
