//! The lifecycles of the three long-running operations: downloading an
//! archive, installing it, and uninstalling a mod. Each task is a pure
//! four-state machine — `Ready`, `Running` with a progress report,
//! `Finished`, `Failed` — driven by `start` and by the events its
//! operation emits. Cancellation control stays with the task's owner, not
//! in the state value.

use vstd::prelude::*;

use crate::mod_manager::ModManager;
use crate::mod_manager::Error as ManagerError;
use crate::progress::Progress;

verus! {

/// The progress a task shows the moment it starts: zero of a known whole.
pub open spec fn init_progress() -> Progress {
    Progress { current: 0, max: 1 }
}

/// What a download failed on.
#[derive(Debug, Clone, Copy, PartialEq, Eq, Structural)]
pub enum DownloadError {
    /// The transport refused or dropped the connection.
    Transport,
    /// The fetched bytes could not be stored.
    Io,
}

/// Lifecycle of a download.
#[derive(Debug, Clone, PartialEq, Eq, Structural)]
pub enum DownloadState {
    Running { progress: Progress },
    Finished,
    Failed,
    Ready,
}

/// An event a running download emits: a progress report, or the path of
/// the fetched file.
#[derive(Debug)]
pub enum DownloadUpdate {
    Downloading(Progress),
    Finished(Result<String, DownloadError>),
}

/// One download task: which mod, from where, and how far it is.
#[derive(Debug, Clone)]
pub struct Download {
    pub id: String,
    pub url: String,
    pub state: DownloadState,
}

impl Download {
    /// A download not yet started.
    pub fn new(id: String, url: String) -> (r: Download)
        ensures
            r.id@ == id@,
            r.url@ == url@,
            r.state is Ready,
    {
        Download { id, url, state: DownloadState::Ready }
    }

    /// The task's state.
    pub fn state(&self) -> (r: &DownloadState)
        ensures
            r == &self.state,
    {
        &self.state
    }

    /// Which mod the task is for.
    pub fn id(&self) -> (r: &str)
        ensures
            r@ == self.id@,
    {
        self.id.as_str()
    }

    /// Begins the download unless it already runs: answers whether the
    /// caller should launch the underlying fetch.
    pub fn start(&mut self) -> (started: bool)
        ensures
            started == !(old(self).state matches DownloadState::Running { .. }),
            !started ==> *final(self) == *old(self),
            started ==> *final(self) == (Download {
                id: old(self).id,
                url: old(self).url,
                state: DownloadState::Running { progress: init_progress() },
            }),
    {
        match self.state {
            DownloadState::Running { .. } => false,
            _ => {
                self.state = DownloadState::Running { progress: Progress { current: 0, max: 1 } };
                true
            },
        }
    }

    /// Feeds one event into the state machine; only a running task moves.
    pub fn update(&mut self, update: DownloadUpdate)
        ensures
            !(old(self).state matches DownloadState::Running { .. }) ==> *final(self) == *old(self),
            old(self).state matches DownloadState::Running { .. } ==> *final(self) == (Download {
                id: old(self).id,
                url: old(self).url,
                state: match update {
                    DownloadUpdate::Downloading(p) => DownloadState::Running { progress: p },
                    DownloadUpdate::Finished(res) => if res is Ok {
                        DownloadState::Finished
                    } else {
                        DownloadState::Failed
                    },
                },
            }),
    {
        match self.state {
            DownloadState::Running { .. } => {
                match update {
                    DownloadUpdate::Downloading(p) => {
                        self.state = DownloadState::Running { progress: p };
                    },
                    DownloadUpdate::Finished(res) => {
                        self.state = if res.is_ok() {
                            DownloadState::Finished
                        } else {
                            DownloadState::Failed
                        };
                    },
                }
            },
            _ => {},
        }
    }
}

/// What an install failed on.
#[derive(Debug, Clone)]
pub enum InstallError {
    Manager(ManagerError),
}

/// Lifecycle of an install.
#[derive(Debug, Clone, PartialEq, Eq, Structural)]
pub enum InstallState {
    Running { progress: Progress },
    Failed,
    Finished,
    Ready,
}

/// An event a running install emits. The terminal event always carries
/// the record-store handle back, success or not: the handle is never
/// lost.
#[derive(Debug)]
pub enum InstallUpdate {
    Running(Progress),
    Finished(Result<(), InstallError>, ModManager),
}

/// One install task: which mod, from which downloaded archive, which
/// version and archive type.
#[derive(Debug, Clone)]
pub struct Install {
    pub id: String,
    pub path: String,
    pub version: String,
    pub ty: String,
    pub state: InstallState,
}

impl Install {
    /// An install not yet started.
    pub fn new(id: &str, path: &str, version: &str, ty: &str) -> (r: Install)
        ensures
            r.id@ == id@,
            r.path@ == path@,
            r.version@ == version@,
            r.ty@ == ty@,
            r.state is Ready,
    {
        Install {
            id: id.to_owned(),
            path: path.to_owned(),
            version: version.to_owned(),
            ty: ty.to_owned(),
            state: InstallState::Ready,
        }
    }

    /// The task's state.
    pub fn state(&self) -> (r: &InstallState)
        ensures
            r == &self.state,
    {
        &self.state
    }

    /// Which mod the task is for.
    pub fn id(&self) -> (r: &str)
        ensures
            r@ == self.id@,
    {
        self.id.as_str()
    }

    /// Begins the install unless it already runs: answers whether the
    /// caller should launch the extraction.
    pub fn start(&mut self) -> (started: bool)
        ensures
            started == !(old(self).state matches InstallState::Running { .. }),
            !started ==> *final(self) == *old(self),
            started ==> *final(self) == (Install {
                id: old(self).id,
                path: old(self).path,
                version: old(self).version,
                ty: old(self).ty,
                state: InstallState::Running { progress: init_progress() },
            }),
    {
        match self.state {
            InstallState::Running { .. } => false,
            _ => {
                self.state = InstallState::Running { progress: Progress { current: 0, max: 1 } };
                true
            },
        }
    }

    /// Feeds one event into the state machine; only a running task moves.
    pub fn update(&mut self, update: &InstallUpdate)
        ensures
            !(old(self).state matches InstallState::Running { .. }) ==> *final(self) == *old(self),
            old(self).state matches InstallState::Running { .. } ==> *final(self) == (Install {
                id: old(self).id,
                path: old(self).path,
                version: old(self).version,
                ty: old(self).ty,
                state: match update {
                    InstallUpdate::Running(p) => InstallState::Running { progress: *p },
                    InstallUpdate::Finished(res, _) => if res is Ok {
                        InstallState::Finished
                    } else {
                        InstallState::Failed
                    },
                },
            }),
    {
        match self.state {
            InstallState::Running { .. } => {
                match update {
                    InstallUpdate::Running(p) => {
                        self.state = InstallState::Running { progress: *p };
                    },
                    InstallUpdate::Finished(res, _) => {
                        self.state = if res.is_ok() {
                            InstallState::Finished
                        } else {
                            InstallState::Failed
                        };
                    },
                }
            },
            _ => {},
        }
    }
}

/// What an uninstall failed on.
#[derive(Debug, Clone)]
pub enum UninstallError {
    Manager(ManagerError),
}

/// Lifecycle of an uninstall.
#[derive(Debug, Clone, PartialEq, Eq, Structural)]
pub enum UninstallState {
    Running { progress: Progress },
    Failed,
    Finished,
    Ready,
}

/// An event a running uninstall emits. The terminal event always carries
/// the record-store handle back, success or not.
#[derive(Debug)]
pub enum UninstallUpdate {
    Running(Progress),
    Finished(Result<bool, UninstallError>, ModManager),
}

/// One uninstall task: which mod to remove.
#[derive(Debug, Clone)]
pub struct Uninstall {
    pub id: String,
    pub state: UninstallState,
}

impl Uninstall {
    /// An uninstall not yet started.
    pub fn new(id: &str) -> (r: Uninstall)
        ensures
            r.id@ == id@,
            r.state is Ready,
    {
        Uninstall { id: id.to_owned(), state: UninstallState::Ready }
    }

    /// Which mod the task is for.
    pub fn id(&self) -> (r: &str)
        ensures
            r@ == self.id@,
    {
        self.id.as_str()
    }

    /// The task's state.
    pub fn state(&self) -> (r: &UninstallState)
        ensures
            r == &self.state,
    {
        &self.state
    }

    /// Begins the uninstall unless it already runs: answers whether the
    /// caller should launch the removal.
    pub fn start(&mut self) -> (started: bool)
        ensures
            started == !(old(self).state matches UninstallState::Running { .. }),
            !started ==> *final(self) == *old(self),
            started ==> *final(self) == (Uninstall {
                id: old(self).id,
                state: UninstallState::Running { progress: init_progress() },
            }),
    {
        match self.state {
            UninstallState::Running { .. } => false,
            _ => {
                self.state = UninstallState::Running { progress: Progress { current: 0, max: 1 } };
                true
            },
        }
    }

    /// Feeds one event into the state machine; only a running task moves.
    pub fn update(&mut self, update: &UninstallUpdate)
        ensures
            !(old(self).state matches UninstallState::Running { .. }) ==> *final(self) == *old(self),
            old(self).state matches UninstallState::Running { .. } ==> *final(self) == (Uninstall {
                id: old(self).id,
                state: match update {
                    UninstallUpdate::Running(p) => UninstallState::Running { progress: *p },
                    UninstallUpdate::Finished(res, _) => if res is Ok {
                        UninstallState::Finished
                    } else {
                        UninstallState::Failed
                    },
                },
            }),
    {
        match self.state {
            UninstallState::Running { .. } => {
                match update {
                    UninstallUpdate::Running(p) => {
                        self.state = UninstallState::Running { progress: *p };
                    },
                    UninstallUpdate::Finished(res, _) => {
                        self.state = if res.is_ok() {
                            UninstallState::Finished
                        } else {
                            UninstallState::Failed
                        };
                    },
                }
            },
            _ => {},
        }
    }
}

/// Only zip archives are understood; any other archive type must be
/// refused loudly rather than silently accepted.
pub fn archive_type_supported(ty: &str) -> (r: bool)
    ensures
        r == (ty@ == "zip"@),
{
    crate::text::str_eq(ty, "zip")
}

} // verus!
