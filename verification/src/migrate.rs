//! Moving application data from its older locations into the data directory.
//! Data kept in a `deskvio` subdirectory of the data directory is moved up (the
//! database, then the cloned repositories); the database of the application
//! under its former names is copied once, leaving a marker. The decisions are
//! made here; the caller touches the disk as it is asked.

use vstd::prelude::*;
use crate::paths::{comps_s, join_s, join_str, same_path};

verus! {

/// `hub.db`
pub open spec fn hub_db_name_s() -> Seq<char> {
    "hub.db"@
}

/// `repositories`
pub open spec fn repositories_s() -> Seq<char> {
    "repositories"@
}

/// `.migrated-from-legacy`
pub open spec fn legacy_marker_s() -> Seq<char> {
    ".migrated-from-legacy"@
}

/// What the caller does next.
pub enum MigrateAction {
    /// Report (`Answer`) whether something exists at this path.
    CheckExists(String),
    /// Report (`Answer`) whether a directory is at this path.
    IsDir(String),
    /// Create the parent directory of this path, with its own parents, if the
    /// path has one; report `Done` or `Failed`.
    CreateParentDirs(String),
    /// Create this directory with its parents; report `Done` or `Failed`.
    CreateDirAll(String),
    /// Rename `from` to `to`; report `Done` or `Failed`.
    Rename { from: String, to: String },
    /// Copy the file `from` to `to`; report `Done` or `Failed`.
    CopyFile { from: String, to: String },
    /// Delete this file; report `Done` or `Failed`.
    RemoveFile(String),
    /// Start listing this directory; report `Done` or `Failed`.
    ReadDir(String),
    /// Report the name of the next entry of the listing (`Entry`), that there
    /// is none left (`NoMore`), or that reading it failed (`Failed`).
    NextEntry,
    /// The migration is over, with its outcome.
    Finish(Result<(), String>),
}

/// What the caller reports.
pub enum MigrateEvent {
    Answer(bool),
    Done,
    Failed(String),
    Entry(String),
    NoMore,
}

/// Where the migration stands: what it is waiting to hear about.
#[derive(Clone, Copy, PartialEq, Eq)]
pub enum MigrateStage {
    NewDb,
    OldDb,
    NewRoot,
    Parent,
    RootRename,
    NewRootDir,
    NewDbAgain,
    DbRename,
    DbCopy,
    DbRemove,
    OldRepos,
    NewRepos,
    ReposRename,
    ReposDir,
    Listing,
    Entry,
    EntryKind,
    EntryMove,
    Finished,
}

/// Moving the data of `old_root` (the former `deskvio` subdirectory) into
/// `new_root`.
pub struct LegacyMigration {
    old_root: String,
    new_root: String,
    entry: String,
    stage: MigrateStage,
}

pub open spec fn yes(ev: MigrateEvent) -> bool {
    ev matches MigrateEvent::Answer(b) && b
}

pub open spec fn done(ev: MigrateEvent) -> bool {
    ev is Done
}

/// The error text of a failure report (empty for any other report).
pub open spec fn failure_text(ev: MigrateEvent) -> Seq<char> {
    match ev {
        MigrateEvent::Failed(t) => t@,
        _ => Seq::empty(),
    }
}

pub open spec fn asks_exists(a: MigrateAction, p: Seq<char>) -> bool {
    a matches MigrateAction::CheckExists(q) && q@ == p
}

pub open spec fn asks_rename(a: MigrateAction, from: Seq<char>, to: Seq<char>) -> bool {
    a matches MigrateAction::Rename { from: f, to: t } && f@ == from && t@ == to
}

pub open spec fn asks_copy(a: MigrateAction, from: Seq<char>, to: Seq<char>) -> bool {
    a matches MigrateAction::CopyFile { from: f, to: t } && f@ == from && t@ == to
}

pub open spec fn asks_mkdir(a: MigrateAction, p: Seq<char>) -> bool {
    a matches MigrateAction::CreateDirAll(q) && q@ == p
}

pub open spec fn finishes_ok(a: MigrateAction) -> bool {
    a matches MigrateAction::Finish(Ok(()))
}

pub open spec fn finishes_err(a: MigrateAction, m: Seq<char>) -> bool {
    a matches MigrateAction::Finish(Err(e)) && e@ == m
}

/// One step of the migration: from `stage` (with the entry being moved, if
/// any), on report `ev`, the next stage and entry and the action asked for.
/// The database moves first: when the new directory has none and the old one
/// has one, the old directory is renamed to the new one if that does not exist
/// yet (creating its parent first); otherwise, or if that rename fails (after
/// creating the new directory), the database file is renamed, or copied and
/// deleted. Then the repositories directory is renamed, or, failing that, its
/// entries are moved one by one (directories renamed, files copied).
pub open spec fn migration_step_s(
    stage: MigrateStage,
    old_root: Seq<char>,
    new_root: Seq<char>,
    entry: Seq<char>,
    ev: MigrateEvent,
    stage2: MigrateStage,
    entry2: Seq<char>,
    a: MigrateAction,
) -> bool {
    let new_db = join_s(new_root, hub_db_name_s());
    let old_db = join_s(old_root, hub_db_name_s());
    let old_repos = join_s(old_root, repositories_s());
    let new_repos = join_s(new_root, repositories_s());
    match stage {
        MigrateStage::NewDb => if yes(ev) {
            stage2 == MigrateStage::Finished && finishes_ok(a)
        } else {
            stage2 == MigrateStage::OldDb && asks_exists(a, old_db)
        },
        MigrateStage::OldDb => if yes(ev) {
            stage2 == MigrateStage::NewRoot && asks_exists(a, new_root)
        } else {
            stage2 == MigrateStage::Finished && finishes_ok(a)
        },
        MigrateStage::NewRoot => if yes(ev) {
            stage2 == MigrateStage::NewDbAgain && asks_exists(a, new_db)
        } else {
            stage2 == MigrateStage::Parent && (a matches MigrateAction::CreateParentDirs(p) && p@
                == new_root)
        },
        MigrateStage::Parent => if done(ev) {
            stage2 == MigrateStage::RootRename && asks_rename(a, old_root, new_root)
        } else {
            stage2 == MigrateStage::Finished && finishes_err(a, failure_text(ev))
        },
        MigrateStage::RootRename => if done(ev) {
            stage2 == MigrateStage::Finished && finishes_ok(a)
        } else {
            stage2 == MigrateStage::NewRootDir && asks_mkdir(a, new_root)
        },
        MigrateStage::NewRootDir => if done(ev) {
            stage2 == MigrateStage::NewDbAgain && asks_exists(a, new_db)
        } else {
            stage2 == MigrateStage::Finished && finishes_err(a, failure_text(ev))
        },
        MigrateStage::NewDbAgain => if yes(ev) {
            stage2 == MigrateStage::OldRepos && asks_exists(a, old_repos)
        } else {
            stage2 == MigrateStage::DbRename && asks_rename(a, old_db, new_db)
        },
        MigrateStage::DbRename => if done(ev) {
            stage2 == MigrateStage::OldRepos && asks_exists(a, old_repos)
        } else {
            stage2 == MigrateStage::DbCopy && asks_copy(a, old_db, new_db)
        },
        MigrateStage::DbCopy => if done(ev) {
            stage2 == MigrateStage::DbRemove && (a matches MigrateAction::RemoveFile(p) && p@
                == old_db)
        } else {
            stage2 == MigrateStage::Finished && finishes_err(a, failure_text(ev))
        },
        MigrateStage::DbRemove => if done(ev) {
            stage2 == MigrateStage::OldRepos && asks_exists(a, old_repos)
        } else {
            stage2 == MigrateStage::Finished && finishes_err(a, failure_text(ev))
        },
        MigrateStage::OldRepos => if yes(ev) {
            stage2 == MigrateStage::NewRepos && asks_exists(a, new_repos)
        } else {
            stage2 == MigrateStage::Finished && finishes_ok(a)
        },
        MigrateStage::NewRepos => if yes(ev) {
            stage2 == MigrateStage::Finished && finishes_ok(a)
        } else {
            stage2 == MigrateStage::ReposRename && asks_rename(a, old_repos, new_repos)
        },
        MigrateStage::ReposRename => if done(ev) {
            stage2 == MigrateStage::Finished && finishes_ok(a)
        } else {
            stage2 == MigrateStage::ReposDir && asks_mkdir(a, new_repos)
        },
        MigrateStage::ReposDir => if done(ev) {
            stage2 == MigrateStage::Listing && (a matches MigrateAction::ReadDir(p) && p@
                == old_repos)
        } else {
            stage2 == MigrateStage::Finished && finishes_err(a, failure_text(ev))
        },
        MigrateStage::Listing => if done(ev) {
            stage2 == MigrateStage::Entry && a is NextEntry
        } else {
            stage2 == MigrateStage::Finished && finishes_err(a, failure_text(ev))
        },
        MigrateStage::Entry => match ev {
            MigrateEvent::Entry(n) => stage2 == MigrateStage::EntryKind && entry2 == n@ && (
            a matches MigrateAction::IsDir(p) && p@ == join_s(old_repos, n@)),
            MigrateEvent::Failed(e) => stage2 == MigrateStage::Finished && finishes_err(a, e@),
            _ => stage2 == MigrateStage::Finished && finishes_ok(a),
        },
        MigrateStage::EntryKind => if yes(ev) {
            stage2 == MigrateStage::EntryMove && asks_rename(
                a,
                join_s(old_repos, entry),
                join_s(new_repos, entry),
            )
        } else {
            stage2 == MigrateStage::EntryMove && asks_copy(
                a,
                join_s(old_repos, entry),
                join_s(new_repos, entry),
            )
        },
        MigrateStage::EntryMove => if done(ev) {
            stage2 == MigrateStage::Entry && a is NextEntry
        } else {
            stage2 == MigrateStage::Finished && finishes_err(a, failure_text(ev))
        },
        MigrateStage::Finished => stage2 == MigrateStage::Finished && finishes_err(
            a,
            "migration already finished"@,
        ),
    }
}

fn answer(ev: &MigrateEvent) -> (r: bool)
    ensures
        r == yes(*ev),
{
    match ev {
        MigrateEvent::Answer(b) => *b,
        _ => false,
    }
}

fn is_done(ev: &MigrateEvent) -> (r: bool)
    ensures
        r == done(*ev),
{
    match ev {
        MigrateEvent::Done => true,
        _ => false,
    }
}

fn failure(ev: MigrateEvent) -> (r: MigrateAction)
    ensures
        finishes_err(r, failure_text(ev)),
{
    match ev {
        MigrateEvent::Failed(t) => MigrateAction::Finish(Err(t)),
        _ => MigrateAction::Finish(Err(String::new())),
    }
}

impl LegacyMigration {
    pub closed spec fn old_view(&self) -> Seq<char> {
        self.old_root@
    }

    pub closed spec fn new_view(&self) -> Seq<char> {
        self.new_root@
    }

    pub closed spec fn entry_view(&self) -> Seq<char> {
        self.entry@
    }

    pub closed spec fn stage_view(&self) -> MigrateStage {
        self.stage
    }

    /// Starts moving `old_root` into `new_root`. When they are the same path
    /// there is nothing to do; otherwise the first question is whether the new
    /// directory already has a database.
    pub fn start(old_root: String, new_root: String) -> (r: (LegacyMigration, MigrateAction))
        ensures
            r.0.old_view() == old_root@,
            r.0.new_view() == new_root@,
            comps_s(old_root@) == comps_s(new_root@) ==> r.0.stage_view() == MigrateStage::Finished
                && finishes_ok(r.1),
            comps_s(old_root@) != comps_s(new_root@) ==> r.0.stage_view() == MigrateStage::NewDb
                && asks_exists(r.1, join_s(new_root@, hub_db_name_s())),
    {
        if same_path(old_root.as_str(), new_root.as_str()) {
            (
                LegacyMigration { old_root, new_root, entry: String::new(), stage: MigrateStage::Finished },
                MigrateAction::Finish(Ok(())),
            )
        } else {
            let p = join_str(new_root.as_str(), "hub.db");
            (
                LegacyMigration { old_root, new_root, entry: String::new(), stage: MigrateStage::NewDb },
                MigrateAction::CheckExists(p),
            )
        }
    }

    fn next(&mut self, stage: MigrateStage, a: MigrateAction) -> (r: MigrateAction)
        ensures
            final(self).old_view() == old(self).old_view(),
            final(self).new_view() == old(self).new_view(),
            final(self).entry_view() == old(self).entry_view(),
            final(self).stage_view() == stage,
            r == a,
    {
        self.stage = stage;
        a
    }

    /// Takes the report on the action last asked for and decides the next one
    /// (see `migration_step_s`).
    pub fn step(&mut self, ev: MigrateEvent) -> (a: MigrateAction)
        ensures
            final(self).old_view() == old(self).old_view(),
            final(self).new_view() == old(self).new_view(),
            migration_step_s(
                old(self).stage_view(),
                old(self).old_view(),
                old(self).new_view(),
                old(self).entry_view(),
                ev,
                final(self).stage_view(),
                final(self).entry_view(),
                a,
            ),
    {
        proof {
            reveal_strlit("migration already finished");
        }
        let new_db = join_str(self.new_root.as_str(), "hub.db");
        let old_db = join_str(self.old_root.as_str(), "hub.db");
        let old_repos = join_str(self.old_root.as_str(), "repositories");
        let new_repos = join_str(self.new_root.as_str(), "repositories");
        match self.stage {
            MigrateStage::NewDb => if answer(&ev) {
                self.next(MigrateStage::Finished, MigrateAction::Finish(Ok(())))
            } else {
                self.next(MigrateStage::OldDb, MigrateAction::CheckExists(old_db))
            },
            MigrateStage::OldDb => if answer(&ev) {
                let p = self.new_root.clone();
                self.next(MigrateStage::NewRoot, MigrateAction::CheckExists(p))
            } else {
                self.next(MigrateStage::Finished, MigrateAction::Finish(Ok(())))
            },
            MigrateStage::NewRoot => if answer(&ev) {
                self.next(MigrateStage::NewDbAgain, MigrateAction::CheckExists(new_db))
            } else {
                let p = self.new_root.clone();
                self.next(MigrateStage::Parent, MigrateAction::CreateParentDirs(p))
            },
            MigrateStage::Parent => if is_done(&ev) {
                let from = self.old_root.clone();
                let to = self.new_root.clone();
                self.next(MigrateStage::RootRename, MigrateAction::Rename { from, to })
            } else {
                self.next(MigrateStage::Finished, failure(ev))
            },
            MigrateStage::RootRename => if is_done(&ev) {
                self.next(MigrateStage::Finished, MigrateAction::Finish(Ok(())))
            } else {
                let p = self.new_root.clone();
                self.next(MigrateStage::NewRootDir, MigrateAction::CreateDirAll(p))
            },
            MigrateStage::NewRootDir => if is_done(&ev) {
                self.next(MigrateStage::NewDbAgain, MigrateAction::CheckExists(new_db))
            } else {
                self.next(MigrateStage::Finished, failure(ev))
            },
            MigrateStage::NewDbAgain => if answer(&ev) {
                self.next(MigrateStage::OldRepos, MigrateAction::CheckExists(old_repos))
            } else {
                self.next(MigrateStage::DbRename, MigrateAction::Rename { from: old_db, to: new_db })
            },
            MigrateStage::DbRename => if is_done(&ev) {
                self.next(MigrateStage::OldRepos, MigrateAction::CheckExists(old_repos))
            } else {
                self.next(MigrateStage::DbCopy, MigrateAction::CopyFile { from: old_db, to: new_db })
            },
            MigrateStage::DbCopy => if is_done(&ev) {
                self.next(MigrateStage::DbRemove, MigrateAction::RemoveFile(old_db))
            } else {
                self.next(MigrateStage::Finished, failure(ev))
            },
            MigrateStage::DbRemove => if is_done(&ev) {
                self.next(MigrateStage::OldRepos, MigrateAction::CheckExists(old_repos))
            } else {
                self.next(MigrateStage::Finished, failure(ev))
            },
            MigrateStage::OldRepos => if answer(&ev) {
                self.next(MigrateStage::NewRepos, MigrateAction::CheckExists(new_repos))
            } else {
                self.next(MigrateStage::Finished, MigrateAction::Finish(Ok(())))
            },
            MigrateStage::NewRepos => if answer(&ev) {
                self.next(MigrateStage::Finished, MigrateAction::Finish(Ok(())))
            } else {
                self.next(
                    MigrateStage::ReposRename,
                    MigrateAction::Rename { from: old_repos, to: new_repos },
                )
            },
            MigrateStage::ReposRename => if is_done(&ev) {
                self.next(MigrateStage::Finished, MigrateAction::Finish(Ok(())))
            } else {
                self.next(MigrateStage::ReposDir, MigrateAction::CreateDirAll(new_repos))
            },
            MigrateStage::ReposDir => if is_done(&ev) {
                self.next(MigrateStage::Listing, MigrateAction::ReadDir(old_repos))
            } else {
                self.next(MigrateStage::Finished, failure(ev))
            },
            MigrateStage::Listing => if is_done(&ev) {
                self.next(MigrateStage::Entry, MigrateAction::NextEntry)
            } else {
                self.next(MigrateStage::Finished, failure(ev))
            },
            MigrateStage::Entry => match ev {
                MigrateEvent::Entry(n) => {
                    let src = join_str(old_repos.as_str(), n.as_str());
                    self.entry = n;
                    self.next(MigrateStage::EntryKind, MigrateAction::IsDir(src))
                },
                MigrateEvent::Failed(e) => {
                    self.next(MigrateStage::Finished, MigrateAction::Finish(Err(e)))
                },
                _ => self.next(MigrateStage::Finished, MigrateAction::Finish(Ok(()))),
            },
            MigrateStage::EntryKind => {
                let from = join_str(old_repos.as_str(), self.entry.as_str());
                let to = join_str(new_repos.as_str(), self.entry.as_str());
                if answer(&ev) {
                    self.next(MigrateStage::EntryMove, MigrateAction::Rename { from, to })
                } else {
                    self.next(MigrateStage::EntryMove, MigrateAction::CopyFile { from, to })
                }
            },
            MigrateStage::EntryMove => if is_done(&ev) {
                self.next(MigrateStage::Entry, MigrateAction::NextEntry)
            } else {
                self.next(MigrateStage::Finished, failure(ev))
            },
            MigrateStage::Finished => MigrateAction::Finish(
                Err(String::from_str("migration already finished")),
            ),
        }
    }
}

// ---------------------------------------------------------------------------
// Data of the application under its former names.
// ---------------------------------------------------------------------------

/// A former data directory that can be copied from: not the new directory
/// itself, and holding a database.
pub open spec fn usable_source(new_root: Seq<char>, candidate: (String, bool)) -> bool {
    comps_s(candidate.0@) != comps_s(new_root) && candidate.1
}

/// Which former data directory to copy the database from. `candidates` are the
/// former directories in order of preference, each with whether its database
/// exists. Nothing is copied when the new directory already has a database or
/// was migrated before (its marker exists); otherwise the first usable
/// candidate is chosen.
pub fn pick_legacy_source(
    new_root: &str,
    new_db_exists: bool,
    marker_exists: bool,
    candidates: &[(String, bool)],
) -> (r: Option<usize>)
    ensures
        new_db_exists || marker_exists ==> r is None,
        !new_db_exists && !marker_exists ==> match r {
            Some(i) => i < candidates@.len() && usable_source(new_root@, candidates@[i as int])
                && forall|j: int| 0 <= j < i ==> !usable_source(new_root@, #[trigger] candidates@[j]),
            None => forall|j: int|
                0 <= j < candidates@.len() ==> !usable_source(new_root@, #[trigger] candidates@[j]),
        },
{
    if new_db_exists || marker_exists {
        return None;
    }
    let mut i: usize = 0;
    while i < candidates.len()
        invariant
            !new_db_exists && !marker_exists,
            i <= candidates@.len(),
            forall|j: int| 0 <= j < i ==> !usable_source(new_root@, #[trigger] candidates@[j]),
        decreases candidates@.len() - i,
    {
        if !same_path(candidates[i].0.as_str(), new_root) && candidates[i].1 {
            return Some(i);
        }
        i = i + 1;
    }
    None
}

/// The database in a data directory.
pub fn hub_db_path(root: &str) -> (r: String)
    ensures
        r@ == join_s(root@, hub_db_name_s()),
{
    join_str(root, "hub.db")
}

/// The marker left in the new data directory once data was copied into it.
pub fn legacy_marker_path(root: &str) -> (r: String)
    ensures
        r@ == join_s(root@, legacy_marker_s()),
{
    join_str(root, ".migrated-from-legacy")
}


// ---------------------------------------------------------------------------
// Where the data directories are.
// ---------------------------------------------------------------------------

/// `directories::ProjectDirs::from(qualifier, organization, application)` and its
/// `data_local_dir`: the per-user local data directory of an application, or
/// `None` when no home directory can be found. It depends on the environment
/// (`$HOME`, `$XDG_DATA_HOME`), so nothing is stated of it.
#[verifier::external_body]
fn data_local_dir(qualifier: &str, organization: &str, application: &str) -> Option<String> {
    directories::ProjectDirs::from(qualifier, organization, application)
        .map(|p| p.data_local_dir().to_string_lossy().into_owned())
}

pub open spec fn no_data_dir_s() -> Seq<char> {
    "could not resolve application data directory"@
}

/// The application's data directory.
pub fn app_data_root() -> (r: Result<String, String>)
    ensures
        r matches Err(m) ==> m@ == no_data_dir_s(),
{
    match data_local_dir("com", "wildchiken", "Deskvio") {
        Some(d) => Ok(d),
        None => {
            proof {
                reveal_strlit("could not resolve application data directory");
            }
            Err(String::from_str("could not resolve application data directory"))
        },
    }
}

/// `deskvio`
pub open spec fn deskvio_name_s() -> Seq<char> {
    "deskvio"@
}

/// The older location of the application's data: a `deskvio` directory inside
/// the data directory.
pub fn legacy_joined_app_data_root() -> (r: Result<String, String>)
    ensures
        r matches Err(m) ==> m@ == no_data_dir_s(),
        r matches Ok(p) ==> exists|d: Seq<char>| p@ == join_s(d, deskvio_name_s()),
{
    match data_local_dir("com", "wildchiken", "Deskvio") {
        Some(d) => {
            let p = join_str(d.as_str(), "deskvio");
            assert(p@ == join_s(d@, deskvio_name_s()));
            Ok(p)
        },
        None => {
            proof {
                reveal_strlit("could not resolve application data directory");
            }
            Err(String::from_str("could not resolve application data directory"))
        },
    }
}

/// `projectshelf`
pub open spec fn projectshelf_s() -> Seq<char> {
    "projectshelf"@
}

/// `offline-git-hub`
pub open spec fn offline_git_hub_s() -> Seq<char> {
    "offline-git-hub"@
}

/// The data directories of the application under its former names, in order
/// of preference: `projectshelf` in ProjectShelf's data directory, then
/// `offline-git-hub` in OfflineGitHub's; one is left out when its data
/// directory cannot be found.
pub fn legacy_app_data_roots() -> (r: Vec<String>)
    ensures
        r@.len() <= 2,
        forall|i: int|
            0 <= i < r@.len() ==> exists|d: Seq<char>|
                #[trigger] r@[i]@ == join_s(d, projectshelf_s()) || r@[i]@ == join_s(
                    d,
                    offline_git_hub_s(),
                ),
        r@.len() == 2 ==> exists|d: Seq<char>| r@[0]@ == join_s(d, projectshelf_s()),
        r@.len() == 2 ==> exists|d: Seq<char>| r@[1]@ == join_s(d, offline_git_hub_s()),
{
    let mut roots: Vec<String> = Vec::new();
    match data_local_dir("com", "wildchiken", "ProjectShelf") {
        Some(d) => {
            roots.push(join_str(d.as_str(), "projectshelf"));
            assert(roots@[0]@ == join_s(d@, projectshelf_s()));
        },
        None => {},
    }
    match data_local_dir("com", "atlas", "OfflineGitHub") {
        Some(d) => {
            let ghost before = roots@;
            roots.push(join_str(d.as_str(), "offline-git-hub"));
            assert(roots@.last()@ == join_s(d@, offline_git_hub_s()));
            assert(roots@[roots@.len() - 1]@ == join_s(d@, offline_git_hub_s()));
            if roots.len() == 2 {
                assert(roots@[0] == before[0]);
            }
        },
        None => {},
    }
    roots
}

} // verus!
