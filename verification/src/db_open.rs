//! Opening the hub database with repair: when the database cannot be opened,
//! the file is moved aside to a backup and a fresh one is created; when even
//! that fails, a temporary database is used so the application still starts.
//! The decisions form a state machine; the caller opens files, renames and
//! creates directories as it asks.

use vstd::prelude::*;
use crate::paths::{join_s, join_str};
use crate::text::concat_str;

verus! {

/// How the database was opened.
#[derive(Clone, Copy, PartialEq, Eq)]
pub enum DbRepairStatus {
    /// It opened as it was.
    Intact,
    /// It was moved to a backup and recreated.
    Repaired,
    /// A temporary database is in use.
    Temp,
}

/// The status reported with the path of the database in use.
pub struct DbStatusInfo {
    pub status: DbRepairStatus,
    pub db_path: String,
}

/// What the caller does next.
pub enum OpenAction {
    /// Open (creating if needed) the database at this path and report whether
    /// that worked.
    Open(String),
    /// Make the application directory writable, move the database file (if
    /// any) to this backup path, ignoring failures, and report back.
    MoveAside { backup: String },
    /// Create this directory (and parents) and report whether that worked.
    MakeDir(String),
    /// Done: the status of the database opened last, or the error that ends
    /// start-up.
    Finish(Result<DbStatusInfo, String>),
}

/// What the caller reports.
pub enum OpenEvent {
    Opened,
    OpenFailed(String),
    MovedAside,
    DirCreated,
    DirFailed,
}

pub enum OpenStage {
    First,
    MovingAside,
    Second,
    MakingTempDir,
    Temp,
    Finished,
}

/// The state of opening the database.
pub struct DbOpening {
    db_path: String,
    backup_path: String,
    temp_dir: String,
    repair_error: Option<String>,
    stage: OpenStage,
}

/// `hub.db`
pub open spec fn hub_db_s() -> Seq<char> {
    "hub.db"@
}

/// `<file name>.bak.<token>`
pub open spec fn backup_name_s(file_name: Seq<char>, token: Seq<char>) -> Seq<char> {
    file_name + ".bak."@ + token
}

/// Where the database is moved aside: next to it, named
/// `<file name>.bak.<token>`.
pub fn backup_path(dir: &str, file_name: &str, token: &str) -> (r: String)
    ensures
        r@ == join_s(dir@, backup_name_s(file_name@, token@)),
{
    let mut n = concat_str(file_name, ".bak.");
    n.append(token);
    proof {
        reveal_strlit(".bak.");
    }
    assert(n@ =~= backup_name_s(file_name@, token@));
    join_str(dir, n.as_str())
}

impl DbOpening {
    pub closed spec fn db_path_view(&self) -> Seq<char> {
        self.db_path@
    }

    pub closed spec fn backup_view(&self) -> Seq<char> {
        self.backup_path@
    }

    pub closed spec fn temp_dir_view(&self) -> Seq<char> {
        self.temp_dir@
    }

    pub closed spec fn stage_view(&self) -> OpenStage {
        self.stage
    }

    /// The error of the second open, once there was one (empty before).
    pub closed spec fn repair_error_view(&self) -> Seq<char> {
        match self.repair_error {
            Some(e) => e@,
            None => Seq::empty(),
        }
    }

    /// Starts by opening the database at `db_path`; `backup_path` is where it
    /// goes if it must be moved aside, `temp_dir` where a temporary database is
    /// created if all else fails.
    pub fn start(db_path: String, backup_path: String, temp_dir: String) -> (r: (DbOpening, OpenAction))
        ensures
            r.0.db_path_view() == db_path@,
            r.0.backup_view() == backup_path@,
            r.0.temp_dir_view() == temp_dir@,
            r.0.stage_view() is First,
            r.1 matches OpenAction::Open(p) && p@ == db_path@,
    {
        let p = db_path.clone();
        (
            DbOpening { db_path, backup_path, temp_dir, repair_error: None, stage: OpenStage::First },
            OpenAction::Open(p),
        )
    }

    /// Takes the caller's report and decides the next action: a first
    /// successful open is `Ok`; after a failed one the file is moved aside and
    /// opened again, which if it works is `Repaired`; if that open fails too, a
    /// temporary database `hub.db` in the temporary directory is opened, which
    /// if it works is `Temp`, and otherwise start-up fails with the error of
    /// the second open (as it does if the directory cannot be created).
    pub fn step(&mut self, event: OpenEvent) -> (a: OpenAction)
        ensures
            final(self).db_path_view() == old(self).db_path_view(),
            final(self).backup_view() == old(self).backup_view(),
            final(self).temp_dir_view() == old(self).temp_dir_view(),
            match (old(self).stage_view(), event) {
                (OpenStage::First, OpenEvent::Opened) => final(self).stage_view() is Finished && (a matches OpenAction::Finish(Ok(info)) && info.status == DbRepairStatus::Intact && info.db_path@ == old(self).db_path_view()),
                (OpenStage::First, _) => final(self).stage_view() is MovingAside && (a matches OpenAction::MoveAside { backup } && backup@ == old(self).backup_view()),
                (OpenStage::MovingAside, _) => final(self).stage_view() is Second && (a matches OpenAction::Open(p) && p@ == old(self).db_path_view()),
                (OpenStage::Second, OpenEvent::Opened) => final(self).stage_view() is Finished && (a matches OpenAction::Finish(Ok(info)) && info.status == DbRepairStatus::Repaired && info.db_path@ == old(self).db_path_view()),
                (OpenStage::Second, OpenEvent::OpenFailed(e)) => final(self).stage_view() is MakingTempDir && final(self).repair_error_view() == e@ && (a matches OpenAction::MakeDir(d) && d@ == old(self).temp_dir_view()),
                (OpenStage::Second, _) => final(self).stage_view() is MakingTempDir && final(self).repair_error_view() == Seq::<char>::empty() && (a matches OpenAction::MakeDir(d) && d@ == old(self).temp_dir_view()),
                (OpenStage::MakingTempDir, OpenEvent::DirCreated) => final(self).stage_view() is Temp && final(self).repair_error_view() == old(self).repair_error_view() && (a matches OpenAction::Open(p) && p@ == join_s(old(self).temp_dir_view(), hub_db_s())),
                (OpenStage::MakingTempDir, _) => final(self).stage_view() is Finished && (a matches OpenAction::Finish(Err(m)) && m@ == old(self).repair_error_view()),
                (OpenStage::Temp, OpenEvent::Opened) => final(self).stage_view() is Finished && (a matches OpenAction::Finish(Ok(info)) && info.status == DbRepairStatus::Temp && info.db_path@ == join_s(old(self).temp_dir_view(), hub_db_s())),
                (OpenStage::Temp, _) => final(self).stage_view() is Finished && (a matches OpenAction::Finish(Err(m)) && m@ == old(self).repair_error_view()),
                (OpenStage::Finished, _) => final(self).stage_view() is Finished && (a matches OpenAction::Finish(Err(m)) && m@ == "database opening already finished"@),
            },
    {
        proof {
            reveal_strlit("database opening already finished");
            reveal_strlit("hub.db");
        }
        match self.stage {
            OpenStage::First => {
                match event {
                    OpenEvent::Opened => {
                        self.stage = OpenStage::Finished;
                        OpenAction::Finish(Ok(DbStatusInfo { status: DbRepairStatus::Intact, db_path: self.db_path.clone() }))
                    },
                    _ => {
                        self.stage = OpenStage::MovingAside;
                        OpenAction::MoveAside { backup: self.backup_path.clone() }
                    },
                }
            },
            OpenStage::MovingAside => {
                self.stage = OpenStage::Second;
                OpenAction::Open(self.db_path.clone())
            },
            OpenStage::Second => {
                match event {
                    OpenEvent::Opened => {
                        self.stage = OpenStage::Finished;
                        OpenAction::Finish(Ok(DbStatusInfo { status: DbRepairStatus::Repaired, db_path: self.db_path.clone() }))
                    },
                    OpenEvent::OpenFailed(e) => {
                        self.repair_error = Some(e);
                        self.stage = OpenStage::MakingTempDir;
                        OpenAction::MakeDir(self.temp_dir.clone())
                    },
                    _ => {
                        self.repair_error = Some(String::new());
                        self.stage = OpenStage::MakingTempDir;
                        OpenAction::MakeDir(self.temp_dir.clone())
                    },
                }
            },
            OpenStage::MakingTempDir => {
                match event {
                    OpenEvent::DirCreated => {
                        self.stage = OpenStage::Temp;
                        OpenAction::Open(join_str(self.temp_dir.as_str(), "hub.db"))
                    },
                    _ => {
                        self.stage = OpenStage::Finished;
                        OpenAction::Finish(Err(self.repair_text()))
                    },
                }
            },
            OpenStage::Temp => {
                match event {
                    OpenEvent::Opened => {
                        self.stage = OpenStage::Finished;
                        OpenAction::Finish(Ok(DbStatusInfo { status: DbRepairStatus::Temp, db_path: join_str(self.temp_dir.as_str(), "hub.db") }))
                    },
                    _ => {
                        self.stage = OpenStage::Finished;
                        OpenAction::Finish(Err(self.repair_text()))
                    },
                }
            },
            OpenStage::Finished => {
                OpenAction::Finish(Err(String::from_str("database opening already finished")))
            },
        }
    }

    fn repair_text(&self) -> (r: String)
        ensures
            r@ == self.repair_error_view(),
    {
        match &self.repair_error {
            Some(e) => e.clone(),
            None => String::new(),
        }
    }
}

} // verus!
