//! Updating a repository from its remote by overwriting it: `git fetch origin`
//! then `git reset --hard FETCH_HEAD`. Local changes to tracked files either
//! stop the update or, in the automatic variant, are stashed first. The
//! decisions form a state machine; the caller runs the git commands it asks
//! for and reports how each ended.

use vstd::prelude::*;
use crate::text::{
    chars_to_string, concat_str, dec_i_s, i64_to_string, lemma_split_on_concat,
    lemma_split_on_no_sep, split_on, split_on_s, starts_with_chars,
    starts_with_s, str_chars, trim, trim_s, trim_start_chars, trim_start_s, views,
};

verus! {

/// A `git status --porcelain` line that reports a change to a tracked file:
/// after leading whitespace it is not empty and is neither untracked (`??`)
/// nor ignored (`!!`).
pub open spec fn is_tracked_change_line(line: Seq<char>) -> bool {
    let t = trim_start_s(line);
    t.len() > 0 && !starts_with_s(t, seq!['?', '?']) && !starts_with_s(t, seq!['!', '!'])
}

/// Some line of the porcelain status reports a change to a tracked file.
pub open spec fn has_tracked_changes_s(status: Seq<char>) -> bool {
    exists|i: int|
        0 <= i < split_on_s(status, '\n').len() && is_tracked_change_line(
            #[trigger] split_on_s(status, '\n')[i],
        )
}

/// Whether `git status --porcelain` output shows uncommitted changes to
/// tracked files (untracked and ignored files do not count).
pub fn has_tracked_uncommitted(status: &str) -> (r: bool)
    ensures
        r == has_tracked_changes_s(status@),
{
    let lines = split_on(&str_chars(status), '\n');
    let qq: Vec<char> = vec!['?', '?'];
    let bb: Vec<char> = vec!['!', '!'];
    assert(qq@ =~= seq!['?', '?']);
    assert(bb@ =~= seq!['!', '!']);
    let mut i: usize = 0;
    while i < lines.len()
        invariant
            i <= lines.len(),
            qq@ == seq!['?', '?'],
            bb@ == seq!['!', '!'],
            views(lines@) == split_on_s(status@, '\n'),
            forall|k: int| 0 <= k < i ==> !is_tracked_change_line(#[trigger] views(lines@)[k]),
        decreases lines.len() - i,
    {
        let t = trim_start_chars(&lines[i]);
        assert(t@ == trim_start_s(views(lines@)[i as int]));
        if t.len() > 0 && !starts_with_chars(&t, &qq) && !starts_with_chars(&t, &bb) {
            assert(is_tracked_change_line(views(lines@)[i as int]));
            return true;
        }
        i = i + 1;
    }
    false
}

/// Joining two status outputs with a line break: the result reports a change
/// to a tracked file exactly when one of the two does. Where a line stands, and
/// what other lines say, does not matter.
pub proof fn law_status_lines_combine(a: Seq<char>, b: Seq<char>)
    ensures
        has_tracked_changes_s(a + seq!['\n'] + b) == (has_tracked_changes_s(a)
            || has_tracked_changes_s(b)),
{
    lemma_split_on_concat(a, b, '\n');
    let sa = split_on_s(a, '\n');
    let sb = split_on_s(b, '\n');
    let s = split_on_s(a + seq!['\n'] + b, '\n');
    assert(s == sa + sb);
    if has_tracked_changes_s(a) {
        let i = choose|i: int| 0 <= i < sa.len() && is_tracked_change_line(#[trigger] sa[i]);
        assert(s[i] == sa[i]);
    }
    if has_tracked_changes_s(b) {
        let i = choose|i: int| 0 <= i < sb.len() && is_tracked_change_line(#[trigger] sb[i]);
        assert(s[sa.len() + i] == sb[i]);
    }
    if has_tracked_changes_s(a + seq!['\n'] + b) {
        let i = choose|i: int| 0 <= i < s.len() && is_tracked_change_line(#[trigger] s[i]);
        if i < sa.len() {
            assert(sa[i] == s[i]);
        } else {
            assert(sb[i - sa.len()] == s[i]);
        }
    }
}

/// A line that, after its leading whitespace, is not empty and starts with
/// neither `??` (untracked) nor `!!` (ignored) makes the status dirty, at any
/// position: whatever lines come before it and after it.
pub proof fn law_tracked_change_anywhere(before: Seq<char>, line: Seq<char>, after: Seq<char>)
    requires
        forall|i: int| 0 <= i < line.len() ==> line[i] != '\n',
        trim_start_s(line).len() > 0,
        !starts_with_s(trim_start_s(line), seq!['?', '?']),
        !starts_with_s(trim_start_s(line), seq!['!', '!']),
    ensures
        has_tracked_changes_s(line),
        has_tracked_changes_s(before + seq!['\n'] + line),
        has_tracked_changes_s(line + seq!['\n'] + after),
        has_tracked_changes_s(before + seq!['\n'] + line + seq!['\n'] + after),
{
    lemma_split_on_no_sep(line, '\n');
    assert(split_on_s(line, '\n')[0] == line);
    assert(has_tracked_changes_s(line));
    law_status_lines_combine(before, line);
    law_status_lines_combine(line, after);
    law_status_lines_combine(before + seq!['\n'] + line, after);
}

/// Only lines that report untracked (`??`) or ignored (`!!`) files, or blank
/// lines, leave the status clean.
pub proof fn law_untracked_only_is_clean(status: Seq<char>)
    requires
        forall|i: int|
            0 <= i < split_on_s(status, '\n').len() ==> {
                let t = trim_start_s(#[trigger] split_on_s(status, '\n')[i]);
                t.len() == 0 || starts_with_s(t, seq!['?', '?']) || starts_with_s(t, seq!['!', '!'])
            },
    ensures
        !has_tracked_changes_s(status),
{
}

/// A git command the update needs run in the repository.
pub enum GitStep {
    /// `git status --porcelain`
    Status,
    /// `git stash push -u -m <message>`
    StashPush(String),
    /// `git fetch origin`
    FetchOrigin,
    /// `git reset --hard FETCH_HEAD`
    ResetHard,
}

/// How a command ended.
pub enum StepOutcome {
    /// The command could not be started; the I/O error as text.
    SpawnFailed(String),
    /// The command ran; its exit status and its output as text.
    Exited { success: bool, stdout: String, stderr: String },
}

/// The report of an overwrite update.
pub struct FetchResetResult {
    pub ok: bool,
    pub dirty: bool,
    pub stashed: bool,
    pub error: Option<String>,
}

/// What the caller does next.
pub enum UpdateAction {
    /// Run this command and report how it ended.
    Run(GitStep),
    /// Record the repository's new HEAD (best effort), then report back with
    /// any outcome.
    RecordHead,
    /// The update is over: the report, or the error that ends the request.
    Finish(Result<FetchResetResult, String>),
}

/// Where the update stands.
pub enum UpdateStage {
    AwaitStatus,
    AwaitStash,
    AwaitFetch,
    AwaitReset,
    AwaitRecord,
    Finished,
}

/// The state of one overwrite update.
pub struct RemoteUpdate {
    pub auto_stash: bool,
    pub stash_stamp: i64,
    pub stashed: bool,
    pub stage: UpdateStage,
}

/// `deskvio-overwrite-<time>`
pub open spec fn stash_message_s(stamp: i64) -> Seq<char> {
    "deskvio-overwrite-"@ + dec_i_s(stamp as int)
}

/// A failed update's report: not ok, not dirty, whether local changes were
/// stashed, and the error text.
pub open spec fn failed_report(error: Seq<char>, prefix: Seq<char>, stashed: bool, r: UpdateAction) -> bool {
    r matches UpdateAction::Finish(Ok(res)) && !res.ok && !res.dirty && res.stashed == stashed && (
    res.error matches Some(e) && e@ == prefix + error)
}

impl RemoteUpdate {
    /// Starts an update; `auto_stash` selects the variant that stashes local
    /// changes instead of stopping, `stash_stamp` is the time used in the stash
    /// message. The first step is `git status --porcelain`.
    pub fn start(auto_stash: bool, stash_stamp: i64) -> (r: (RemoteUpdate, UpdateAction))
        ensures
            r.0.auto_stash == auto_stash,
            r.0.stash_stamp == stash_stamp,
            !r.0.stashed,
            r.0.stage is AwaitStatus,
            r.1 matches UpdateAction::Run(GitStep::Status),
    {
        (
            RemoteUpdate { auto_stash, stash_stamp, stashed: false, stage: UpdateStage::AwaitStatus },
            UpdateAction::Run(GitStep::Status),
        )
    }

    fn finish(&mut self, r: Result<FetchResetResult, String>) -> (a: UpdateAction)
        ensures
            final(self).stage is Finished,
            final(self).auto_stash == old(self).auto_stash,
            final(self).stash_stamp == old(self).stash_stamp,
            final(self).stashed == old(self).stashed,
            a == UpdateAction::Finish(r),
    {
        self.stage = UpdateStage::Finished;
        UpdateAction::Finish(r)
    }

    fn failed(&mut self, stderr: &str, prefix: &str) -> (a: UpdateAction)
        ensures
            final(self).stage is Finished,
            final(self).auto_stash == old(self).auto_stash,
            final(self).stash_stamp == old(self).stash_stamp,
            final(self).stashed == old(self).stashed,
            failed_report(trim_s(stderr@), prefix@, old(self).stashed, a),
    {
        let e = trim(stderr);
        let msg = concat_str(prefix, e.as_str());
        let stashed = self.stashed;
        self.finish(Ok(FetchResetResult { ok: false, dirty: false, stashed, error: Some(msg) }))
    }

    /// Takes the outcome of the command last asked for and decides the next
    /// action. A command that could not be started ends the request with its
    /// error; a failing command ends the update with a report naming it (the
    /// status step reports git's message as it is); local changes to tracked
    /// files end a plain update as `dirty` and are stashed by an automatic one;
    /// after the reset the new HEAD is recorded and the update succeeds. Every
    /// report after a successful stash says that local changes were stashed
    /// (only a stash that succeeded counts).
    pub fn step(&mut self, outcome: StepOutcome) -> (a: UpdateAction)
        ensures
            final(self).auto_stash == old(self).auto_stash,
            final(self).stash_stamp == old(self).stash_stamp,
            final(self).stashed ==> old(self).stashed || old(self).stage is AwaitStash,
            match (old(self).stage, outcome) {
                (UpdateStage::Finished, _) => final(self).stage is Finished && (a matches UpdateAction::Finish(Err(m)) && m@ == "update already finished"@),
                (UpdateStage::AwaitRecord, _) => final(self).stage is Finished && (a matches UpdateAction::Finish(Ok(res)) && res.ok && !res.dirty && res.stashed == old(self).stashed && res.error is None),
                (_, StepOutcome::SpawnFailed(e)) => final(self).stage is Finished && (a matches UpdateAction::Finish(Err(m)) && m@ == e@),
                (UpdateStage::AwaitStatus, StepOutcome::Exited { success, stdout, stderr }) =>
                    if !success {
                        final(self).stage is Finished && failed_report(trim_s(stderr@), Seq::empty(), old(self).stashed, a)
                    } else if !has_tracked_changes_s(stdout@) {
                        final(self).stage is AwaitFetch && !final(self).stashed && a matches UpdateAction::Run(GitStep::FetchOrigin)
                    } else if !old(self).auto_stash {
                        final(self).stage is Finished && (a matches UpdateAction::Finish(Ok(res)) && !res.ok && res.dirty && !res.stashed && res.error is None)
                    } else {
                        final(self).stage is AwaitStash && final(self).stashed == old(self).stashed && (a matches UpdateAction::Run(GitStep::StashPush(m)) && m@ == stash_message_s(old(self).stash_stamp))
                    },
                (UpdateStage::AwaitStash, StepOutcome::Exited { success, stdout, stderr }) =>
                    if !success {
                        final(self).stage is Finished && failed_report(trim_s(stderr@), "stash failed: "@, old(self).stashed, a)
                    } else {
                        final(self).stage is AwaitFetch && final(self).stashed && a matches UpdateAction::Run(GitStep::FetchOrigin)
                    },
                (UpdateStage::AwaitFetch, StepOutcome::Exited { success, stdout, stderr }) =>
                    if !success {
                        final(self).stage is Finished && failed_report(trim_s(stderr@), "fetch failed: "@, old(self).stashed, a)
                    } else {
                        final(self).stage is AwaitReset && final(self).stashed == old(self).stashed && a matches UpdateAction::Run(GitStep::ResetHard)
                    },
                (UpdateStage::AwaitReset, StepOutcome::Exited { success, stdout, stderr }) =>
                    if !success {
                        final(self).stage is Finished && failed_report(trim_s(stderr@), "reset failed: "@, old(self).stashed, a)
                    } else {
                        final(self).stage is AwaitRecord && final(self).stashed == old(self).stashed && a is RecordHead
                    },
            },
    {
        proof {
            reveal_strlit("update already finished");
            reveal_strlit("stash failed: ");
            reveal_strlit("fetch failed: ");
            reveal_strlit("reset failed: ");
            reveal_strlit("");
            reveal_strlit("deskvio-overwrite-");
        }
        match self.stage {
            UpdateStage::Finished => {
                return UpdateAction::Finish(Err(String::from_str("update already finished")));
            },
            UpdateStage::AwaitRecord => {
                let stashed = self.stashed;
                return self.finish(Ok(FetchResetResult { ok: true, dirty: false, stashed, error: None }));
            },
            _ => {},
        }
        let (success, stdout, stderr) = match outcome {
            StepOutcome::SpawnFailed(e) => {
                return self.finish(Err(e));
            },
            StepOutcome::Exited { success, stdout, stderr } => (success, stdout, stderr),
        };
        match self.stage {
            UpdateStage::AwaitStatus => {
                if !success {
                    return self.failed(stderr.as_str(), "");
                }
                if !has_tracked_uncommitted(stdout.as_str()) {
                    self.stage = UpdateStage::AwaitFetch;
                    self.stashed = false;
                    return UpdateAction::Run(GitStep::FetchOrigin);
                }
                if !self.auto_stash {
                    return self.finish(Ok(FetchResetResult { ok: false, dirty: true, stashed: false, error: None }));
                }
                self.stage = UpdateStage::AwaitStash;
                let msg = concat_str("deskvio-overwrite-", i64_to_string(self.stash_stamp).as_str());
                UpdateAction::Run(GitStep::StashPush(msg))
            },
            UpdateStage::AwaitStash => {
                if !success {
                    return self.failed(stderr.as_str(), "stash failed: ");
                }
                self.stage = UpdateStage::AwaitFetch;
                self.stashed = true;
                UpdateAction::Run(GitStep::FetchOrigin)
            },
            UpdateStage::AwaitFetch => {
                if !success {
                    return self.failed(stderr.as_str(), "fetch failed: ");
                }
                self.stage = UpdateStage::AwaitReset;
                UpdateAction::Run(GitStep::ResetHard)
            },
            _ => {
                if !success {
                    return self.failed(stderr.as_str(), "reset failed: ");
                }
                self.stage = UpdateStage::AwaitRecord;
                UpdateAction::RecordHead
            },
        }
    }
}

} // verus!
