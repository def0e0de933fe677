//! The rules of the repository hub that sit around the database: searching,
//! pruning vanished repositories, refusing dangerous deletions, importing
//! release files, and retrying the removal of a directory.

use vstd::prelude::*;
use crate::db::{all_stored_records, is_stored_record, matching_s, opt_view, Database, DbRequest, RepoRecord};
use crate::paths::{file_name, file_name_s, has_parent, has_parent_s, is_abs_s, join_s, join_str};
use crate::sys::path_exists;
use crate::text::{chars_eq, chars_to_string, concat_str, str_chars, trim, trim_chars, trim_s};
use crate::releases::str_views;
use crate::repo_meta::{merge_project_file_into_db, merge_requests_s, RepoProjectFile};

verus! {

/// The text to search for: `None` (list everything) when the query is blank,
/// otherwise the trimmed query.
pub fn search_text(query: &str) -> (r: Option<String>)
    ensures
        trim_s(query@).len() == 0 ==> r is None,
        trim_s(query@).len() > 0 ==> (r matches Some(q) && q@ == trim_s(query@)),
{
    let t = trim_chars(&str_chars(query));
    if t.len() == 0 {
        None
    } else {
        Some(chars_to_string(&t))
    }
}

/// Search results for a query: everything when it is blank, otherwise the
/// repositories of the listing matching the trimmed query (see
/// `Database::search` and `law_search_membership`).
pub fn hub_search(db: &Database, query: &str) -> (r: Result<Vec<RepoRecord>, rusqlite::Error>)
    ensures
        r matches Ok(v) ==> all_stored_records(v@),
        trim_s(query@).len() > 0 ==> (r matches Ok(v) ==> exists|listed: Seq<RepoRecord>|
            all_stored_records(listed) && v@ == #[trigger] matching_s(listed, trim_s(query@))),
{
    match search_text(query) {
        None => db.list_all(),
        Some(q) => db.search(q.as_str()),
    }
}

/// The ids of the first `n` records whose directory was reported missing
/// (`exists[i]` false), in order.
pub open spec fn prune_plan_upto(records: Seq<RepoRecord>, exists: Seq<bool>, n: int) -> Seq<i64>
    decreases n,
{
    if n <= 0 {
        Seq::empty()
    } else {
        let r = prune_plan_upto(records, exists, n - 1);
        if !exists[n - 1] {
            r.push(records[n - 1].id)
        } else {
            r
        }
    }
}

/// The ids of the records whose directory was reported missing, in order.
pub open spec fn prune_plan_s(records: Seq<RepoRecord>, exists: Seq<bool>) -> Seq<i64> {
    prune_plan_upto(records, exists, records.len() as int)
}

/// Which records pruning deletes: those whose directory does not exist
/// (`exists[i]` says whether the directory of `records[i]` exists), in order.
pub fn prune_plan(records: &[RepoRecord], exists: &[bool]) -> (ids: Vec<i64>)
    requires
        records@.len() == exists@.len(),
    ensures
        ids@ == prune_plan_s(records@, exists@),
{
    let mut ids: Vec<i64> = Vec::new();
    let mut i: usize = 0;
    while i < records.len()
        invariant
            i <= records@.len(),
            records@.len() == exists@.len(),
            ids@ == prune_plan_upto(records@, exists@, i as int),
        decreases records@.len() - i,
    {
        if !exists[i] {
            ids.push(records[i].id);
        }
        i = i + 1;
    }
    ids
}

/// How many of the answers are `true`.
pub open spec fn count_true_s(answers: Seq<bool>) -> nat
    decreases answers.len(),
{
    if answers.len() == 0 {
        0
    } else {
        count_true_s(answers.drop_last()) + if answers.last() {
            1nat
        } else {
            0nat
        }
    }
}

pub proof fn lemma_count_true_bound(answers: Seq<bool>)
    ensures
        count_true_s(answers) <= answers.len(),
    decreases answers.len(),
{
    if answers.len() > 0 {
        lemma_count_true_bound(answers.drop_last());
    }
}

/// The number of deletions that removed a row, from the answers of the
/// deletions (`answers[i]`: whether deleting the `i`-th id removed a row).
pub fn count_deleted(answers: &[bool]) -> (n: u64)
    requires
        answers@.len() <= u64::MAX,
    ensures
        n == count_true_s(answers@),
{
    let mut n: u64 = 0;
    let mut i: usize = 0;
    while i < answers.len()
        invariant
            i <= answers@.len(),
            answers@.len() <= u64::MAX,
            n == count_true_s(answers@.take(i as int)),
        decreases answers@.len() - i,
    {
        proof {
            assert(answers@.take(i + 1).drop_last() =~= answers@.take(i as int));
            lemma_count_true_bound(answers@.take(i as int));
        }
        if answers[i] {
            n = n + 1;
        }
        i = i + 1;
    }
    assert(answers@.take(answers@.len() as int) =~= answers@);
    n
}

/// The requests that delete the records with these ids, in order.
pub open spec fn deletes_s(ids: Seq<i64>) -> Seq<DbRequest> {
    ids.map_values(|id: i64| DbRequest::Delete(id))
}

/// Deletes the records with these ids, in order (one `Delete` request per id),
/// and counts the deletions that removed a row (`count_deleted` over the
/// answers); the first database error stops it. Which rows a deletion removes
/// is up to the database, so the answers are not stated, only that there is
/// one per id and that the count is theirs.
pub fn delete_records(db: &mut Database, ids: &[i64]) -> (r: Result<u64, rusqlite::Error>)
    ensures
        r matches Ok(n) ==> (exists|answers: Seq<bool>|
            answers.len() == ids@.len() && n == #[trigger] count_true_s(answers)) && final(db).requests() == old(db).requests() + deletes_s(ids@),
{
    let ghost start = db.requests();
    let mut answers: Vec<bool> = Vec::new();
    let mut i: usize = 0;
    while i < ids.len()
        invariant
            i <= ids@.len(),
            answers@.len() == i,
            db.requests() == start + deletes_s(ids@.take(i as int)),
        decreases ids@.len() - i,
    {
        let removed = db.delete(ids[i])?;
        assert(deletes_s(ids@.take(i + 1)) =~= deletes_s(ids@.take(i as int)).push(DbRequest::Delete(ids@[i as int])));
        answers.push(removed);
        i = i + 1;
    }
    assert(ids@.take(ids@.len() as int) =~= ids@);
    Ok(count_deleted(answers.as_slice()))
}

/// Removes the records of repositories whose directory no longer exists and
/// returns how many records were deleted: the records listed are probed on
/// disk, `prune_plan` picks those to delete, and `delete_records` deletes them
/// and counts the deletions that removed a row. The deletions asked of the
/// database are exactly those of the planned ids, in order.
pub fn prune_missing_repos(db: &mut Database) -> (r: Result<u64, rusqlite::Error>)
    ensures
        r matches Ok(n) ==> exists|listed: Seq<RepoRecord>, probes: Seq<bool>, answers: Seq<bool>|
            #![trigger prune_plan_s(listed, probes), count_true_s(answers)]
            all_stored_records(listed) && probes.len() == listed.len() && answers.len()
                == prune_plan_s(listed, probes).len() && n == count_true_s(answers) && final(db).requests() == old(db).requests() + deletes_s(prune_plan_s(listed, probes)),
{
    let repos = db.list_all()?;
    let mut exists: Vec<bool> = Vec::new();
    let mut i: usize = 0;
    while i < repos.len()
        invariant
            i <= repos@.len(),
            exists@.len() == i,
        decreases repos@.len() - i,
    {
        exists.push(path_exists(repos[i].path.as_str()));
        i = i + 1;
    }
    let ids = prune_plan(repos.as_slice(), exists.as_slice());
    let r = delete_records(db, ids.as_slice());
    proof {
        if r is Ok {
            let n = r->Ok_0;
            let answers = choose|answers: Seq<bool>|
                answers.len() == ids@.len() && n == #[trigger] count_true_s(answers);
            assert(prune_plan_s(repos@, exists@).len() == answers.len());
        }
    }
    r
}

/// Directory scans go this deep unless told otherwise.
pub const DEFAULT_SCAN_DEPTH: usize = 12;

pub fn scan_depth(max_depth: Option<usize>) -> (r: usize)
    ensures
        r == match max_depth {
            Some(d) => d,
            None => 12,
        },
{
    match max_depth {
        Some(d) => d,
        None => DEFAULT_SCAN_DEPTH,
    }
}

// ---------------------------------------------------------------------------
// Deleting a repository directory.
// ---------------------------------------------------------------------------

/// Refuses to delete a relative path or a filesystem root.
pub fn check_deletable_path(path: &str) -> (r: Result<(), String>)
    ensures
        !is_abs_s(path@) ==> (r matches Err(m) && m@ == "refusing to delete non-absolute path"@),
        is_abs_s(path@) && !has_parent_s(path@) ==> (r matches Err(m) && m@
            == "refusing to delete filesystem root"@),
        is_abs_s(path@) && has_parent_s(path@) ==> r is Ok,
{
    let p = str_chars(path);
    if !(p.len() > 0 && p[0] == '/') {
        return Err(String::from_str("refusing to delete non-absolute path"));
    }
    if !has_parent(&p) {
        return Err(String::from_str("refusing to delete filesystem root"));
    }
    Ok(())
}

/// A directory looks like a git repository when it has a `.git` directory or
/// file, or (a bare repository) a `HEAD` file and an `objects` directory.
pub open spec fn git_evidence_s(
    dot_git_is_dir: bool,
    dot_git_is_file: bool,
    head_is_file: bool,
    objects_is_dir: bool,
) -> bool {
    dot_git_is_dir || dot_git_is_file || (head_is_file && objects_is_dir)
}

pub fn git_evidence(
    dot_git_is_dir: bool,
    dot_git_is_file: bool,
    head_is_file: bool,
    objects_is_dir: bool,
) -> (r: bool)
    ensures
        r == git_evidence_s(dot_git_is_dir, dot_git_is_file, head_is_file, objects_is_dir),
{
    dot_git_is_dir || dot_git_is_file || (head_is_file && objects_is_dir)
}

/// `Path::is_dir`: whether a directory is at `path` on disk right now.
/// Nothing is stated of the answer: it depends on the file system.
#[verifier::external_body]
fn path_is_dir(path: &str) -> bool {
    std::path::Path::new(path).is_dir()
}

/// Whether the directory at `path` looks like a git repository
/// (`git_evidence_s` of what the disk says about `.git`, `HEAD`, `objects`).
pub fn looks_like_git_repo_dir(path: &str) -> bool {
    let dot_git = join_str(path, ".git");
    let head = join_str(path, "HEAD");
    let objects = join_str(path, "objects");
    git_evidence(
        path_is_dir(dot_git.as_str()),
        crate::sys::path_is_file(dot_git.as_str()),
        crate::sys::path_is_file(head.as_str()),
        path_is_dir(objects.as_str()),
    )
}

/// Whether to delete the repository directory, given whether it exists and
/// whether it looks like a git repository: an existing directory that does not
/// look like one is refused.
pub fn deletion_decision(exists: bool, looks_like_git: bool) -> (r: Result<bool, String>)
    ensures
        exists && !looks_like_git ==> (r matches Err(m) && m@
            == "refusing to delete path that does not look like a git repository"@),
        exists && looks_like_git ==> (r matches Ok(d) && d),
        !exists ==> (r matches Ok(d) && !d),
{
    if exists && !looks_like_git {
        return Err(String::from_str(
            "refusing to delete path that does not look like a git repository",
        ));
    }
    Ok(exists)
}

/// Retrying the removal of a directory: at most this many attempts.
pub const REMOVE_MAX_ATTEMPTS: u32 = 60;

/// A removal is attempted only on an existing absolute path that is not a root.
pub fn removal_should_start(path: &str, exists: bool) -> (r: bool)
    ensures
        r == (exists && is_abs_s(path@) && has_parent_s(path@)),
{
    if !exists {
        return false;
    }
    let p = str_chars(path);
    if !(p.len() > 0 && p[0] == '/') {
        return false;
    }
    has_parent(&p)
}

/// After a failed attempt `attempt` (from 0), wait this long before the next:
/// 120 ms per attempt made, at most 1500 ms.
pub fn removal_retry_delay_ms(attempt: u32) -> (ms: u64)
    ensures
        ms == if 120 * (attempt + 1) < 1500 {
            120 * (attempt + 1)
        } else {
            1500
        },
{
    let d: u64 = 120 * (attempt as u64 + 1);
    if d < 1500 {
        d
    } else {
        1500
    }
}

/// What follows a removal attempt.
pub enum RemovalStep {
    /// The directory was removed by attempt number `attempts` (from 1).
    Removed { attempts: u32 },
    /// The attempt failed but the directory is gone anyway.
    Disappeared { attempt: u32 },
    /// Try again after this many milliseconds.
    RetryAfterMs(u64),
    /// No attempts are left.
    Exhausted,
}

/// Decides what follows attempt `attempt` (from 0), given whether the removal
/// succeeded and, if not, whether the directory still exists.
pub fn removal_after_attempt(attempt: u32, removed: bool, still_exists: bool) -> (r: RemovalStep)
    requires
        attempt < REMOVE_MAX_ATTEMPTS,
    ensures
        removed ==> r == (RemovalStep::Removed { attempts: (attempt + 1) as u32 }),
        !removed && !still_exists ==> r == (RemovalStep::Disappeared { attempt: (attempt + 1) as u32 }),
        !removed && still_exists && attempt + 1 < REMOVE_MAX_ATTEMPTS ==> (r matches RemovalStep::RetryAfterMs(ms) && ms == if 120 * (attempt + 1) < 1500 {
            120 * (attempt + 1)
        } else {
            1500
        }),
        !removed && still_exists && attempt + 1 >= REMOVE_MAX_ATTEMPTS ==> r is Exhausted,
{
    if removed {
        return RemovalStep::Removed { attempts: attempt + 1 };
    }
    if !still_exists {
        return RemovalStep::Disappeared { attempt: attempt + 1 };
    }
    if attempt + 1 < REMOVE_MAX_ATTEMPTS {
        RemovalStep::RetryAfterMs(removal_retry_delay_ms(attempt))
    } else {
        RemovalStep::Exhausted
    }
}

// ---------------------------------------------------------------------------
// Importing release files.
// ---------------------------------------------------------------------------

pub open spec fn asset_bin_s() -> Seq<char> {
    "asset.bin"@
}

/// The name an imported file is shown and stored under: its file name, or
/// `asset.bin` when the path has none.
pub fn asset_file_name(path: &str) -> (r: String)
    ensures
        r@ == match file_name_s(path@) {
            Some(n) => n,
            None => asset_bin_s(),
        },
{
    match file_name(&str_chars(path)) {
        Some(n) => chars_to_string(&n),
        None => {
            proof {
                reveal_strlit("asset.bin");
            }
            String::from_str("asset.bin")
        },
    }
}

/// What to do with one path given for import.
pub enum ImportSource {
    /// A blank entry: ignore it.
    Skip,
    /// Import the file at this (trimmed) path.
    File(String),
    /// Stop with this error.
    Fail(String),
}

/// Classifies a path given for import. `exists`, `is_dir` and `is_file` are
/// what the disk says of the trimmed path; blanks are skipped, and only
/// regular files are imported.
pub fn classify_import_source(raw: &str, exists: bool, is_dir: bool, is_file: bool) -> (r: ImportSource)
    ensures
        trim_s(raw@).len() == 0 ==> r is Skip,
        trim_s(raw@).len() > 0 && !exists ==> (r matches ImportSource::Fail(m) && m@
            == "path not found: "@ + trim_s(raw@)),
        trim_s(raw@).len() > 0 && exists && is_dir ==> (r matches ImportSource::Fail(m) && m@
            == "folders are not supported; select files only"@),
        trim_s(raw@).len() > 0 && exists && !is_dir && is_file ==> (r matches ImportSource::File(
            p,
        ) && p@ == trim_s(raw@)),
        trim_s(raw@).len() > 0 && exists && !is_dir && !is_file ==> (r matches ImportSource::Fail(
            m,
        ) && m@ == "not a file or directory: "@ + trim_s(raw@)),
{
    let t = trim(raw);
    if t.as_str().unicode_len() == 0 {
        return ImportSource::Skip;
    }
    if !exists {
        return ImportSource::Fail(concat_str("path not found: ", t.as_str()));
    }
    if is_dir {
        return ImportSource::Fail(String::from_str("folders are not supported; select files only"));
    }
    if is_file {
        ImportSource::File(t)
    } else {
        ImportSource::Fail(concat_str("not a file or directory: ", t.as_str()))
    }
}

/// A bare repository has no worktree to resolve files in.
pub fn require_worktree(is_bare: bool) -> (r: Result<(), String>)
    ensures
        is_bare ==> (r matches Err(m) && m@ == "bare repository has no worktree files"@),
        !is_bare ==> r is Ok,
{
    if is_bare {
        Err(String::from_str("bare repository has no worktree files"))
    } else {
        Ok(())
    }
}

/// Paths for a last-commit lookup: trimmed, blanks dropped, order kept.
pub open spec fn cleaned_paths_s(paths: Seq<Seq<char>>) -> Seq<Seq<char>>
    decreases paths.len(),
{
    if paths.len() == 0 {
        Seq::empty()
    } else {
        let r = cleaned_paths_s(paths.drop_last());
        let t = trim_s(paths.last());
        if t.len() > 0 {
            r.push(t)
        } else {
            r
        }
    }
}

pub fn clean_paths(paths: &[String]) -> (r: Vec<String>)
    ensures
        str_views(r@) == cleaned_paths_s(str_views(paths@)),
{
    let mut out: Vec<String> = Vec::new();
    let mut i: usize = 0;
    while i < paths.len()
        invariant
            i <= paths.len(),
            str_views(out@) == cleaned_paths_s(str_views(paths@).take(i as int)),
        decreases paths.len() - i,
    {
        proof {
            assert(str_views(paths@).take(i + 1).drop_last() =~= str_views(paths@).take(i as int));
        }
        let t = trim(paths[i].as_str());
        if t.as_str().unicode_len() > 0 {
            let ghost before = out@;
            out.push(t);
            assert(str_views(out@) =~= str_views(before).push(t@));
        }
        i = i + 1;
    }
    assert(str_views(paths@).take(paths.len() as int) =~= str_views(paths@));
    out
}

/// How refreshing the cached HEADs went.
pub struct HeadRefreshSummary {
    pub total: usize,
    pub ok: usize,
    pub failed: usize,
}

/// Counts refresh results: how many there were, succeeded and failed.
pub fn summarize_head_refresh(results: &[bool]) -> (r: HeadRefreshSummary)
    ensures
        r.total == results@.len(),
        r.ok + r.failed == r.total,
        r.ok == results@.filter(|b: bool| b).len(),
{
    let mut ok: usize = 0;
    let mut failed: usize = 0;
    let mut i: usize = 0;
    while i < results.len()
        invariant
            i <= results.len(),
            ok + failed == i,
            ok == results@.take(i as int).filter(|b: bool| b).len(),
        decreases results.len() - i,
    {
        proof {
            assert(results@.take(i + 1).drop_last() =~= results@.take(i as int));
            reveal_with_fuel(Seq::<_>::filter, 1);
        }
        if results[i] {
            ok = ok + 1;
        } else {
            failed = failed + 1;
        }
        i = i + 1;
    }
    assert(results@.take(results.len() as int) =~= results@);
    HeadRefreshSummary { total: results.len(), ok, failed }
}


/// Registers the repository at `path` (or updates its record, see
/// `Database::insert_repo`), copies into the record the project file read from
/// the repository, if any, and returns the record as stored afterwards. Copying
/// the project file and reading the record back are best effort: when reading
/// back fails (or gives a record for another path, which cannot happen as the
/// id is the record's key), the record from registering is returned.
pub fn register_repo(
    db: &mut Database,
    path: &str,
    display_name: Option<String>,
    is_bare: bool,
    head: Option<String>,
    project_file: Option<RepoProjectFile>,
) -> (r: Result<RepoRecord, rusqlite::Error>)
    ensures
        ({
            let ins = old(db).requests().push(
                DbRequest::Insert {
                    path: path@,
                    display_name: opt_view(display_name),
                    is_bare,
                    head: opt_view(head),
                },
            );
            r matches Ok(rec) ==> is_stored_record(rec) && rec.path@ == path@ && match project_file {
                None => final(db).requests() == ins,
                Some(f) => exists|k: int|
                    0 <= k <= 2 && final(db).requests() == ins + #[trigger] merge_requests_s(
                        rec.id,
                        f,
                    ).take(k),
            }
        }),
{
    let rec = db.insert_repo(path, display_name, is_bare, head)?;
    let _ = merge_project_file_into_db(db, rec.id, project_file);
    match db.get(rec.id) {
        Ok(Some(updated)) => {
            if chars_eq(&str_chars(updated.path.as_str()), &str_chars(path)) {
                Ok(updated)
            } else {
                Ok(rec)
            }
        },
        _ => Ok(rec),
    }
}

// ---------------------------------------------------------------------------
// File contents sent as text.
// ---------------------------------------------------------------------------

/// The character of the standard base64 alphabet for a six-bit value:
/// `A`-`Z`, `a`-`z`, `0`-`9`, `+`, `/`.
pub open spec fn base64_digit_s(v: int) -> char {
    if v < 26 {
        (('A' as int) + v) as char
    } else if v < 52 {
        (('a' as int) + v - 26) as char
    } else if v < 62 {
        (('0' as int) + v - 52) as char
    } else if v == 62 {
        '+'
    } else {
        '/'
    }
}

/// Standard base64 with padding: every group of three bytes becomes four
/// digits of six bits each, most significant bits first; a last group of one
/// or two bytes is filled up with zero bits and padded with `=` to four
/// characters.
pub open spec fn base64_standard_s(b: Seq<u8>) -> Seq<char>
    decreases b.len(),
{
    if b.len() == 0 {
        Seq::empty()
    } else if b.len() == 1 {
        seq![
            base64_digit_s(b[0] as int / 4),
            base64_digit_s((b[0] as int % 4) * 16),
            '=',
            '=',
        ]
    } else if b.len() == 2 {
        seq![
            base64_digit_s(b[0] as int / 4),
            base64_digit_s((b[0] as int % 4) * 16 + b[1] as int / 16),
            base64_digit_s((b[1] as int % 16) * 4),
            '=',
        ]
    } else {
        seq![
            base64_digit_s(b[0] as int / 4),
            base64_digit_s((b[0] as int % 4) * 16 + b[1] as int / 16),
            base64_digit_s((b[1] as int % 16) * 4 + b[2] as int / 64),
            base64_digit_s(b[2] as int % 64),
        ] + base64_standard_s(b.skip(3))
    }
}

/// The length of padded base64 text for `n` bytes: four characters for every
/// started group of three bytes.
pub open spec fn base64_len_s(n: nat) -> nat {
    4 * ((n + 2) / 3)
}

/// `base64::engine::general_purpose::STANDARD.encode`: the standard alphabet
/// with padding, which is what `base64_standard_s` states. The crate panics
/// when the encoded length overflows `usize`.
#[verifier::external_body]
fn base64_standard(bytes: &[u8]) -> (r: String)
    requires
        base64_len_s(bytes@.len()) <= usize::MAX,
    ensures
        r@ == base64_standard_s(bytes@),
{
    base64::Engine::encode(&base64::engine::general_purpose::STANDARD, bytes)
}

/// The bytes of a file as text for display: standard base64 with padding.
pub fn blob_base64(bytes: &[u8]) -> (r: String)
    requires
        base64_len_s(bytes@.len()) <= usize::MAX,
    ensures
        r@ == base64_standard_s(bytes@),
        r@.len() == base64_len_s(bytes@.len()),
{
    proof {
        lemma_base64_len(bytes@);
    }
    base64_standard(bytes)
}

/// Padded base64 text has four characters for every started group of three
/// bytes.
pub proof fn lemma_base64_len(b: Seq<u8>)
    ensures
        base64_standard_s(b).len() == base64_len_s(b.len()),
    decreases b.len(),
{
    if b.len() >= 3 {
        lemma_base64_len(b.skip(3));
        assert((b.len() - 3 + 2) / 3 + 1 == (b.len() + 2) / 3);
    }
}

} // verus!
