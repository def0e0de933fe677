//! Cloning repositories: which URLs and destinations are accepted, where a
//! clone goes, how `git clone --progress` output is cut into lines, the
//! registry of running clone sessions, and what a finished or cancelled clone
//! reports.

use vstd::prelude::*;
use crate::paths::{join_s, join_str, split_s, split_slash};
use vstd::hash_map::StringHashMap;
use crate::sys::path_exists;
use crate::text::{
    chars_eq, chars_to_string, concat_str, copy_chars, dec_s, ends_with_chars, ends_with_s,
    lower_chars, lower_s, push_dec, starts_with_chars, starts_with_s, str_chars, trail_eq,
    lemma_trail_eq_bound, lemma_trail_eq_at, trim_chars, trim_s, sub_chars,
};

verus! {

// ---------------------------------------------------------------------------
// Accepted inputs.
// ---------------------------------------------------------------------------

pub open spec fn https_s() -> Seq<char> {
    "https://"@
}

/// Accepts only `https://` clone URLs; returns the trimmed URL.
pub fn check_clone_url(url: &str) -> (r: Result<String, String>)
    ensures
        starts_with_s(trim_s(url@), https_s()) ==> (r matches Ok(u) && u@ == trim_s(url@)),
        !starts_with_s(trim_s(url@), https_s()) ==> (r matches Err(m) && m@
            == "only public https clone URLs are supported"@),
{
    let t = trim_chars(&str_chars(url));
    let https = str_chars("https://");
    proof {
        reveal_strlit("https://");
    }
    if !starts_with_chars(&t, &https) {
        return Err(String::from_str("only public https clone URLs are supported"));
    }
    Ok(chars_to_string(&t))
}

pub open spec fn no_root_msg_s() -> Seq<char> {
    "repo root is not set; please choose a destination directory first"@
}

/// The destination directory given for a clone or import: required, and not
/// blank. Returns it trimmed.
pub fn check_dest_parent(dest_parent: Option<&str>) -> (r: Result<String, String>)
    ensures
        match dest_parent {
            Some(d) => if trim_s(d@).len() > 0 {
                r matches Ok(p) && p@ == trim_s(d@)
            } else {
                r matches Err(m) && m@ == no_root_msg_s()
            },
            None => r matches Err(m) && m@ == no_root_msg_s(),
        },
{
    match dest_parent {
        Some(d) => {
            let t = trim_chars(&str_chars(d));
            if t.len() == 0 {
                return Err(String::from_str(
                    "repo root is not set; please choose a destination directory first",
                ));
            }
            Ok(chars_to_string(&t))
        },
        None => Err(String::from_str(
            "repo root is not set; please choose a destination directory first",
        )),
    }
}

// ---------------------------------------------------------------------------
// Names.
// ---------------------------------------------------------------------------

pub open spec fn dot_git_s() -> Seq<char> {
    seq!['.', 'g', 'i', 't']
}

/// `str::trim_end_matches(".git")`: every trailing `.git` removed.
pub open spec fn strip_git_s(s: Seq<char>) -> Seq<char>
    decreases s.len(),
{
    if s.len() >= 4 && ends_with_s(s, dot_git_s()) {
        strip_git_s(s.take(s.len() - 4))
    } else {
        s
    }
}

/// Removes every trailing `.git`.
pub fn strip_git(v: &Vec<char>) -> (r: Vec<char>)
    ensures
        r@ == strip_git_s(v@),
{
    let g: Vec<char> = vec!['.', 'g', 'i', 't'];
    assert(g@ =~= dot_git_s());
    let mut k = v.len();
    let mut cur = copy_chars(v);
    while k >= 4 && ends_with_chars(&cur, &g)
        invariant
            g@ == dot_git_s(),
            k == cur@.len(),
            k <= v.len(),
            strip_git_s(cur@) == strip_git_s(v@),
        decreases k,
    {
        let next = sub_chars(&cur, 0, k - 4);
        assert(next@ =~= cur@.take(cur@.len() - 4));
        cur = next;
        k = k - 4;
    }
    cur
}

pub open spec fn repo_s() -> Seq<char> {
    seq!['r', 'e', 'p', 'o']
}

/// The directory name a clone gets: the URL's last `/`-segment, trimmed, with
/// trailing `.git` removed; `repo` when nothing is left.
pub open spec fn clone_name_s(url: Seq<char>) -> Seq<char> {
    let n = strip_git_s(trim_s(split_s(url).last()));
    if n.len() == 0 {
        repo_s()
    } else {
        n
    }
}

pub fn clone_repo_name(url: &str) -> (r: String)
    ensures
        r@ == clone_name_s(url@),
{
    let segs = split_slash(&str_chars(url));
    proof {
        crate::paths::lemma_split_nonempty(url@);
    }
    let last = &segs[segs.len() - 1];
    let n = strip_git(&trim_chars(last));
    if n.len() == 0 {
        let r: Vec<char> = vec!['r', 'e', 'p', 'o'];
        assert(r@ =~= repo_s());
        chars_to_string(&r)
    } else {
        chars_to_string(&n)
    }
}

/// `<name>-<idx>`
pub open spec fn numbered_name_s(name: Seq<char>, idx: nat) -> Seq<char> {
    name + seq!['-'] + dec_s(idx)
}

/// The `k`-th place a clone may go: `<base>/<name>`, then `<base>/<name>-2`,
/// `<base>/<name>-3`, ...
pub open spec fn clone_candidate_s(base: Seq<char>, name: Seq<char>, k: nat) -> Seq<char> {
    if k == 0 {
        join_s(base, name)
    } else {
        join_s(base, numbered_name_s(name, k + 1))
    }
}

/// `k` is the first index whose probe answered "free" (`taken[k]` false).
pub open spec fn first_free(taken: Seq<bool>, k: int) -> bool {
    0 <= k < taken.len() && !taken[k] && forall|j: int| 0 <= j < k ==> #[trigger] taken[j]
}

/// The `k`-th candidate place for a clone (see `clone_candidate_s`).
pub fn clone_candidate(base: &str, name: &str, k: usize) -> (r: String)
    requires
        k < usize::MAX,
    ensures
        r@ == clone_candidate_s(base@, name@, k as nat),
{
    if k == 0 {
        return join_str(base, name);
    }
    let mut n = concat_str(name, "-");
    push_dec(&mut n, (k + 1) as u64);
    proof {
        reveal_strlit("-");
        assert(n@ =~= numbered_name_s(name@, (k + 1) as nat));
    }
    join_str(base, n.as_str())
}

/// Picks where a clone goes from the probes of the candidate places, in order
/// (`taken[k]` says whether the `k`-th exists): the first one that is free, or
/// `None` when every probed place is taken.
pub fn pick_clone_target(base: &str, name: &str, taken: &[bool]) -> (r: Option<String>)
    requires
        taken@.len() < usize::MAX,
    ensures
        match r {
            Some(t) => exists|k: int| first_free(taken@, k) && t@ == clone_candidate_s(base@, name@, k as nat),
            None => forall|j: int| 0 <= j < taken@.len() ==> #[trigger] taken@[j],
        },
{
    let mut k: usize = 0;
    while k < taken.len()
        invariant
            k <= taken@.len(),
            taken@.len() < usize::MAX,
            forall|j: int| 0 <= j < k ==> #[trigger] taken@[j],
        decreases taken@.len() - k,
    {
        if !taken[k] {
            let t = clone_candidate(base, name, k);
            assert(first_free(taken@, k as int));
            return Some(t);
        }
        k = k + 1;
    }
    None
}

/// Where a clone goes: the first of `<base>/<name>`, `<base>/<name>-2`,
/// `<base>/<name>-3`, ... that does not exist on disk. Each candidate is probed
/// in turn and `pick_clone_target` chooses among the answers: the result is
/// the first candidate whose probe answered "free" (only after `usize::MAX - 1`
/// candidates all answered "taken" is the next one returned unprobed).
pub fn compute_clone_target(base: &str, name: &str) -> (r: String)
    ensures
        (exists|taken: Seq<bool>, k: int|
            #[trigger] first_free(taken, k) && r@ == clone_candidate_s(base@, name@, k as nat))
            || exists|k: nat| k >= usize::MAX - 1 && r@ == #[trigger] clone_candidate_s(base@, name@, k),
{
    let mut taken: Vec<bool> = Vec::new();
    while taken.len() < usize::MAX - 1
        invariant_except_break
            forall|j: int| 0 <= j < taken@.len() ==> #[trigger] taken@[j],
        invariant
            taken@.len() < usize::MAX,
        ensures
            taken@.len() >= usize::MAX - 1 || (taken@.len() > 0 && !taken@[taken@.len() - 1]),
        decreases usize::MAX - 1 - taken@.len(),
    {
        let t = clone_candidate(base, name, taken.len());
        let exists = path_exists(t.as_str());
        if !exists {
            taken.push(false);
            break;
        }
        taken.push(true);
    }
    match pick_clone_target(base, name, taken.as_slice()) {
        Some(t) => t,
        None => {
            proof {
                if taken@.len() > 0 {
                    assert(taken@[taken@.len() - 1]);
                }
            }
            clone_candidate(base, name, taken.len())
        },
    }
}

/// `str::trim_end_matches('/')`
pub open spec fn strip_slashes_s(s: Seq<char>) -> Seq<char> {
    s.take(s.len() - trail_eq(s, '/'))
}

/// The form in which clone URLs are compared: trimmed, trailing slashes and
/// then trailing `.git` removed, ASCII lowercase.
pub open spec fn normalized_url_s(url: Seq<char>) -> Seq<char> {
    lower_s(strip_git_s(strip_slashes_s(trim_s(url))))
}

pub fn normalize_clone_url(url: &str) -> (r: String)
    ensures
        r@ == normalized_url_s(url@),
{
    let t = trim_chars(&str_chars(url));
    let mut k = t.len();
    while k > 0 && t[k - 1] == '/'
        invariant
            k <= t.len(),
            forall|j: int| k <= j < t.len() ==> #[trigger] t@[j] == '/',
        decreases k,
    {
        k = k - 1;
    }
    proof {
        lemma_trail_eq_at(t@, '/', k as int);
    }
    let s = sub_chars(&t, 0, k);
    assert(s@ =~= strip_slashes_s(t@));
    let g = strip_git(&s);
    chars_to_string(&lower_chars(&g))
}

/// The `origin` remote of a repository points at the URL being cloned.
pub fn is_same_origin(remote_name: &str, remote_fetch_url: &str, wanted_normalized: &str) -> (r: bool)
    ensures
        r == (remote_name@ == "origin"@ && normalized_url_s(remote_fetch_url@)
            == wanted_normalized@),
{
    let origin = str_chars("origin");
    if !chars_eq(&str_chars(remote_name), &origin) {
        return false;
    }
    let n = normalize_clone_url(remote_fetch_url);
    chars_eq(&str_chars(n.as_str()), &str_chars(wanted_normalized))
}


/// Some remote of a repository (name, fetch URL) is its `origin` pointing at
/// the wanted URL.
pub open spec fn has_same_origin_s(remotes: Seq<(String, String)>, wanted: Seq<char>) -> bool {
    exists|j: int|
        0 <= j < remotes.len() && #[trigger] remotes[j].0@ == "origin"@ && normalized_url_s(
            remotes[j].1@,
        ) == wanted
}

/// Whether a repository's remotes hold an `origin` pointing at the wanted URL.
pub fn remotes_match_origin(remotes: &[(String, String)], wanted_normalized: &str) -> (r: bool)
    ensures
        r == has_same_origin_s(remotes@, wanted_normalized@),
{
    let mut i: usize = 0;
    while i < remotes.len()
        invariant
            i <= remotes@.len(),
            forall|j: int|
                0 <= j < i ==> !(#[trigger] remotes@[j].0@ == "origin"@ && normalized_url_s(
                    remotes@[j].1@,
                ) == wanted_normalized@),
        decreases remotes@.len() - i,
    {
        if is_same_origin(remotes[i].0.as_str(), remotes[i].1.as_str(), wanted_normalized) {
            return true;
        }
        i = i + 1;
    }
    false
}

/// The repository already registered for a clone URL: the first, in listing
/// order, whose remotes could be read (`probes[i]` is `None` when repository
/// `i` is missing, not a repository, or its remotes could not be read) and
/// hold an `origin` pointing at the wanted URL.
pub fn first_same_origin(probes: &[Option<Vec<(String, String)>>], wanted_normalized: &str) -> (r: Option<usize>)
    ensures
        match r {
            Some(i) => i < probes@.len() && (probes@[i as int] matches Some(rs) && has_same_origin_s(
                rs@,
                wanted_normalized@,
            )) && forall|j: int|
                0 <= j < i ==> !(#[trigger] probes@[j] matches Some(rs) && has_same_origin_s(
                    rs@,
                    wanted_normalized@,
                )),
            None => forall|j: int|
                0 <= j < probes@.len() ==> !(#[trigger] probes@[j] matches Some(rs)
                    && has_same_origin_s(rs@, wanted_normalized@)),
        },
{
    let mut i: usize = 0;
    while i < probes.len()
        invariant
            i <= probes@.len(),
            forall|j: int|
                0 <= j < i ==> !(#[trigger] probes@[j] matches Some(rs) && has_same_origin_s(
                    rs@,
                    wanted_normalized@,
                )),
        decreases probes@.len() - i,
    {
        match &probes[i] {
            Some(rs) => {
                if remotes_match_origin(rs.as_slice(), wanted_normalized) {
                    return Some(i);
                }
            },
            None => {},
        }
        i = i + 1;
    }
    None
}

/// The arguments of the `git` command that clones `url` into `target`, with
/// progress reports.
pub fn clone_command_args(url: &str, target: &str) -> (r: Vec<String>)
    ensures
        r@.len() == 5,
        r@[0]@ == "clone"@,
        r@[1]@ == "--progress"@,
        r@[2]@ == "--"@,
        r@[3]@ == url@,
        r@[4]@ == target@,
{
    vec![
        String::from_str("clone"),
        String::from_str("--progress"),
        String::from_str("--"),
        String::from_str(url),
        String::from_str(target),
    ]
}

// ---------------------------------------------------------------------------
// Progress output, cut into lines.
// ---------------------------------------------------------------------------

/// `\r` and `\n` both end a progress line (git redraws its progress with `\r`).
pub open spec fn is_line_break(b: u8) -> bool {
    b == 13 || b == 10
}

/// Lines completed so far, and the bytes of the line not yet ended.
pub type LineState = (Seq<Seq<u8>>, Seq<u8>);

/// One byte of output: a line break completes the pending line when it is
/// not empty; any other byte extends it.
pub open spec fn step_line(st: LineState, b: u8) -> LineState {
    if is_line_break(b) {
        if st.1.len() > 0 {
            (st.0.push(st.1), Seq::empty())
        } else {
            st
        }
    } else {
        (st.0, st.1.push(b))
    }
}

/// The state after reading `s` from `st`.
pub open spec fn run_lines(st: LineState, s: Seq<u8>) -> LineState
    decreases s.len(),
{
    if s.len() == 0 {
        st
    } else {
        step_line(run_lines(st, s.drop_last()), s.last())
    }
}

pub open spec fn byte_views(v: Seq<Vec<u8>>) -> Seq<Seq<u8>> {
    v.map_values(|x: Vec<u8>| x@)
}

/// Cuts `git clone --progress` output into lines as it arrives.
pub struct ProgressLines {
    pending: Vec<u8>,
}

impl ProgressLines {
    /// The bytes of the line not yet ended.
    pub closed spec fn pending_view(&self) -> Seq<u8> {
        self.pending@
    }

    pub fn new() -> (r: Self)
        ensures
            r.pending_view() == Seq::<u8>::empty(),
    {
        ProgressLines { pending: Vec::new() }
    }

    /// Reads a chunk of output and returns the lines it completes (empty lines
    /// are dropped).
    pub fn feed(&mut self, chunk: &[u8]) -> (lines: Vec<Vec<u8>>)
        ensures
            byte_views(lines@) == run_lines((Seq::empty(), old(self).pending_view()), chunk@).0,
            final(self).pending_view() == run_lines(
                (Seq::empty(), old(self).pending_view()),
                chunk@,
            ).1,
    {
        let ghost start: LineState = (Seq::empty(), self.pending@);
        let mut lines: Vec<Vec<u8>> = Vec::new();
        let mut i: usize = 0;
        while i < chunk.len()
            invariant
                i <= chunk.len(),
                (byte_views(lines@), self.pending@) == run_lines(start, chunk@.take(i as int)),
            decreases chunk.len() - i,
        {
            let b = chunk[i];
            proof {
                assert(chunk@.take(i + 1).drop_last() =~= chunk@.take(i as int));
            }
            if b == 13 || b == 10 {
                if self.pending.len() > 0 {
                    let mut done: Vec<u8> = Vec::new();
                    std::mem::swap(&mut done, &mut self.pending);
                    let ghost before = lines@;
                    lines.push(done);
                    proof {
                        assert(byte_views(lines@) =~= byte_views(before).push(done@));
                    }
                }
            } else {
                self.pending.push(b);
            }
            i = i + 1;
        }
        assert(chunk@.take(chunk.len() as int) =~= chunk@);
        lines
    }

    /// At the end of output: the last line, when it is not empty.
    pub fn finish(self) -> (r: Option<Vec<u8>>)
        ensures
            self.pending_view().len() > 0 ==> (r matches Some(l) && l@ == self.pending_view()),
            self.pending_view().len() == 0 ==> r is None,
    {
        if self.pending.len() > 0 {
            Some(self.pending)
        } else {
            None
        }
    }
}

/// Reading `a` then `b` is reading `a + b`.
pub proof fn lemma_run_lines_concat(st: LineState, a: Seq<u8>, b: Seq<u8>)
    ensures
        run_lines(st, a + b) == run_lines(run_lines(st, a), b),
    decreases b.len(),
{
    if b.len() == 0 {
        assert(a + b =~= a);
    } else {
        assert((a + b).drop_last() =~= a + b.drop_last());
        assert((a + b).last() == b.last());
        lemma_run_lines_concat(st, a, b.drop_last());
    }
}

/// Lines completed before do not change what later output completes.
pub proof fn lemma_run_lines_prefix(done: Seq<Seq<u8>>, pending: Seq<u8>, s: Seq<u8>)
    ensures
        run_lines((done, pending), s).0 == done + run_lines((Seq::empty(), pending), s).0,
        run_lines((done, pending), s).1 == run_lines((Seq::empty(), pending), s).1,
    decreases s.len(),
{
    if s.len() == 0 {
        assert(done + Seq::<Seq<u8>>::empty() =~= done);
    } else {
        lemma_run_lines_prefix(done, pending, s.drop_last());
        let x = run_lines((done, pending), s.drop_last());
        let y = run_lines((Seq::empty(), pending), s.drop_last());
        if is_line_break(s.last()) && x.1.len() > 0 {
            assert(x.0.push(x.1) =~= done + y.0.push(y.1));
        }
    }
}

/// However the output is cut into chunks, the same lines come out: feeding
/// `a` and then `b` completes, in order, exactly the lines that feeding
/// `a + b` at once completes, and leaves the same pending line.
pub proof fn law_progress_lines_chunking(pending: Seq<u8>, a: Seq<u8>, b: Seq<u8>)
    ensures
        ({
            let first = run_lines((Seq::empty(), pending), a);
            let second = run_lines((Seq::empty(), first.1), b);
            let whole = run_lines((Seq::empty(), pending), a + b);
            first.0 + second.0 == whole.0 && second.1 == whole.1
        }),
{
    let first = run_lines((Seq::empty(), pending), a);
    lemma_run_lines_concat((Seq::empty(), pending), a, b);
    lemma_run_lines_prefix(first.0, first.1, b);
}


// ---------------------------------------------------------------------------
// Running clone sessions.
// ---------------------------------------------------------------------------

/// A `git clone` running in the background.
pub struct CloneSession {
    pub pid: u32,
    pub cancelled: bool,
    pub target: String,
}

/// What the registry knows of a session: process id, cancelled flag, target.
pub type SessionView = (u32, bool, Seq<char>);

pub open spec fn session_view(s: CloneSession) -> SessionView {
    (s.pid, s.cancelled, s.target@)
}

/// The running clone sessions, by session id (`vstd`'s `StringHashMap`, a
/// `HashMap` keyed by `String`).
pub struct CloneSessions {
    sessions: StringHashMap<CloneSession>,
}

impl CloneSessions {
    /// The sessions as a map from session id.
    pub closed spec fn view(self) -> Map<Seq<char>, SessionView> {
        self.sessions@.map_values(|s: CloneSession| session_view(s))
    }

    /// No sessions.
    pub fn new() -> (r: Self)
        ensures
            r.view() == Map::<Seq<char>, SessionView>::empty(),
    {
        let r = CloneSessions { sessions: StringHashMap::new() };
        assert(r.view() =~= Map::<Seq<char>, SessionView>::empty());
        r
    }

    /// Registers a session under `id`, replacing any session already there.
    pub fn insert(&mut self, id: String, session: CloneSession)
        ensures
            final(self).view() == old(self).view().insert(id@, session_view(session)),
    {
        let ghost before = self.view();
        let ghost idv = id@;
        let ghost sv = session_view(session);
        self.sessions.insert(id, session);
        assert(self.view() =~= before.insert(idv, sv));
    }

    /// Marks the session with this id as cancelled and returns its process id
    /// and target; `None`, and no change, when there is no such session.
    pub fn mark_cancelled(&mut self, id: &str) -> (r: Option<(u32, String)>)
        ensures
            old(self).view().contains_key(id@) ==> (r matches Some((pid, t)) && pid == old(
                self,
            ).view()[id@].0 && t@ == old(self).view()[id@].2 && final(self).view() == old(
                self,
            ).view().insert(id@, (old(self).view()[id@].0, true, old(self).view()[id@].2))),
            !old(self).view().contains_key(id@) ==> (r is None && final(self).view() == old(
                self,
            ).view()),
    {
        let ghost before = self.view();
        let (pid, target, kept) = match self.sessions.get(id) {
            None => {
                return None;
            },
            Some(s) => (s.pid, s.target.clone(), s.target.clone()),
        };
        let updated = CloneSession { pid, cancelled: true, target: kept };
        let key = String::from_str(id);
        self.sessions.insert(key, updated);
        assert(self.view() =~= before.insert(id@, (before[id@].0, true, before[id@].2)));
        Some((pid, target))
    }

    /// Takes the session with this id out of the registry and returns it;
    /// `None`, and no change, when there is no such session.
    pub fn remove(&mut self, id: &str) -> (r: Option<CloneSession>)
        ensures
            old(self).view().contains_key(id@) ==> (r matches Some(s) && session_view(s) == old(
                self,
            ).view()[id@] && final(self).view() == old(self).view().remove(id@)),
            !old(self).view().contains_key(id@) ==> (r is None && final(self).view() == old(
                self,
            ).view()),
    {
        let ghost before = self.view();
        let taken = match self.sessions.get(id) {
            None => {
                return None;
            },
            Some(s) => CloneSession { pid: s.pid, cancelled: s.cancelled, target: s.target.clone() },
        };
        self.sessions.remove(id);
        assert(self.view() =~= before.remove(id@));
        Some(taken)
    }
}

/// A session registered under an id is what taking that id out returns, and
/// taking it out leaves the registry as it was without that id.
pub proof fn law_session_registered_then_removed(m: Map<Seq<char>, SessionView>, id: Seq<char>, s: SessionView)
    ensures
        m.insert(id, s).contains_key(id),
        m.insert(id, s)[id] == s,
        m.insert(id, s).remove(id) == m.remove(id),
{
    assert(m.insert(id, s).remove(id) =~= m.remove(id));
}

/// A cancelled session, taken out afterwards, reports itself cancelled with
/// its process id and target unchanged.
pub proof fn law_cancel_then_remove(m: Map<Seq<char>, SessionView>, id: Seq<char>)
    requires
        m.contains_key(id),
    ensures
        ({
            let after = m.insert(id, (m[id].0, true, m[id].2));
            after.contains_key(id) && after[id].1 && after[id].0 == m[id].0 && after[id].2
                == m[id].2 && after.remove(id) == m.remove(id)
        }),
{
    assert(m.insert(id, (m[id].0, true, m[id].2)).remove(id) =~= m.remove(id));
}

/// What cancelling a clone reports.
pub struct CancelCloneResult {
    pub session_id: String,
    pub target: String,
    pub killed: bool,
    pub removed: bool,
    pub still_exists: bool,
    pub error: Option<String>,
}

/// How many times a cancelled clone's target is looked at again after the
/// cleanup, while it is still on disk.
pub const CANCEL_POLLS: u32 = 6;

/// The pause before each of those looks.
pub const CANCEL_POLL_MS: u64 = 200;

/// What follows a look at a cancelled clone's target.
pub enum CancelWait {
    /// The target is gone.
    Gone,
    /// Look again after this many milliseconds.
    PollAfterMs(u64),
    /// The target is still there and no looks are left.
    StillThere,
}

/// Decides what follows a look at a cancelled clone's target, after `polls`
/// pauses (0 for the look right after the cleanup).
pub fn cancel_wait_step(polls: u32, exists: bool) -> (r: CancelWait)
    requires
        polls <= CANCEL_POLLS,
    ensures
        !exists ==> r is Gone,
        exists && polls < CANCEL_POLLS ==> (r matches CancelWait::PollAfterMs(ms) && ms == CANCEL_POLL_MS),
        exists && polls == CANCEL_POLLS ==> r is StillThere,
{
    if !exists {
        CancelWait::Gone
    } else if polls < CANCEL_POLLS {
        CancelWait::PollAfterMs(CANCEL_POLL_MS)
    } else {
        CancelWait::StillThere
    }
}

/// The report of a cancel request. `target` is the target of the session that
/// was found and stopped (`None` when no session had that id); `still_exists`
/// says whether the target directory was still on disk after cleanup.
pub fn cancel_clone_result(session_id: String, target: Option<String>, still_exists: bool) -> (r: CancelCloneResult)
    ensures
        r.session_id@ == session_id@,
        r.killed == target is Some,
        match target {
            Some(t) => r.target@ == t@ && r.still_exists == still_exists,
            None => r.target@.len() == 0 && !r.still_exists,
        },
        r.removed == (r.target@.len() > 0 && !r.still_exists),
        r.target@.len() == 0 ==> (r.error matches Some(e) && e@ == "clone session not found"@),
        r.target@.len() > 0 ==> r.error is None,
{
    let killed = target.is_some();
    let (target_str, still) = match target {
        Some(t) => (t, still_exists),
        None => (String::new(), false),
    };
    let empty = target_str.as_str().unicode_len() == 0;
    let removed = !empty && !still;
    let error = if empty {
        Some(String::from_str("clone session not found"))
    } else {
        None
    };
    proof {
        reveal_strlit("clone session not found");
    }
    CancelCloneResult { session_id, target: target_str, killed, removed, still_exists: still, error }
}

/// How the background `git clone` ended.
pub enum CloneExit {
    /// Exited successfully.
    Success,
    /// Exited unsuccessfully; the exit status as text.
    Failure(String),
    /// Waiting for the process failed; the error as text.
    WaitError(String),
}

/// What to do once a clone has ended: the `clone-done` event's `ok` and
/// `error`, whether to delete the target directory, and whether to register
/// the new repository.
pub struct CloneDone {
    pub ok: bool,
    pub error: Option<String>,
    pub remove_target: bool,
    pub register: bool,
}

/// Decides the end of a clone. A successful clone is registered unless it was
/// cancelled meanwhile, in which case its directory is deleted; a failed clone
/// reports why and is deleted if its session was still registered.
pub fn clone_done(exit: CloneExit, was_cancelled: bool, session_was_present: bool) -> (r: CloneDone)
    ensures
        match exit {
            CloneExit::Success => if was_cancelled {
                !r.ok && (r.error matches Some(e) && e@ == "cancelled"@) && r.remove_target
                    && !r.register
            } else {
                r.ok && r.error is None && !r.remove_target && r.register
            },
            CloneExit::Failure(status) => !r.ok && (r.error matches Some(e) && e@
                == "git clone exited with "@ + status@) && r.remove_target == session_was_present
                && !r.register,
            CloneExit::WaitError(msg) => !r.ok && (r.error matches Some(e) && e@ == msg@)
                && r.remove_target == session_was_present && !r.register,
        },
{
    proof {
        reveal_strlit("cancelled");
        reveal_strlit("git clone exited with ");
    }
    match exit {
        CloneExit::Success => {
            if was_cancelled {
                CloneDone {
                    ok: false,
                    error: Some(String::from_str("cancelled")),
                    remove_target: true,
                    register: false,
                }
            } else {
                CloneDone { ok: true, error: None, remove_target: false, register: true }
            }
        },
        CloneExit::Failure(status) => CloneDone {
            ok: false,
            error: Some(concat_str("git clone exited with ", status.as_str())),
            remove_target: session_was_present,
            register: false,
        },
        CloneExit::WaitError(msg) => CloneDone {
            ok: false,
            error: Some(msg),
            remove_target: session_was_present,
            register: false,
        },
    }
}


/// A line as `ProgressLines` hands it out: not empty, and without `\r` or `\n`.
pub open spec fn clean_line(l: Seq<u8>) -> bool {
    l.len() > 0 && forall|i: int| 0 <= i < l.len() ==> !is_line_break(#[trigger] l[i])
}

pub open spec fn no_breaks(l: Seq<u8>) -> bool {
    forall|i: int| 0 <= i < l.len() ==> !is_line_break(#[trigger] l[i])
}

/// Every line cut from the output is non-empty and holds no line break, and
/// the pending bytes hold none either.
pub proof fn law_progress_lines_are_clean(pending: Seq<u8>, s: Seq<u8>)
    requires
        no_breaks(pending),
    ensures
        forall|k: int|
            0 <= k < run_lines((Seq::empty(), pending), s).0.len() ==> clean_line(
                #[trigger] run_lines((Seq::empty(), pending), s).0[k],
            ),
        no_breaks(run_lines((Seq::empty(), pending), s).1),
    decreases s.len(),
{
    if s.len() > 0 {
        law_progress_lines_are_clean(pending, s.drop_last());
        let st = run_lines((Seq::empty(), pending), s.drop_last());
        let b = s.last();
        let nx = run_lines((Seq::empty(), pending), s);
        assert(nx == step_line(st, b));
        if is_line_break(b) {
            if st.1.len() > 0 {
                assert forall|k: int| 0 <= k < nx.0.len() implies clean_line(#[trigger] nx.0[k]) by {
                    if k < st.0.len() {
                        assert(nx.0[k] == st.0[k]);
                    } else {
                        assert(nx.0[k] == st.1);
                    }
                }
                assert(nx.1.len() == 0);
            }
        } else {
            assert(nx.1 == st.1.push(b));
            assert forall|i: int| 0 <= i < nx.1.len() implies !is_line_break(#[trigger] nx.1[i]) by {
                if i < st.1.len() {
                    assert(nx.1[i] == st.1[i]);
                }
            }
        }
    }
}

} // verus!
