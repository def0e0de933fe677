//! Per-repository metadata kept in `.deskvio/project.json`, and the resolution of
//! a worktree-relative file path that must stay inside the repository.

use vstd::prelude::*;
use crate::paths::{
    dotdot_s, is_abs_s, join, join_s, join_str, lemma_split_concat, lemma_split_no_slash,
    lemma_split_nonempty, path_starts_with, path_starts_with_s, split_s, split_slash,
};
use crate::db::{decodes_row, opt_view, Database, DbRequest, RepoRow};
use crate::releases::deskvio_dir_s;
use crate::sys::{canonicalize, path_is_file};
use crate::text::{
    chars_eq, chars_to_string, concat_str, replace_char_chars, replace_char_s, str_chars,
    trim_chars, trim_s, views,
};

verus! {

/// The contents of `.deskvio/project.json`.
#[derive(Debug, Clone)]
pub struct RepoProjectFile {
    pub version: u32,
    pub intro: Option<String>,
    pub tags: Vec<String>,
}

/// The format version written into new project files, and assumed when a
/// file does not say.
pub fn default_version() -> (r: u32)
    ensures
        r == 1,
{
    1
}

/// `project.json`
pub open spec fn project_json_s() -> Seq<char> {
    seq!['p', 'r', 'o', 'j', 'e', 'c', 't', '.', 'j', 's', 'o', 'n']
}

/// `<repo_root>/.deskvio/project.json`
pub open spec fn project_json_path_s(root: Seq<char>) -> Seq<char> {
    join_s(join_s(root, deskvio_dir_s()), project_json_s())
}

/// Where a repository's project metadata is stored.
pub fn project_json_path(repo_root: &str) -> (r: String)
    ensures
        r@ == project_json_path_s(repo_root@),
{
    let root = str_chars(repo_root);
    let d: Vec<char> = vec!['.', 'd', 'e', 's', 'k', 'v', 'i', 'o'];
    let f: Vec<char> = vec!['p', 'r', 'o', 'j', 'e', 'c', 't', '.', 'j', 's', 'o', 'n'];
    assert(d@ =~= deskvio_dir_s());
    assert(f@ =~= project_json_s());
    chars_to_string(&join(&join(&root, &d), &f))
}

/// The directory that holds `project.json`.
pub fn project_meta_dir(repo_root: &str) -> (r: String)
    ensures
        r@ == join_s(repo_root@, deskvio_dir_s()),
{
    let root = str_chars(repo_root);
    let d: Vec<char> = vec!['.', 'd', 'e', 's', 'k', 'v', 'i', 'o'];
    assert(d@ =~= deskvio_dir_s());
    chars_to_string(&join(&root, &d))
}

/// The temporary file written before it replaces `project.json`
/// (`project_json_path(..).with_extension("json.tmp")`).
pub fn project_json_tmp_path(repo_root: &str) -> (r: String)
    ensures
        r@ == project_json_path_s(repo_root@) + seq!['.', 't', 'm', 'p'],
{
    let mut p = project_json_path(repo_root);
    p.append(".tmp");
    proof {
        reveal_strlit(".tmp");
    }
    assert(p@ =~= project_json_path_s(repo_root@) + seq!['.', 't', 'm', 'p']);
    p
}

/// Copies a list of strings.
pub fn copy_strings(v: &[String]) -> (r: Vec<String>)
    ensures
        r@ == v@,
{
    let mut out: Vec<String> = Vec::new();
    let mut i: usize = 0;
    while i < v.len()
        invariant
            i <= v.len(),
            out@ == v@.take(i as int),
        decreases v.len() - i,
    {
        out.push(v[i].clone());
        i = i + 1;
        assert(out@ =~= v@.take(i as int));
    }
    assert(v@.take(v.len() as int) =~= v@);
    out
}

/// The project file written for an intro and a tag list: the current format
/// version, the intro as given, and the tags in order.
pub fn project_file_for(intro: Option<&str>, tags: &[String]) -> (r: RepoProjectFile)
    ensures
        r.version == 1,
        match intro {
            Some(s) => r.intro matches Some(t) && t@ == s@,
            None => r.intro is None,
        },
        r.tags@ == tags@,
{
    RepoProjectFile {
        version: default_version(),
        intro: match intro {
            Some(s) => Some(String::from_str(s)),
            None => None,
        },
        tags: copy_strings(tags),
    }
}

// ---------------------------------------------------------------------------
// Worktree paths.
// ---------------------------------------------------------------------------

/// A worktree-relative path after trimming and turning backslashes into slashes.
pub open spec fn rel_norm_s(rel: Seq<char>) -> Seq<char> {
    replace_char_s(trim_s(rel), '\\', '/')
}

/// The error, if any, that the checks made before touching the disk give for a
/// worktree-relative path.
pub open spec fn rel_path_error_s(rel: Seq<char>) -> Option<Seq<char>> {
    if trim_s(rel).len() == 0 {
        Some("path is empty"@)
    } else if rel_norm_s(rel)[0] == '/' {
        Some("absolute paths are not allowed"@)
    } else if split_s(rel_norm_s(rel)).contains(dotdot_s()) {
        Some("invalid path segment"@)
    } else {
        None
    }
}

/// `root` with every non-empty segment of `segs` pushed in order.
pub open spec fn push_segments_s(root: Seq<char>, segs: Seq<Seq<char>>) -> Seq<char>
    decreases segs.len(),
{
    if segs.len() == 0 {
        root
    } else {
        let r = push_segments_s(root, segs.drop_last());
        if segs.last().len() > 0 {
            join_s(r, segs.last())
        } else {
            r
        }
    }
}

/// Checks a worktree-relative path without touching the disk. On success,
/// returns its segments (split at `/` after normalization).
pub fn check_worktree_rel(rel: &str) -> (r: Result<Vec<Vec<char>>, String>)
    ensures
        match rel_path_error_s(rel@) {
            Some(e) => r matches Err(m) && m@ == e,
            None => r matches Ok(segs) && views(segs@) == split_s(rel_norm_s(rel@)),
        },
{
    let t = trim_chars(&str_chars(rel));
    if t.len() == 0 {
        proof {
            reveal_strlit("path is empty");
        }
        return Err(String::from_str("path is empty"));
    }
    let n = replace_char_chars(&t, '\\', '/');
    if n[0] == '/' {
        proof {
            reveal_strlit("absolute paths are not allowed");
        }
        return Err(String::from_str("absolute paths are not allowed"));
    }
    let segs = split_slash(&n);
    let dotdot: Vec<char> = vec!['.', '.'];
    assert(dotdot@ =~= dotdot_s());
    let mut i: usize = 0;
    while i < segs.len()
        invariant
            i <= segs.len(),
            dotdot@ == dotdot_s(),
            views(segs@) == split_s(n@),
            n@ == rel_norm_s(rel@),
            trim_s(rel@).len() > 0,
            n@[0] != '/',
            forall|k: int| 0 <= k < i ==> views(segs@)[k] != dotdot_s(),
        decreases segs.len() - i,
    {
        if chars_eq(&segs[i], &dotdot) {
            assert(views(segs@)[i as int] == dotdot_s());
            assert(split_s(n@).contains(dotdot_s()));
            proof {
                reveal_strlit("invalid path segment");
            }
            return Err(String::from_str("invalid path segment"));
        }
        i = i + 1;
    }
    assert(!split_s(n@).contains(dotdot_s()));
    Ok(segs)
}

/// Pushes every non-empty segment onto `root`.
pub fn push_segments(root: &str, segs: &Vec<Vec<char>>) -> (r: String)
    ensures
        r@ == push_segments_s(root@, views(segs@)),
{
    let mut acc = str_chars(root);
    let mut i: usize = 0;
    while i < segs.len()
        invariant
            i <= segs.len(),
            acc@ == push_segments_s(root@, views(segs@).take(i as int)),
        decreases segs.len() - i,
    {
        proof {
            assert(views(segs@).take(i + 1).drop_last() =~= views(segs@).take(i as int));
        }
        if segs[i].len() > 0 {
            acc = join(&acc, &segs[i]);
        }
        i = i + 1;
    }
    assert(views(segs@).take(segs.len() as int) =~= views(segs@));
    chars_to_string(&acc)
}

/// The non-empty segments of `segs`, in order.
pub open spec fn nonempty_segs(segs: Seq<Seq<char>>) -> Seq<Seq<char>>
    decreases segs.len(),
{
    if segs.len() == 0 {
        Seq::empty()
    } else {
        let r = nonempty_segs(segs.drop_last());
        if segs.last().len() > 0 {
            r.push(segs.last())
        } else {
            r
        }
    }
}

/// Empty segments add nothing to a pushed path.
pub proof fn lemma_push_only_nonempty(root: Seq<char>, segs: Seq<Seq<char>>)
    ensures
        push_segments_s(root, segs) == push_segments_s(root, nonempty_segs(segs)),
    decreases segs.len(),
{
    if segs.len() > 0 {
        lemma_push_only_nonempty(root, segs.drop_last());
        if segs.last().len() > 0 {
            let n = nonempty_segs(segs);
            assert(n.drop_last() =~= nonempty_segs(segs.drop_last()));
        }
    }
}

/// Two worktree-relative paths that pass the checks and have the same
/// non-empty segments lead to the same path under any root: how many slashes
/// separate the segments, and whether one ends the path, makes no difference.
pub proof fn law_same_segments_same_path(root: Seq<char>, rel: Seq<char>, rel2: Seq<char>)
    requires
        rel_path_error_s(rel) is None,
        rel_path_error_s(rel2) is None,
        nonempty_segs(split_s(rel_norm_s(rel))) == nonempty_segs(split_s(rel_norm_s(rel2))),
    ensures
        push_segments_s(root, split_s(rel_norm_s(rel))) == push_segments_s(
            root,
            split_s(rel_norm_s(rel2)),
        ),
{
    lemma_push_only_nonempty(root, split_s(rel_norm_s(rel)));
    lemma_push_only_nonempty(root, split_s(rel_norm_s(rel2)));
}

/// Every segment of `split_s(s)` is free of `/`, and of any character that
/// `s` does not hold.
pub proof fn lemma_split_segment_chars(s: Seq<char>, c: char)
    ensures
        forall|k: int, j: int|
            0 <= k < split_s(s).len() && 0 <= j < split_s(s)[k].len() ==> #[trigger] split_s(
                s,
            )[k][j] != '/',
        (forall|i: int| 0 <= i < s.len() ==> s[i] != c) ==> forall|k: int, j: int|
            0 <= k < split_s(s).len() && 0 <= j < split_s(s)[k].len() ==> #[trigger] split_s(
                s,
            )[k][j] != c,
    decreases s.len(),
{
    if s.len() > 0 {
        let d = s.drop_last();
        lemma_split_segment_chars(d, c);
        lemma_split_nonempty(d);
        let r = split_s(d);
        assert forall|k: int, j: int|
            0 <= k < split_s(s).len() && 0 <= j < split_s(s)[k].len() implies #[trigger] split_s(
                s,
            )[k][j] != '/' && ((forall|i: int| 0 <= i < s.len() ==> s[i] != c) ==> split_s(
                s,
            )[k][j] != c) by {
            if s.last() != '/' && k == r.len() - 1 {
                if j < r.last().len() {
                    assert(split_s(s)[k][j] == r[k][j]);
                } else {
                    assert(split_s(s)[k][j] == s[s.len() - 1]);
                }
            } else if k < r.len() {
                assert(split_s(s)[k][j] == r[k][j]);
            }
        }
    }
}

/// A text that starts with something other than `/` has a non-empty first
/// segment.
pub proof fn lemma_split_first_nonempty(s: Seq<char>)
    requires
        s.len() > 0,
        s[0] != '/',
    ensures
        split_s(s).len() >= 1,
        split_s(s)[0].len() > 0,
    decreases s.len(),
{
    lemma_split_nonempty(s);
    let d = s.drop_last();
    if s.len() > 1 {
        lemma_split_first_nonempty(d);
        let r = split_s(d);
        if s.last() != '/' && r.len() == 1 {
            assert(split_s(s)[0] == r[0].push(s.last()));
        } else {
            assert(split_s(s)[0] == r[0]);
        }
    } else {
        assert(d =~= Seq::<char>::empty());
        assert(s.last() == s[0]);
        assert(split_s(s)[0] == split_s(d)[0].push(s[0]));
    }
}

/// The non-empty segments are segments of `segs`, and the first one is the
/// first of `segs` when that is not empty.
pub proof fn lemma_nonempty_segs_facts(segs: Seq<Seq<char>>)
    ensures
        forall|k: int|
            0 <= k < nonempty_segs(segs).len() ==> (#[trigger] nonempty_segs(segs)[k]).len() > 0
                && segs.contains(nonempty_segs(segs)[k]),
        segs.len() > 0 && segs[0].len() > 0 ==> nonempty_segs(segs).len() > 0 && nonempty_segs(
            segs,
        )[0] == segs[0],
    decreases segs.len(),
{
    if segs.len() > 0 {
        let d = segs.drop_last();
        lemma_nonempty_segs_facts(d);
        assert forall|k: int| 0 <= k < nonempty_segs(segs).len() implies (
        #[trigger] nonempty_segs(segs)[k]).len() > 0 && segs.contains(nonempty_segs(segs)[k]) by {
            if k < nonempty_segs(d).len() {
                let m = choose|m: int| 0 <= m < d.len() && d[m] == nonempty_segs(d)[k];
                assert(segs[m] == nonempty_segs(segs)[k]);
            } else {
                assert(segs[segs.len() - 1] == nonempty_segs(segs)[k]);
            }
        }
        if segs.len() == 1 {
            assert(d =~= Seq::<Seq<char>>::empty());
        }
    }
}

/// Segments joined with single slashes.
pub open spec fn join_slash_s(segs: Seq<Seq<char>>) -> Seq<char>
    decreases segs.len(),
{
    if segs.len() == 0 {
        Seq::empty()
    } else if segs.len() == 1 {
        segs[0]
    } else {
        join_slash_s(segs.drop_last()) + seq!['/'] + segs.last()
    }
}

/// Splitting segments joined with slashes gives them back.
pub proof fn lemma_split_join_slash(segs: Seq<Seq<char>>)
    requires
        segs.len() >= 1,
        forall|k: int, j: int|
            0 <= k < segs.len() && 0 <= j < segs[k].len() ==> #[trigger] segs[k][j] != '/',
    ensures
        split_s(join_slash_s(segs)) == segs,
    decreases segs.len(),
{
    if segs.len() == 1 {
        lemma_split_no_slash(segs[0]);
        assert(split_s(join_slash_s(segs)) =~= segs);
    } else {
        let d = segs.drop_last();
        assert forall|k: int, j: int|
            0 <= k < d.len() && 0 <= j < d[k].len() implies #[trigger] d[k][j] != '/' by {
            assert(d[k][j] == segs[k][j]);
        }
        lemma_split_join_slash(d);
        let l = segs.last();
        assert forall|i: int| 0 <= i < l.len() implies l[i] != '/' by {
            assert(l[i] == segs[segs.len() - 1][i]);
        }
        lemma_split_no_slash(l);
        lemma_split_concat(join_slash_s(d), l);
        assert(split_s(join_slash_s(segs)) =~= segs);
    }
}

/// Joining adds no character but `/`; the first character is that of the
/// first segment.
pub proof fn lemma_join_slash_chars(segs: Seq<Seq<char>>, c: char)
    requires
        c != '/',
        forall|k: int, j: int|
            0 <= k < segs.len() && 0 <= j < segs[k].len() ==> #[trigger] segs[k][j] != c,
    ensures
        forall|i: int| 0 <= i < join_slash_s(segs).len() ==> #[trigger] join_slash_s(segs)[i] != c,
        segs.len() >= 1 && segs[0].len() > 0 ==> join_slash_s(segs).len() > 0 && join_slash_s(
            segs,
        )[0] == segs[0][0],
    decreases segs.len(),
{
    if segs.len() == 1 {
        assert forall|i: int| 0 <= i < join_slash_s(segs).len() implies #[trigger] join_slash_s(
            segs,
        )[i] != c by {
            assert(join_slash_s(segs)[i] == segs[0][i]);
        }
    } else if segs.len() > 1 {
        let d = segs.drop_last();
        assert forall|k: int, j: int|
            0 <= k < d.len() && 0 <= j < d[k].len() implies #[trigger] d[k][j] != c by {
            assert(d[k][j] == segs[k][j]);
        }
        lemma_join_slash_chars(d, c);
        let a = join_slash_s(d);
        let l = segs.last();
        assert forall|i: int| 0 <= i < join_slash_s(segs).len() implies #[trigger] join_slash_s(
            segs,
        )[i] != c by {
            if i < a.len() {
                assert(join_slash_s(segs)[i] == a[i]);
            } else if i > a.len() {
                assert(join_slash_s(segs)[i] == l[i - a.len() - 1]);
                assert(l[i - a.len() - 1] == segs[segs.len() - 1][i - a.len() - 1]);
            }
        }
        if segs[0].len() > 0 {
            assert(d[0] == segs[0]);
            assert(join_slash_s(segs)[0] == a[0]);
        }
    }
}

/// The normal form of a worktree-relative path (its non-empty segments
/// joined with single slashes) passes the same checks and leads to the same
/// path under any root, provided it has no whitespace at its end: the checks
/// trim the path first, so a last segment that ends in whitespace, as in
/// `"a /"`, becomes another segment once it stands last.
pub proof fn law_normal_form_same_path(root: Seq<char>, rel: Seq<char>)
    requires
        rel_path_error_s(rel) is None,
        trim_s(join_slash_s(nonempty_segs(split_s(rel_norm_s(rel))))) == join_slash_s(
            nonempty_segs(split_s(rel_norm_s(rel))),
        ),
    ensures
        rel_path_error_s(join_slash_s(nonempty_segs(split_s(rel_norm_s(rel))))) is None,
        push_segments_s(
            root,
            split_s(rel_norm_s(join_slash_s(nonempty_segs(split_s(rel_norm_s(rel)))))),
        ) == push_segments_s(root, split_s(rel_norm_s(rel))),
{
    let n = rel_norm_s(rel);
    let ss = split_s(n);
    let xs = nonempty_segs(ss);
    let rel2 = join_slash_s(xs);
    assert(n.len() == trim_s(rel).len());
    assert forall|i: int| 0 <= i < n.len() implies n[i] != '\\' by {
        assert(n[i] == (if trim_s(rel)[i] == '\\' { '/' } else { trim_s(rel)[i] }));
    }
    lemma_split_first_nonempty(n);
    lemma_split_segment_chars(n, '\\');
    lemma_nonempty_segs_facts(ss);
    assert forall|k: int, j: int|
        0 <= k < xs.len() && 0 <= j < xs[k].len() implies #[trigger] xs[k][j] != '/' && xs[k][j]
        != '\\' by {
        let m = choose|m: int| 0 <= m < ss.len() && ss[m] == xs[k];
        assert(xs[k][j] == ss[m][j]);
    }
    lemma_join_slash_chars(xs, '\\');
    lemma_split_join_slash(xs);
    assert(rel_norm_s(rel2) =~= rel2);
    assert(!xs.contains(dotdot_s())) by {
        if xs.contains(dotdot_s()) {
            let k = choose|k: int| 0 <= k < xs.len() && xs[k] == dotdot_s();
            assert(ss.contains(xs[k]));
        }
    }
    assert(rel2[0] == xs[0][0]);
    assert(xs[0][0] != '/');
    lemma_push_only_nonempty(root, ss);
    assert(nonempty_segs(xs) =~= xs) by {
        lemma_nonempty_of_nonempty(xs);
    }
}

/// Keeping the non-empty segments of segments that are all non-empty keeps
/// them all.
pub proof fn lemma_nonempty_of_nonempty(segs: Seq<Seq<char>>)
    requires
        forall|k: int| 0 <= k < segs.len() ==> (#[trigger] segs[k]).len() > 0,
    ensures
        nonempty_segs(segs) == segs,
    decreases segs.len(),
{
    if segs.len() > 0 {
        let d = segs.drop_last();
        assert forall|k: int| 0 <= k < d.len() implies (#[trigger] d[k]).len() > 0 by {
            assert(d[k] == segs[k]);
        }
        lemma_nonempty_of_nonempty(d);
        assert(segs.last() == segs[segs.len() - 1]);
        assert(nonempty_segs(segs) =~= segs);
    }
}

/// A `Result` of strings by its views.
pub open spec fn result_view(r: Result<String, String>) -> Result<Seq<char>, Seq<char>> {
    match r {
        Ok(s) => Ok(s@),
        Err(e) => Err(e@),
    }
}

/// What `accept_worktree_file` gives: the canonical path, when it stays under
/// `root` and is a regular file; otherwise the error that says why.
pub open spec fn accept_s(root: Seq<char>, canon: Result<Seq<char>, Seq<char>>, is_file: bool) -> Result<
    Seq<char>,
    Seq<char>,
> {
    match canon {
        Err(e) => Err("resolved path does not exist: "@ + e),
        Ok(c) => if !path_starts_with_s(c, root) {
            Err("path escapes repository root"@)
        } else if !is_file {
            Err("not a regular file"@)
        } else {
            Ok(c)
        },
    }
}

/// The last checks of a worktree file once the disk has answered: the
/// canonical form of the joined path (or the error that canonicalizing it
/// gave), and whether a regular file is there. The path must stay under the
/// canonical repository root.
pub fn accept_worktree_file(root: &str, canon: Result<String, String>, is_file: bool) -> (r: Result<String, String>)
    ensures
        result_view(r) == accept_s(root@, result_view(canon), is_file),
        match canon {
            Err(e) => r matches Err(m) && m@ == "resolved path does not exist: "@ + e@,
            Ok(c) => if !path_starts_with_s(c@, root@) {
                r matches Err(m) && m@ == "path escapes repository root"@
            } else if !is_file {
                r matches Err(m) && m@ == "not a regular file"@
            } else {
                r matches Ok(p) && p@ == c@
            },
        },
{
    match canon {
        Err(e) => {
            proof {
                reveal_strlit("resolved path does not exist: ");
            }
            Err(concat_str("resolved path does not exist: ", e.as_str()))
        },
        Ok(c) => {
            if !path_starts_with(&str_chars(c.as_str()), &str_chars(root)) {
                proof {
                    reveal_strlit("path escapes repository root");
                }
                return Err(String::from_str("path escapes repository root"));
            }
            if !is_file {
                proof {
                    reveal_strlit("not a regular file");
                }
                return Err(String::from_str("not a regular file"));
            }
            Ok(c)
        },
    }
}

/// The error when the repository root itself cannot be canonicalized.
pub open spec fn root_error_s(e: Seq<char>) -> Seq<char> {
    "repository path: "@ + e
}

/// Resolves a path relative to a repository's worktree to the canonical path
/// of an existing regular file inside it. The path must not be empty, absolute
/// or contain `..`; these checks come first and their errors are exact. After
/// them the disk decides: the repository root and the joined path are
/// canonicalized, and the result is accepted only when it stays under the
/// canonical root (component-wise) and is a regular file.
pub fn resolve_worktree_file_path(repo_path: &str, rel: &str) -> (r: Result<String, String>)
    ensures
        rel_path_error_s(rel@) matches Some(e) ==> (r matches Err(m) && m@ == e),
        rel_path_error_s(rel@) is None ==> (r matches Err(m) && exists|e: Seq<char>|
            m@ == #[trigger] root_error_s(e)) || exists|
            root: Seq<char>,
            canon: Result<Seq<char>, Seq<char>>,
            is_file: bool,
        | result_view(r) == #[trigger] accept_s(root, canon, is_file),
{
    let segs = match check_worktree_rel(rel) {
        Err(e) => {
            return Err(e);
        },
        Ok(s) => s,
    };
    let root = match canonicalize(repo_path) {
        Err(e) => {
            let m = concat_str("repository path: ", e.as_str());
            proof {
                reveal_strlit("repository path: ");
                assert(m@ == root_error_s(e@));
            }
            return Err(m);
        },
        Ok(r) => r,
    };
    let joined = push_segments(root.as_str(), &segs);
    let canon = canonicalize(joined.as_str());
    let is_file = match &canon {
        Ok(c) => path_is_file(c.as_str()),
        Err(_) => false,
    };
    let ghost cv = result_view(canon);
    let r = accept_worktree_file(root.as_str(), canon, is_file);
    assert(result_view(r) == accept_s(root@, cv, is_file));
    r
}


// ---------------------------------------------------------------------------
// Between the project file and the hub database.
// ---------------------------------------------------------------------------

/// `path` and `file` are what a stored row reads as: its path, its intro and
/// its tags (decoded as a record's are, see `decodes_row`).
pub open spec fn project_file_of_row(path: String, file: RepoProjectFile, row: RepoRow) -> bool {
    &&& path@ == row.path@
    &&& crate::db::opt_view(file.intro) == crate::db::opt_view(row.project_intro)
    &&& crate::releases::str_views(file.tags@) == crate::db::tags_of_json(row.tags_json@)
}

/// The writes that copy a project file into the record with this id: its
/// intro, then its tags.
pub open spec fn merge_requests_s(id: i64, file: RepoProjectFile) -> Seq<DbRequest> {
    seq![
        DbRequest::SetIntro(id, opt_view(file.intro)),
        DbRequest::SetTags(id, crate::db::stored_tags_s(crate::releases::str_views(file.tags@))),
    ]
}

/// Copies a project file read from a repository into its record: the intro,
/// then the tags (`merge_requests_s`). Returns whether there was a file; with
/// none, nothing is asked of the database. The first database error stops it.
pub fn merge_project_file_into_db(db: &mut Database, id: i64, file: Option<RepoProjectFile>) -> (r: Result<bool, rusqlite::Error>)
    ensures
        file is None ==> (r matches Ok(b) && !b) && final(db).requests() == old(db).requests(),
        r matches Ok(b) ==> (b <==> file is Some),
        file matches Some(f) ==> (exists|k: int|
            0 <= k <= 2 && final(db).requests() == old(db).requests() + #[trigger] merge_requests_s(
                id,
                f,
            ).take(k)) && (r is Ok ==> final(db).requests() == old(db).requests()
            + merge_requests_s(id, f)),
{
    let f = match file {
        None => {
            return Ok(false);
        },
        Some(f) => f,
    };
    let ghost start = db.requests();
    let ghost reqs = merge_requests_s(id, f);
    let intro_ok = db.set_project_intro(id, f.intro);
    assert(db.requests() =~= start + reqs.take(1));
    match intro_ok {
        Ok(()) => {},
        Err(e) => {
            return Err(e);
        },
    }
    let tags_ok = db.set_tags(id, f.tags.as_slice());
    assert(db.requests() =~= start + reqs.take(2));
    assert(reqs.take(2) =~= reqs);
    match tags_ok {
        Ok(()) => Ok(true),
        Err(e) => Err(e),
    }
}

/// The project file to write for a repository from its database record, with
/// the repository path it belongs in: the current format version, the record's
/// intro and its tags. A missing record is the error `repository not found`; a
/// database error is returned as its text.
pub fn project_file_from_db(db: &Database, id: i64) -> (r: Result<(String, RepoProjectFile), String>)
    ensures
        r matches Ok((p, f)) ==> f.version == 1 && exists|row: RepoRow|
            #[trigger] project_file_of_row(p, f, row),
{
    let rec = match db.get(id) {
        Err(e) => {
            return Err(crate::db::error_text(&e));
        },
        Ok(None) => {
            return Err(String::from_str("repository not found"));
        },
        Ok(Some(r)) => r,
    };
    let intro = match &rec.project_intro {
        Some(s) => Some(s.as_str()),
        None => None,
    };
    let file = project_file_for(intro, rec.tags.as_slice());
    let ghost g = rec;
    let out = (rec.path, file);
    proof {
        let row = choose|row: RepoRow| #[trigger] decodes_row(g, row);
        assert(crate::releases::str_views(out.1.tags@) == crate::releases::str_views(g.tags@));
        assert(project_file_of_row(out.0, out.1, row));
    }
    Ok(out)
}

} // verus!
