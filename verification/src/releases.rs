//! Repository releases: release entries with their stored assets, kept under
//! `.deskvio/releases/` in a repository. This module holds the rules that decide
//! what is written there: identifiers made safe for file names, stored-asset
//! paths confined to `assets/`, release versions unique regardless of case, the
//! order of saved entries, and which asset files a save leaves behind.

use vstd::prelude::*;
use vstd::hash_set::StringHashSet;
use crate::paths::{
    comps_s, dotdot_s, dot_s, is_abs_s, is_kept, join, join_s, join_str, keep_segs, components,
    leading_curdir, lemma_comps_join, lemma_join_last, lemma_keep_concat, lemma_split_concat,
    lemma_split_no_slash, lemma_views_push, path_starts_with_s, split_s,
};
use crate::sys::{is_lower_hex, new_uuid_simple, path_exists};
use crate::text::{
    chars_eq, chars_to_string, concat_str, copy_chars, lower_chars, lower_s, replace_char_chars,
    replace_char_s, starts_with_chars, starts_with_s, str_chars, trim_char_chars, trim_char_s,
    trim, trim_chars, trim_s, list_contains, views, dec_s, push_dec, string_push, lead_eq,
    trail_eq, lemma_lead_eq_bound, lemma_trail_eq_bound, lemma_trim_char_ends,
    lemma_trim_char_noop, lemma_trim_idempotent,
};

verus! {

/// A file attached to a release, stored under the releases directory.
#[derive(Debug, Clone)]
pub struct ReleaseAsset {
    pub id: String,
    pub name: String,
    pub stored_path: String,
    pub original_path: String,
    pub size_bytes: u64,
    pub added_at: i64,
}

/// One release of a repository.
#[derive(Debug, Clone)]
pub struct ReleaseEntry {
    pub id: String,
    pub version: String,
    pub title: String,
    pub notes: String,
    pub source_url: String,
    pub assets: Vec<ReleaseAsset>,
    pub created_at: i64,
    pub updated_at: i64,
}

// ---------------------------------------------------------------------------
// Safe segments.
// ---------------------------------------------------------------------------

/// Characters kept as they are by `sanitize_segment`.
pub open spec fn is_segment_char(c: char) -> bool {
    ||| ('0' <= c && c <= '9')
    ||| ('a' <= c && c <= 'z')
    ||| ('A' <= c && c <= 'Z')
    ||| c == '-'
    ||| c == '_'
    ||| c == '.'
}

pub open spec fn item_s() -> Seq<char> {
    seq!['i', 't', 'e', 'm']
}

/// `sanitize_segment`: every character outside `[A-Za-z0-9._-]` becomes `_`,
/// underscores are stripped from both ends, and an empty result becomes `item`.
pub open spec fn sanitize_s(s: Seq<char>) -> Seq<char> {
    let mapped = s.map_values(|c: char| if is_segment_char(c) { c } else { '_' });
    let t = trim_char_s(mapped, '_');
    if t.len() == 0 {
        item_s()
    } else {
        t
    }
}

/// Makes `input` usable as one path segment (see `sanitize_s`).
pub fn sanitize_segment(input: &str) -> (r: String)
    ensures
        r@ == sanitize_s(input@),
{
    let v = str_chars(input);
    let mut mapped: Vec<char> = Vec::new();
    let mut i: usize = 0;
    while i < v.len()
        invariant
            i <= v.len(),
            mapped@ == v@.take(i as int).map_values(
                |c: char| if is_segment_char(c) { c } else { '_' },
            ),
        decreases v.len() - i,
    {
        let c = v[i];
        let keep = ('0' <= c && c <= '9') || ('a' <= c && c <= 'z') || ('A' <= c && c <= 'Z')
            || c == '-' || c == '_' || c == '.';
        mapped.push(if keep { c } else { '_' });
        i = i + 1;
        assert(mapped@ =~= v@.take(i as int).map_values(
            |c: char| if is_segment_char(c) { c } else { '_' },
        ));
    }
    assert(v@.take(v.len() as int) =~= v@);
    let t = trim_char_chars(&mapped, '_');
    if t.len() == 0 {
        let r = String::from_str("item");
        proof {
            reveal_strlit("item");
            assert(r@ =~= item_s());
        }
        r
    } else {
        chars_to_string(&t)
    }
}

pub proof fn lemma_sanitize_nonempty(s: Seq<char>)
    ensures
        sanitize_s(s).len() > 0,
{
}

// ---------------------------------------------------------------------------
// Stored asset paths.
// ---------------------------------------------------------------------------

/// `normalize_stored_path`: backslashes become slashes.
pub open spec fn normalize_s(p: Seq<char>) -> Seq<char> {
    replace_char_s(p, '\\', '/')
}

pub fn normalize_stored_path(path: &str) -> (r: String)
    ensures
        r@ == normalize_s(path@),
{
    let v = str_chars(path);
    let n = replace_char_chars(&v, '\\', '/');
    chars_to_string(&n)
}

pub open spec fn assets_prefix_s() -> Seq<char> {
    seq!['a', 's', 's', 'e', 't', 's', '/']
}

/// A stored asset path is safe when, with backslashes as slashes, it starts
/// with `assets/`, is relative, and has no `..` component.
pub open spec fn is_safe_stored_s(p: Seq<char>) -> bool {
    let n = normalize_s(p);
    &&& starts_with_s(n, assets_prefix_s())
    &&& !is_abs_s(n)
    &&& !comps_s(n).contains(dotdot_s())
}

pub fn is_safe_asset_stored_path(stored_path: &str) -> (r: bool)
    ensures
        r == is_safe_stored_s(stored_path@),
{
    let v = str_chars(stored_path);
    let n = replace_char_chars(&v, '\\', '/');
    let prefix: Vec<char> = vec!['a', 's', 's', 'e', 't', 's', '/'];
    assert(prefix@ =~= assets_prefix_s());
    if !starts_with_chars(&n, &prefix) {
        return false;
    }
    if n.len() > 0 && n[0] == '/' {
        return false;
    }
    let comps = components(&n);
    let dotdot: Vec<char> = vec!['.', '.'];
    assert(dotdot@ =~= dotdot_s());
    let mut i: usize = 0;
    while i < comps.len()
        invariant
            i <= comps.len(),
            dotdot@ == dotdot_s(),
            views(comps@) == comps_s(n@),
            n@ == normalize_s(stored_path@),
            forall|k: int| 0 <= k < i ==> comps_s(n@)[k] != dotdot_s(),
        decreases comps.len() - i,
    {
        if chars_eq(&comps[i], &dotdot) {
            assert(comps_s(n@)[i as int] == dotdot_s());
            return false;
        }
        i = i + 1;
    }
    assert(!comps_s(n@).contains(dotdot_s()));
    true
}

/// `.deskvio`
pub open spec fn deskvio_dir_s() -> Seq<char> {
    seq!['.', 'd', 'e', 's', 'k', 'v', 'i', 'o']
}

/// `releases`
pub open spec fn releases_dir_s() -> Seq<char> {
    seq!['r', 'e', 'l', 'e', 'a', 's', 'e', 's']
}

/// `releases.json`
pub open spec fn releases_json_s() -> Seq<char> {
    seq!['r', 'e', 'l', 'e', 'a', 's', 'e', 's', '.', 'j', 's', 'o', 'n']
}

/// `<repo_root>/.deskvio/releases`
pub open spec fn meta_dir_s(root: Seq<char>) -> Seq<char> {
    join_s(join_s(root, deskvio_dir_s()), releases_dir_s())
}

/// The directory that holds a repository's release metadata and assets.
pub fn repo_releases_meta_dir(repo_root: &str) -> (r: String)
    ensures
        r@ == meta_dir_s(repo_root@),
{
    let root = str_chars(repo_root);
    let d: Vec<char> = vec!['.', 'd', 'e', 's', 'k', 'v', 'i', 'o'];
    let rel: Vec<char> = vec!['r', 'e', 'l', 'e', 'a', 's', 'e', 's'];
    assert(d@ =~= deskvio_dir_s());
    assert(rel@ =~= releases_dir_s());
    let a = join(&root, &d);
    let b = join(&a, &rel);
    chars_to_string(&b)
}

/// The JSON file that lists a repository's releases.
pub fn repo_releases_json_path(repo_root: &str) -> (r: String)
    ensures
        r@ == join_s(meta_dir_s(repo_root@), releases_json_s()),
{
    let dir = str_chars(&repo_releases_meta_dir(repo_root));
    let f: Vec<char> = vec!['r', 'e', 'l', 'e', 'a', 's', 'e', 's', '.', 'j', 's', 'o', 'n'];
    assert(f@ =~= releases_json_s());
    chars_to_string(&join(&dir, &f))
}

/// Where a stored asset lives on disk: the releases directory joined with the
/// normalized stored path.
pub open spec fn asset_disk_path_s(root: Seq<char>, stored: Seq<char>) -> Seq<char> {
    join_s(meta_dir_s(root), normalize_s(stored))
}

/// Resolves a stored asset path to a path on disk, refusing unsafe ones.
pub fn resolve_asset_disk_path(repo_root: &str, stored_path: &str) -> (r: Result<String, String>)
    ensures
        is_safe_stored_s(stored_path@) ==> (r matches Ok(p) && p@ == asset_disk_path_s(
            repo_root@,
            stored_path@,
        )),
        !is_safe_stored_s(stored_path@) ==> (r matches Err(e) && e@
            == "invalid stored asset path"@),
{
    if !is_safe_asset_stored_path(stored_path) {
        return Err(String::from_str("invalid stored asset path"));
    }
    let dir = str_chars(&repo_releases_meta_dir(repo_root));
    let n = str_chars(&normalize_stored_path(stored_path));
    Ok(chars_to_string(&join(&dir, &n)))
}

// ---------------------------------------------------------------------------
// Unique versions.
// ---------------------------------------------------------------------------

/// The comparison key of a version: trimmed, ASCII lowercase.
pub open spec fn version_key(v: Seq<char>) -> Seq<char> {
    lower_s(trim_s(v))
}

/// Entry `j` repeats, ignoring case and surrounding whitespace, the non-empty
/// version of an earlier entry.
pub open spec fn repeats_earlier(vs: Seq<Seq<char>>, j: int) -> bool {
    &&& 0 <= j < vs.len()
    &&& trim_s(vs[j]).len() > 0
    &&& exists|i: int|
        0 <= i < j && trim_s(vs[i]).len() > 0 && #[trigger] version_key(vs[i]) == version_key(
            vs[j],
        )
}

pub open spec fn versions_of(entries: Seq<ReleaseEntry>) -> Seq<Seq<char>> {
    entries.map_values(|e: ReleaseEntry| e.version@)
}

pub open spec fn duplicate_prefix_s() -> Seq<char> {
    "duplicate release version: "@
}

/// Keys of the entries before `j` whose trimmed version is not empty, in order.
pub open spec fn keys_upto(vs: Seq<Seq<char>>, j: int) -> Seq<Seq<char>>
    decreases j,
{
    if j <= 0 {
        Seq::empty()
    } else {
        let r = keys_upto(vs, j - 1);
        if trim_s(vs[j - 1]).len() > 0 {
            r.push(version_key(vs[j - 1]))
        } else {
            r
        }
    }
}

/// A key is among `keys_upto(vs, j)` exactly when some earlier non-empty
/// version has it.
pub proof fn lemma_keys_upto_contains(vs: Seq<Seq<char>>, j: int, key: Seq<char>)
    requires
        0 <= j <= vs.len(),
    ensures
        keys_upto(vs, j).contains(key) <==> exists|i: int|
            0 <= i < j && trim_s(vs[i]).len() > 0 && #[trigger] version_key(vs[i]) == key,
    decreases j,
{
    if j > 0 {
        lemma_keys_upto_contains(vs, j - 1, key);
        let r = keys_upto(vs, j - 1);
        if keys_upto(vs, j).contains(key) {
            let k = choose|k: int| 0 <= k < keys_upto(vs, j).len() && keys_upto(vs, j)[k] == key;
            if k < r.len() {
                assert(r[k] == key);
                assert(r.contains(key));
            } else {
                assert(version_key(vs[j - 1]) == key);
            }
        }
        if exists|i: int|
            0 <= i < j && trim_s(vs[i]).len() > 0 && #[trigger] version_key(vs[i]) == key {
            let i = choose|i: int|
                0 <= i < j && trim_s(vs[i]).len() > 0 && #[trigger] version_key(vs[i]) == key;
            if i < j - 1 {
                assert(r.contains(key));
                let k = choose|k: int| 0 <= k < r.len() && r[k] == key;
                assert(keys_upto(vs, j)[k] == key);
            } else {
                assert(keys_upto(vs, j).last() == key);
                assert(keys_upto(vs, j)[keys_upto(vs, j).len() - 1] == key);
            }
        }
    }
}

/// Checks that no two releases share a non-empty version, ignoring case and
/// surrounding whitespace. The error names the trimmed version of the first
/// entry that repeats an earlier one.
pub fn assert_unique_release_versions(entries: &[ReleaseEntry]) -> (r: Result<(), String>)
    ensures
        r is Ok <==> (forall|j: int| !repeats_earlier(versions_of(entries@), j)),
        r matches Err(msg) ==> exists|j: int|
            repeats_earlier(versions_of(entries@), j) && (forall|k: int|
                0 <= k < j ==> !repeats_earlier(versions_of(entries@), k)) && msg@
                == duplicate_prefix_s() + trim_s(entries@[j].version@),
{
    let ghost vs = versions_of(entries@);
    let mut seen = StringHashSet::new();
    let mut j: usize = 0;
    while j < entries.len()
        invariant
            j <= entries.len(),
            vs == versions_of(entries@),
            vs.len() == entries@.len(),
            forall|k: int| 0 <= k < j ==> !repeats_earlier(vs, k),
            forall|x: Seq<char>| #[trigger] seen@.contains(x) <==> keys_upto(vs, j as int).contains(x),
        decreases entries.len() - j,
    {
        assert(vs[j as int] == entries@[j as int].version@);
        let ver = trim_chars(&str_chars(entries[j].version.as_str()));
        proof {
            lemma_keys_upto_contains(vs, j as int, version_key(vs[j as int]));
        }
        if ver.len() == 0 {
            assert(!repeats_earlier(vs, j as int));
            assert(keys_upto(vs, j + 1) == keys_upto(vs, j as int));
            j = j + 1;
            continue;
        }
        let key = chars_to_string(&lower_chars(&ver));
        assert(key@ == version_key(vs[j as int]));
        if seen.contains(key.as_str()) {
            proof {
                assert(repeats_earlier(vs, j as int));
                reveal_strlit("duplicate release version: ");
            }
            let msg = concat_str("duplicate release version: ", chars_to_string(&ver).as_str());
            return Err(msg);
        }
        assert(!repeats_earlier(vs, j as int));
        let ghost old_keys = keys_upto(vs, j as int);
        let ghost kv = key@;
        seen.insert(key);
        proof {
            assert(keys_upto(vs, j + 1) == old_keys.push(kv));
            assert forall|x: Seq<char>| #[trigger] seen@.contains(x) <==> old_keys.push(kv).contains(x) by {
                if old_keys.push(kv).contains(x) {
                    let k = choose|k: int| 0 <= k < old_keys.push(kv).len() && old_keys.push(kv)[k] == x;
                    if k < old_keys.len() {
                        assert(old_keys[k] == x);
                    }
                }
                if old_keys.contains(x) {
                    let k = choose|k: int| 0 <= k < old_keys.len() && old_keys[k] == x;
                    assert(old_keys.push(kv)[k] == x);
                }
                if x == kv {
                    assert(old_keys.push(kv)[old_keys.len() as int] == x);
                }
            }
        }
        j = j + 1;
    }
    proof {
        assert forall|k: int| !repeats_earlier(vs, k) by {
            if 0 <= k < j {
            }
        }
    }
    Ok(())
}


// ---------------------------------------------------------------------------
// Asset files left behind by a save.
// ---------------------------------------------------------------------------

/// `p` is the normalized stored path of some asset of some entry.
pub open spec fn has_stored(entries: Seq<ReleaseEntry>, p: Seq<char>) -> bool {
    exists|i: int, j: int|
        0 <= i < entries.len() && 0 <= j < entries[i].assets@.len() && #[trigger] normalize_s(
            entries[i].assets@[j].stored_path@,
        ) == p
}

/// `p` is the normalized stored path of an asset of an entry before `i`, or of
/// one of the first `j` assets of entry `i`.
pub open spec fn has_stored_before(entries: Seq<ReleaseEntry>, i: int, j: int, p: Seq<char>) -> bool {
    ||| exists|i2: int, j2: int|
        0 <= i2 < i && 0 <= j2 < entries[i2].assets@.len() && #[trigger] normalize_s(
            entries[i2].assets@[j2].stored_path@,
        ) == p
    ||| exists|j2: int|
        0 <= j2 < j && #[trigger] normalize_s(entries[i].assets@[j2].stored_path@) == p
}

/// The normalized stored paths of all assets of `entries`, in order.
pub fn stored_paths(entries: &[ReleaseEntry]) -> (r: Vec<Vec<char>>)
    ensures
        forall|p: Seq<char>| #[trigger] views(r@).contains(p) <==> has_stored(entries@, p),
{
    let mut out: Vec<Vec<char>> = Vec::new();
    let mut i: usize = 0;
    while i < entries.len()
        invariant
            i <= entries.len(),
            forall|p: Seq<char>|
                #[trigger] views(out@).contains(p) <==> has_stored_before(entries@, i as int, 0, p),
        decreases entries.len() - i,
    {
        let assets = &entries[i].assets;
        let mut j: usize = 0;
        while j < assets.len()
            invariant
                i < entries.len(),
                assets@ == entries@[i as int].assets@,
                j <= assets.len(),
                forall|p: Seq<char>|
                    #[trigger] views(out@).contains(p) <==> has_stored_before(
                        entries@,
                        i as int,
                        j as int,
                        p,
                    ),
            decreases assets.len() - j,
        {
            let n = replace_char_chars(&str_chars(assets[j].stored_path.as_str()), '\\', '/');
            let ghost before = out@;
            out.push(n);
            proof {
                lemma_views_push(before, n);
                assert forall|p: Seq<char>|
                    #[trigger] views(out@).contains(p) <==> has_stored_before(
                        entries@,
                        i as int,
                        j + 1,
                        p,
                    ) by {
                    if views(out@).contains(p) {
                        let k = choose|k: int| 0 <= k < views(out@).len() && views(out@)[k] == p;
                        if k < before.len() {
                            assert(views(before)[k] == p);
                            assert(views(before).contains(p));
                        } else {
                            assert(normalize_s(entries@[i as int].assets@[j as int].stored_path@)
                                == p);
                        }
                    }
                    if has_stored_before(entries@, i as int, j + 1, p) {
                        if has_stored_before(entries@, i as int, j as int, p) {
                            assert(views(before).contains(p));
                            let k = choose|k: int|
                                0 <= k < views(before).len() && views(before)[k] == p;
                            assert(views(out@)[k] == p);
                        } else {
                            let j2 = choose|j2: int|
                                0 <= j2 < j + 1 && #[trigger] normalize_s(
                                    entries@[i as int].assets@[j2].stored_path@,
                                ) == p;
                            assert(j2 == j);
                            assert(views(out@)[before.len() as int] == p);
                        }
                    }
                }
            }
            j = j + 1;
        }
        proof {
            assert forall|p: Seq<char>|
                #[trigger] views(out@).contains(p) <==> has_stored_before(
                    entries@,
                    i + 1,
                    0,
                    p,
                ) by {
                if has_stored_before(entries@, i as int, j as int, p) {
                    if exists|j2: int|
                        0 <= j2 < j && #[trigger] normalize_s(
                            entries@[i as int].assets@[j2].stored_path@,
                        ) == p {
                        let j2 = choose|j2: int|
                            0 <= j2 < j && #[trigger] normalize_s(
                                entries@[i as int].assets@[j2].stored_path@,
                            ) == p;
                        assert(has_stored_before(entries@, i + 1, 0, p));
                    }
                }
            }
        }
        i = i + 1;
    }
    proof {
        assert forall|p: Seq<char>|
            #[trigger] views(out@).contains(p) <==> has_stored(entries@, p) by {
            if has_stored(entries@, p) {
                let (i2, j2) = choose|i2: int, j2: int|
                    0 <= i2 < entries@.len() && 0 <= j2 < entries@[i2].assets@.len()
                        && #[trigger] normalize_s(entries@[i2].assets@[j2].stored_path@) == p;
                assert(has_stored_before(entries@, i as int, 0, p));
            }
        }
    }
    out
}

/// Views of a sequence of strings.
pub open spec fn str_views(v: Seq<String>) -> Seq<Seq<char>> {
    v.map_values(|s: String| s@)
}

/// A stored path whose asset file a save must delete: an asset of the previous
/// releases that no release keeps, and that is safe to resolve.
pub open spec fn is_removed(previous: Seq<ReleaseEntry>, next: Seq<ReleaseEntry>, p: Seq<char>) -> bool {
    has_stored(previous, p) && !has_stored(next, p) && is_safe_stored_s(p)
}

/// The normalized stored paths of all assets of the entries, as a set.
pub fn stored_path_set(entries: &[ReleaseEntry]) -> (r: StringHashSet)
    ensures
        forall|p: Seq<char>| #[trigger] r@.contains(p) <==> has_stored(entries@, p),
{
    let list = stored_paths(entries);
    let mut set = StringHashSet::new();
    let mut i: usize = 0;
    while i < list.len()
        invariant
            i <= list.len(),
            forall|p: Seq<char>| #[trigger] set@.contains(p) <==> views(list@).take(i as int).contains(p),
        decreases list.len() - i,
    {
        let ghost before = views(list@).take(i as int);
        set.insert(chars_to_string(&list[i]));
        proof {
            assert(views(list@).take(i + 1) =~= before.push(list@[i as int]@));
            assert forall|p: Seq<char>| #[trigger] set@.contains(p) <==> before.push(list@[i as int]@).contains(p) by {
                let nxt = before.push(list@[i as int]@);
                if nxt.contains(p) {
                    let k = choose|k: int| 0 <= k < nxt.len() && nxt[k] == p;
                    if k < before.len() {
                        assert(before[k] == p);
                    }
                }
                if before.contains(p) {
                    let k = choose|k: int| 0 <= k < before.len() && before[k] == p;
                    assert(nxt[k] == p);
                }
                if p == list@[i as int]@ {
                    assert(nxt[before.len() as int] == p);
                }
            }
        }
        i = i + 1;
    }
    assert(views(list@).take(list.len() as int) =~= views(list@));
    set
}

/// The files to delete after `previous` releases are replaced by `next`: the
/// disk path of every removed asset, each once.
pub fn removed_asset_disk_paths(
    repo_root: &str,
    previous: &[ReleaseEntry],
    next: &[ReleaseEntry],
) -> (r: Vec<String>)
    ensures
        forall|x: Seq<char>|
            #[trigger] str_views(r@).contains(x) <==> exists|p: Seq<char>|
                is_removed(previous@, next@, p) && x == #[trigger] asset_disk_path_s(
                    repo_root@,
                    p,
                ),
        forall|a: int, b: int|
            0 <= a < b < r@.len() ==> r@[a]@ != r@[b]@,
{
    let prev = stored_paths(previous);
    let keep = stored_path_set(next);
    let dir = str_chars(&repo_releases_meta_dir(repo_root));
    let mut found: Vec<Vec<char>> = Vec::new();
    let mut k: usize = 0;
    while k < prev.len()
        invariant
            k <= prev.len(),
            dir@ == meta_dir_s(repo_root@),
            forall|p: Seq<char>| #[trigger] views(prev@).contains(p) <==> has_stored(previous@, p),
            forall|p: Seq<char>| #[trigger] keep@.contains(p) <==> has_stored(next@, p),
            forall|x: Seq<char>|
                #[trigger] views(found@).contains(x) <==> exists|q: int|
                    0 <= q < k && !has_stored(next@, views(prev@)[q]) && is_safe_stored_s(
                        views(prev@)[q],
                    ) && x == asset_disk_path_s(repo_root@, #[trigger] views(prev@)[q]),
            forall|a: int, b: int| 0 <= a < b < found@.len() ==> found@[a]@ != found@[b]@,
        decreases prev.len() - k,
    {
        let p = &prev[k];
        let ghost pv = views(prev@)[k as int];
        assert(p@ == pv);
        let ps = chars_to_string(p);
        let removed = !keep.contains(ps.as_str()) && is_safe_asset_stored_path(ps.as_str());
        if removed {
            let n = replace_char_chars(p, '\\', '/');
            let disk = join(&dir, &n);
            assert(disk@ == asset_disk_path_s(repo_root@, pv));
            if !list_contains(&found, &disk) {
                let ghost before = found@;
                found.push(disk);
                proof {
                    lemma_views_push(before, disk);
                    assert forall|a: int, b: int|
                        0 <= a < b < found@.len() implies found@[a]@ != found@[b]@ by {
                        if b == before.len() {
                            assert(views(before)[a] == found@[a]@);
                        }
                    }
                    assert forall|x: Seq<char>|
                        #[trigger] views(found@).contains(x) <==> exists|q: int|
                            0 <= q < k + 1 && !has_stored(next@, views(prev@)[q])
                                && is_safe_stored_s(views(prev@)[q]) && x == asset_disk_path_s(
                                repo_root@,
                                #[trigger] views(prev@)[q],
                            ) by {
                        if views(found@).contains(x) {
                            let m = choose|m: int|
                                0 <= m < views(found@).len() && views(found@)[m] == x;
                            if m < before.len() {
                                assert(views(before)[m] == x);
                                assert(views(before).contains(x));
                            } else {
                                assert(x == asset_disk_path_s(repo_root@, views(prev@)[k as int]));
                            }
                        }
                        if exists|q: int|
                            0 <= q < k + 1 && !has_stored(next@, views(prev@)[q])
                                && is_safe_stored_s(views(prev@)[q]) && x == asset_disk_path_s(
                                repo_root@,
                                #[trigger] views(prev@)[q],
                            ) {
                            let q = choose|q: int|
                                0 <= q < k + 1 && !has_stored(next@, views(prev@)[q])
                                    && is_safe_stored_s(views(prev@)[q]) && x
                                    == asset_disk_path_s(repo_root@, #[trigger] views(prev@)[q]);
                            if q < k {
                                assert(views(before).contains(x));
                                let m = choose|m: int|
                                    0 <= m < views(before).len() && views(before)[m] == x;
                                assert(views(found@)[m] == x);
                            } else {
                                assert(views(found@)[before.len() as int] == x);
                            }
                        }
                    }
                }
            } else {
                proof {
                    assert forall|x: Seq<char>|
                        #[trigger] views(found@).contains(x) <==> exists|q: int|
                            0 <= q < k + 1 && !has_stored(next@, views(prev@)[q])
                                && is_safe_stored_s(views(prev@)[q]) && x == asset_disk_path_s(
                                repo_root@,
                                #[trigger] views(prev@)[q],
                            ) by {
                        if exists|q: int|
                            0 <= q < k + 1 && !has_stored(next@, views(prev@)[q])
                                && is_safe_stored_s(views(prev@)[q]) && x == asset_disk_path_s(
                                repo_root@,
                                #[trigger] views(prev@)[q],
                            ) {
                            let q = choose|q: int|
                                0 <= q < k + 1 && !has_stored(next@, views(prev@)[q])
                                    && is_safe_stored_s(views(prev@)[q]) && x
                                    == asset_disk_path_s(repo_root@, #[trigger] views(prev@)[q]);
                            if q == k {
                                assert(x == disk@);
                            }
                        }
                    }
                }
            }
        } else {
            proof {
                assert forall|x: Seq<char>|
                    #[trigger] views(found@).contains(x) <==> exists|q: int|
                        0 <= q < k + 1 && !has_stored(next@, views(prev@)[q]) && is_safe_stored_s(
                            views(prev@)[q],
                        ) && x == asset_disk_path_s(repo_root@, #[trigger] views(prev@)[q]) by {
                    if exists|q: int|
                        0 <= q < k + 1 && !has_stored(next@, views(prev@)[q])
                            && is_safe_stored_s(views(prev@)[q]) && x == asset_disk_path_s(
                            repo_root@,
                            #[trigger] views(prev@)[q],
                        ) {
                        let q = choose|q: int|
                            0 <= q < k + 1 && !has_stored(next@, views(prev@)[q])
                                && is_safe_stored_s(views(prev@)[q]) && x == asset_disk_path_s(
                                repo_root@,
                                #[trigger] views(prev@)[q],
                            );
                        if q == k {
                            assert(keep@.contains(pv) || !is_safe_stored_s(pv));
                        }
                    }
                }
            }
        }
        k = k + 1;
    }
    let mut out: Vec<String> = Vec::new();
    let mut m: usize = 0;
    while m < found.len()
        invariant
            m <= found.len(),
            out@.len() == m,
            forall|a: int| 0 <= a < m ==> #[trigger] out@[a]@ == found@[a]@,
        decreases found.len() - m,
    {
        out.push(chars_to_string(&found[m]));
        m = m + 1;
    }
    proof {
        assert(str_views(out@) =~= views(found@));
        assert forall|x: Seq<char>|
            #[trigger] str_views(out@).contains(x) <==> exists|p: Seq<char>|
                is_removed(previous@, next@, p) && x == #[trigger] asset_disk_path_s(
                    repo_root@,
                    p,
                ) by {
            if views(found@).contains(x) {
                let q = choose|q: int|
                    0 <= q < k && !has_stored(next@, views(prev@)[q]) && is_safe_stored_s(
                        views(prev@)[q],
                    ) && x == asset_disk_path_s(repo_root@, #[trigger] views(prev@)[q]);
                assert(views(prev@).contains(views(prev@)[q]));
                assert(is_removed(previous@, next@, views(prev@)[q]));
            }
            if exists|p: Seq<char>|
                is_removed(previous@, next@, p) && x == #[trigger] asset_disk_path_s(
                    repo_root@,
                    p,
                ) {
                let p = choose|p: Seq<char>|
                    is_removed(previous@, next@, p) && x == #[trigger] asset_disk_path_s(
                        repo_root@,
                        p,
                    );
                assert(views(prev@).contains(p));
                let q = choose|q: int| 0 <= q < views(prev@).len() && views(prev@)[q] == p;
                assert(views(found@).contains(x));
            }
        }
    }
    out
}


// ---------------------------------------------------------------------------
// Preparing releases for saving.
// ---------------------------------------------------------------------------

/// `out` is `inp` with its fields normalized as a save does.
pub open spec fn asset_normalized(out: ReleaseAsset, inp: ReleaseAsset) -> bool {
    &&& out.id@ == sanitize_s(inp.id@)
    &&& out.name@ == trim_s(inp.name@)
    &&& out.stored_path@ == normalize_s(inp.stored_path@)
    &&& out.original_path@ == trim_s(inp.original_path@)
    &&& out.size_bytes == inp.size_bytes
    &&& out.added_at == inp.added_at
}

/// `out` is `inp` with its fields, and those of its assets, normalized.
pub open spec fn entry_normalized(out: ReleaseEntry, inp: ReleaseEntry) -> bool {
    &&& out.id@ == sanitize_s(inp.id@)
    &&& out.version@ == trim_s(inp.version@)
    &&& out.title@ == trim_s(inp.title@)
    &&& out.notes@ == trim_s(inp.notes@)
    &&& out.source_url@ == trim_s(inp.source_url@)
    &&& out.assets@.len() == inp.assets@.len()
    &&& forall|k: int|
        0 <= k < out.assets@.len() ==> asset_normalized(#[trigger] out.assets@[k], inp.assets@[k])
    &&& out.created_at == inp.created_at
    &&& out.updated_at == inp.updated_at
}

/// The indices of the entries a save keeps: those whose trimmed version is
/// not empty (a sanitized id is never empty), in order.
pub open spec fn kept_indices(entries: Seq<ReleaseEntry>) -> Seq<int>
    decreases entries.len(),
{
    if entries.len() == 0 {
        Seq::empty()
    } else {
        let r = kept_indices(entries.drop_last());
        if trim_s(entries.last().version@).len() > 0 {
            r.push(entries.len() - 1)
        } else {
            r
        }
    }
}

pub proof fn lemma_kept_indices_range(entries: Seq<ReleaseEntry>)
    ensures
        forall|k: int|
            0 <= k < kept_indices(entries).len() ==> 0 <= #[trigger] kept_indices(entries)[k]
                < entries.len(),
        forall|a: int, b: int|
            0 <= a < b < kept_indices(entries).len() ==> kept_indices(entries)[a]
                < kept_indices(entries)[b],
    decreases entries.len(),
{
    if entries.len() > 0 {
        let d = entries.drop_last();
        lemma_kept_indices_range(d);
        let r = kept_indices(d);
        let c = kept_indices(entries);
        assert forall|k: int| 0 <= k < c.len() implies 0 <= #[trigger] c[k] < entries.len() by {
            if k < r.len() {
                assert(c[k] == r[k]);
            }
        }
        assert forall|a: int, b: int| 0 <= a < b < c.len() implies c[a] < c[b] by {
            assert(c[a] == r[a]);
            if b < r.len() {
                assert(c[b] == r[b]);
            }
        }
    }
}

/// The trimmed versions of the kept entries, in order.
pub open spec fn kept_versions(entries: Seq<ReleaseEntry>) -> Seq<Seq<char>> {
    Seq::new(
        kept_indices(entries).len(),
        |k: int| trim_s(entries[kept_indices(entries)[k]].version@),
    )
}

fn normalize_asset(a: &ReleaseAsset) -> (r: ReleaseAsset)
    ensures
        asset_normalized(r, *a),
{
    ReleaseAsset {
        id: sanitize_segment(a.id.as_str()),
        name: trim(a.name.as_str()),
        stored_path: normalize_stored_path(a.stored_path.as_str()),
        original_path: trim(a.original_path.as_str()),
        size_bytes: a.size_bytes,
        added_at: a.added_at,
    }
}

fn normalize_entry(e: &ReleaseEntry) -> (r: ReleaseEntry)
    ensures
        entry_normalized(r, *e),
{
    let mut assets: Vec<ReleaseAsset> = Vec::new();
    let mut k: usize = 0;
    while k < e.assets.len()
        invariant
            k <= e.assets.len(),
            assets@.len() == k,
            forall|m: int| 0 <= m < k ==> asset_normalized(#[trigger] assets@[m], e.assets@[m]),
        decreases e.assets.len() - k,
    {
        assets.push(normalize_asset(&e.assets[k]));
        k = k + 1;
    }
    ReleaseEntry {
        id: sanitize_segment(e.id.as_str()),
        version: trim(e.version.as_str()),
        title: trim(e.title.as_str()),
        notes: trim(e.notes.as_str()),
        source_url: trim(e.source_url.as_str()),
        assets,
        created_at: e.created_at,
        updated_at: e.updated_at,
    }
}

/// Normalizes every entry and drops those left without a version.
pub fn normalize_release_entries(releases: &[ReleaseEntry]) -> (r: Vec<ReleaseEntry>)
    ensures
        r@.len() == kept_indices(releases@).len(),
        forall|k: int|
            0 <= k < r@.len() ==> entry_normalized(
                #[trigger] r@[k],
                releases@[kept_indices(releases@)[k]],
            ),
{
    let mut out: Vec<ReleaseEntry> = Vec::new();
    let mut i: usize = 0;
    while i < releases.len()
        invariant
            i <= releases.len(),
            out@.len() == kept_indices(releases@.take(i as int)).len(),
            forall|k: int|
                0 <= k < out@.len() ==> entry_normalized(
                    #[trigger] out@[k],
                    releases@[kept_indices(releases@.take(i as int))[k]],
                ),
        decreases releases.len() - i,
    {
        let ghost t = releases@.take(i as int + 1);
        assert(t.drop_last() =~= releases@.take(i as int));
        let n = normalize_entry(&releases[i]);
        if n.version.as_str().unicode_len() > 0 {
            out.push(n);
        }
        i = i + 1;
    }
    assert(releases@.take(releases.len() as int) =~= releases@);
    out
}

/// `perm` is a permutation of `0..n`.
pub open spec fn is_perm(perm: Seq<int>, n: int) -> bool {
    &&& perm.len() == n
    &&& forall|k: int| 0 <= k < n ==> 0 <= #[trigger] perm[k] < n
    &&& forall|a: int, b: int| 0 <= a < b < n ==> perm[a] != perm[b]
}

/// `out` is `inp` sorted by `updated_at`, newest first, with entries that share
/// a time kept in their original order (a stable sort).
pub open spec fn stable_sorted_newest_first(
    out: Seq<ReleaseEntry>,
    inp: Seq<ReleaseEntry>,
    perm: Seq<int>,
) -> bool {
    &&& out.len() == inp.len()
    &&& is_perm(perm, inp.len() as int)
    &&& forall|k: int| 0 <= k < out.len() ==> #[trigger] out[k] == inp[perm[k]]
    &&& forall|a: int, b: int|
        0 <= a < b < out.len() ==> out[a].updated_at >= out[b].updated_at
    &&& forall|a: int, b: int|
        0 <= a < b < out.len() && out[a].updated_at == out[b].updated_at ==> perm[a] < perm[b]
}

/// Sorts entries by `updated_at`, newest first, stably.
pub fn sort_newest_first(v: Vec<ReleaseEntry>) -> (r: Vec<ReleaseEntry>)
    ensures
        exists|perm: Seq<int>| stable_sorted_newest_first(r@, v@, perm),
{
    let ghost l = v@;
    let mut rest = v;
    let mut out: Vec<ReleaseEntry> = Vec::new();
    let ghost mut perm: Seq<int> = Seq::empty();
    let n = rest.len();
    let mut i: usize = 0;
    while i < n
        invariant
            n == l.len(),
            i <= n,
            rest@ == l.skip(i as int),
            out@.len() == i,
            perm.len() == i,
            forall|k: int| 0 <= k < i ==> 0 <= #[trigger] perm[k] < i,
            forall|a: int, b: int| 0 <= a < b < i ==> perm[a] != perm[b],
            forall|k: int| 0 <= k < i ==> #[trigger] out@[k] == l[perm[k]],
            forall|a: int, b: int| 0 <= a < b < i ==> out@[a].updated_at >= out@[b].updated_at,
            forall|a: int, b: int|
                0 <= a < b < i && out@[a].updated_at == out@[b].updated_at ==> perm[a] < perm[b],
        decreases n - i,
    {
        let x = rest.remove(0);
        assert(x == l[i as int]);
        assert(rest@ =~= l.skip(i as int + 1));
        let mut p: usize = 0;
        while p < out.len() && out[p].updated_at >= x.updated_at
            invariant
                p <= out@.len(),
                forall|a: int| 0 <= a < p ==> out@[a].updated_at >= x.updated_at,
            decreases out@.len() - p,
        {
            p = p + 1;
        }
        let ghost old_out = out@;
        let ghost old_perm = perm;
        proof {
            assert forall|b: int| p <= b < i implies old_out[b].updated_at < x.updated_at by {
                assert(old_out[p as int].updated_at < x.updated_at);
                assert(old_out[p as int].updated_at >= old_out[b].updated_at || b == p);
            }
        }
        out.insert(p, x);
        proof {
            perm = old_perm.insert(p as int, i as int);
            assert forall|k: int| 0 <= k < i + 1 implies 0 <= #[trigger] perm[k] < i + 1 by {
                if k < p {
                    assert(perm[k] == old_perm[k]);
                } else if k > p {
                    assert(perm[k] == old_perm[k - 1]);
                }
            }
            assert forall|a: int, b: int| 0 <= a < b < i + 1 implies perm[a] != perm[b] by {
                if a < p && b < p {
                } else if a < p && b == p {
                    assert(perm[a] == old_perm[a]);
                } else if a < p && b > p {
                    assert(perm[a] == old_perm[a]);
                    assert(perm[b] == old_perm[b - 1]);
                } else if a == p {
                    assert(perm[b] == old_perm[b - 1]);
                } else {
                    assert(perm[a] == old_perm[a - 1]);
                    assert(perm[b] == old_perm[b - 1]);
                }
            }
            assert forall|k: int| 0 <= k < i + 1 implies #[trigger] out@[k] == l[perm[k]] by {
                if k < p {
                    assert(out@[k] == old_out[k]);
                    assert(perm[k] == old_perm[k]);
                } else if k > p {
                    assert(out@[k] == old_out[k - 1]);
                    assert(perm[k] == old_perm[k - 1]);
                }
            }
            assert forall|a: int, b: int|
                0 <= a < b < i + 1 implies out@[a].updated_at >= out@[b].updated_at by {
                if b < p {
                    assert(out@[a] == old_out[a]);
                    assert(out@[b] == old_out[b]);
                } else if b == p {
                    assert(out@[a] == old_out[a]);
                } else if a < p {
                    assert(out@[a] == old_out[a]);
                    assert(out@[b] == old_out[b - 1]);
                } else if a == p {
                    assert(out@[b] == old_out[b - 1]);
                } else {
                    assert(out@[a] == old_out[a - 1]);
                    assert(out@[b] == old_out[b - 1]);
                }
            }
            assert forall|a: int, b: int|
                0 <= a < b < i + 1 && out@[a].updated_at == out@[b].updated_at implies perm[a]
                < perm[b] by {
                if b < p {
                    assert(out@[a] == old_out[a]);
                    assert(out@[b] == old_out[b]);
                } else if b == p {
                    assert(perm[a] == old_perm[a]);
                } else if a < p {
                    assert(out@[a] == old_out[a]);
                    assert(out@[b] == old_out[b - 1]);
                    assert(perm[a] == old_perm[a]);
                    assert(perm[b] == old_perm[b - 1]);
                } else if a == p {
                    assert(out@[b] == old_out[b - 1]);
                } else {
                    assert(out@[a] == old_out[a - 1]);
                    assert(out@[b] == old_out[b - 1]);
                    assert(perm[a] == old_perm[a - 1]);
                    assert(perm[b] == old_perm[b - 1]);
                }
            }
        }
        i = i + 1;
    }
    assert(stable_sorted_newest_first(out@, l, perm));
    out
}


/// `out` is what a save writes for `releases`: the kept entries, normalized,
/// in the order `perm` gives, newest first and stable.
pub open spec fn saved_form(out: Seq<ReleaseEntry>, releases: Seq<ReleaseEntry>, perm: Seq<int>) -> bool {
    let kept = kept_indices(releases);
    &&& out.len() == kept.len()
    &&& is_perm(perm, kept.len() as int)
    &&& forall|k: int|
        0 <= k < out.len() ==> entry_normalized(#[trigger] out[k], releases[kept[perm[k]]])
    &&& forall|a: int, b: int|
        0 <= a < b < out.len() ==> out[a].updated_at >= out[b].updated_at
    &&& forall|a: int, b: int|
        0 <= a < b < out.len() && out[a].updated_at == out[b].updated_at ==> perm[a] < perm[b]
}

/// What saving releases writes: every entry normalized (ids made safe, text
/// fields trimmed, stored paths with forward slashes), entries without a
/// version dropped, versions checked for duplicates, and the rest ordered
/// newest first by `updated_at`, stably.
pub fn prepare_releases_for_save(releases: &[ReleaseEntry]) -> (r: Result<Vec<ReleaseEntry>, String>)
    ensures
        r is Ok <==> (forall|j: int| !repeats_earlier(kept_versions(releases@), j)),
        r matches Err(msg) ==> exists|j: int|
            repeats_earlier(kept_versions(releases@), j) && (forall|k: int|
                0 <= k < j ==> !repeats_earlier(kept_versions(releases@), k)) && msg@
                == duplicate_prefix_s() + trim_s(kept_versions(releases@)[j]),
        r matches Ok(out) ==> exists|perm: Seq<int>| #[trigger] saved_form(out@, releases@, perm),
{
    let normalized = normalize_release_entries(releases);
    assert(versions_of(normalized@) =~= kept_versions(releases@));
    match assert_unique_release_versions(normalized.as_slice()) {
        Err(e) => {
            return Err(e);
        },
        Ok(()) => {},
    }
    let ghost n = normalized@;
    let sorted = sort_newest_first(normalized);
    proof {
        let perm = choose|perm: Seq<int>| stable_sorted_newest_first(sorted@, n, perm);
        assert(saved_form(sorted@, releases@, perm));
        assert(exists|perm: Seq<int>| #[trigger] saved_form(sorted@, releases@, perm));
    }
    let ghost sv = sorted@;
    let res: Result<Vec<ReleaseEntry>, String> = Ok(sorted);
    assert(res matches Ok(out) && out@ == sv);
    res
}


// ---------------------------------------------------------------------------
// Where an imported asset is stored.
// ---------------------------------------------------------------------------

/// An asset id: 32 lowercase hex digits, optionally followed by `-` and a
/// decimal retry counter of at least 2.
pub open spec fn is_asset_id_s(id: Seq<char>) -> bool {
    &&& id.len() >= 32
    &&& forall|i: int| 0 <= i < 32 ==> is_lower_hex(#[trigger] id[i])
    &&& id.len() > 32 ==> (id[32] == '-' && exists|n: nat| n >= 2 && id.skip(33) == dec_s(n))
}

/// The folder under `assets/` that a release's files go to: the sanitized
/// release id, or `item` when that is `.` or `..`, which would not name a
/// folder of its own under `assets/`.
pub open spec fn release_segment_s(release_id: Seq<char>) -> Seq<char> {
    let s = sanitize_s(release_id);
    if s == dot_s() || s == dotdot_s() {
        item_s()
    } else {
        s
    }
}

/// The folder under `assets/` for a release (see `release_segment_s`).
pub fn release_segment(release_id: &str) -> (r: String)
    ensures
        r@ == release_segment_s(release_id@),
{
    let s = sanitize_segment(release_id);
    let v = str_chars(s.as_str());
    let dot: Vec<char> = vec!['.'];
    let dotdot: Vec<char> = vec!['.', '.'];
    assert(dot@ =~= dot_s());
    assert(dotdot@ =~= dotdot_s());
    if chars_eq(&v, &dot) || chars_eq(&v, &dotdot) {
        let r = String::from_str("item");
        proof {
            reveal_strlit("item");
            assert(r@ =~= item_s());
        }
        r
    } else {
        s
    }
}

/// A release folder is one non-empty segment of safe characters, never `.`
/// or `..`.
pub proof fn lemma_release_segment(release_id: Seq<char>)
    ensures
        release_segment_s(release_id).len() > 0,
        release_segment_s(release_id) != dot_s(),
        release_segment_s(release_id) != dotdot_s(),
        forall|i: int|
            0 <= i < release_segment_s(release_id).len() ==> is_segment_char(
                #[trigger] release_segment_s(release_id)[i],
            ),
{
    lemma_sanitize_chars(release_id);
    lemma_sanitize_nonempty(release_id);
    let it = item_s();
    assert(it != dot_s()) by {
        assert(it.len() != dot_s().len());
    }
    assert(it != dotdot_s()) by {
        assert(it.len() != dotdot_s().len());
    }
    assert forall|i: int| 0 <= i < it.len() implies is_segment_char(#[trigger] it[i]) by {}
}

/// `assets/<release folder>/<asset id>-<file name>`, with the file name
/// sanitized (see `release_segment_s` for the folder).
pub open spec fn asset_rel_path_s(release_id: Seq<char>, file_name: Seq<char>, asset_id: Seq<char>) -> Seq<char> {
    assets_prefix_s() + release_segment_s(release_id) + seq!['/'] + asset_id + seq!['-'] + sanitize_s(
        file_name,
    )
}

fn asset_rel_path(release_seg: &str, asset_id: &str, safe_name: &str) -> (r: String)
    ensures
        r@ == assets_prefix_s() + release_seg@ + seq!['/'] + asset_id@ + seq!['-'] + safe_name@,
{
    let mut s = String::from_str("assets/");
    s.append(release_seg);
    string_push(&mut s, '/');
    s.append(asset_id);
    string_push(&mut s, '-');
    s.append(safe_name);
    proof {
        reveal_strlit("assets/");
    }
    assert(s@ =~= assets_prefix_s() + release_seg@ + seq!['/'] + asset_id@ + seq!['-'] + safe_name@);
    s
}

/// The asset id of attempt `k` from the random id `draw` drawn for it: the
/// first attempt uses `draw` as it is, later ones add `-<k + 1>` (so `-2`,
/// `-3`, ...).
pub open spec fn attempt_id_s(draw: Seq<char>, k: nat) -> Seq<char> {
    if k == 0 {
        draw
    } else {
        draw + seq!['-'] + dec_s(k + 1)
    }
}

/// A random id as `uuid`'s simple format writes it: 32 lowercase hex digits.
pub open spec fn is_simple_uuid_s(id: Seq<char>) -> bool {
    id.len() == 32 && forall|i: int| 0 <= i < 32 ==> is_lower_hex(#[trigger] id[i])
}

/// `k` is the first attempt whose disk path was reported free.
pub open spec fn first_free_attempt(taken: Seq<bool>, k: int) -> bool {
    0 <= k < taken.len() && !taken[k] && forall|j: int| 0 <= j < k ==> #[trigger] taken[j]
}

/// The asset target of attempt `k`: its id, its stored path and its disk path.
pub open spec fn asset_target_s(
    root: Seq<char>,
    release_id: Seq<char>,
    file_name: Seq<char>,
    draw: Seq<char>,
    k: nat,
) -> (Seq<char>, Seq<char>, Seq<char>) {
    let id = attempt_id_s(draw, k);
    let rel = asset_rel_path_s(release_id, file_name, id);
    (id, rel, join_s(meta_dir_s(root), rel))
}

/// The target of attempt `k` from its drawn id.
fn asset_target(
    dir: &str,
    release_seg: &str,
    safe_name: &str,
    draw: &str,
    k: usize,
) -> (r: (String, String, String))
    requires
        k < usize::MAX,
    ensures
        r.0@ == attempt_id_s(draw@, k as nat),
        r.1@ == assets_prefix_s() + release_seg@ + seq!['/'] + r.0@ + seq!['-'] + safe_name@,
        r.2@ == join_s(dir@, r.1@),
{
    let id = if k == 0 {
        String::from_str(draw)
    } else {
        let mut id = concat_str(draw, "-");
        push_dec(&mut id, (k + 1) as u64);
        proof {
            reveal_strlit("-");
        }
        assert(id@ =~= attempt_id_s(draw@, k as nat));
        id
    };
    let rel = asset_rel_path(release_seg, id.as_str(), safe_name);
    let dst = join_str(dir, rel.as_str());
    (id, rel, dst)
}

/// Picks where an imported file is stored from the attempts made, in order:
/// `draws[k]` is the random id drawn for attempt `k` and `taken[k]` whether
/// its disk path existed. The first attempt that was free is chosen; `None`
/// when every attempt was taken.
pub fn pick_asset_target(
    repo_root: &str,
    release_id: &str,
    original_file_name: &str,
    draws: &[String],
    taken: &[bool],
) -> (r: Option<(String, String, String)>)
    requires
        draws@.len() == taken@.len(),
        taken@.len() < usize::MAX,
    ensures
        match r {
            Some(t) => exists|k: int| first_free_attempt(taken@, k) && (t.0@, t.1@, t.2@) == asset_target_s(
                repo_root@,
                release_id@,
                original_file_name@,
                draws@[k]@,
                k as nat,
            ),
            None => forall|j: int| 0 <= j < taken@.len() ==> #[trigger] taken@[j],
        },
{
    let release_seg = release_segment(release_id);
    let safe_name = sanitize_segment(original_file_name);
    let dir = repo_releases_meta_dir(repo_root);
    let mut k: usize = 0;
    while k < taken.len()
        invariant
            k <= taken@.len(),
            draws@.len() == taken@.len(),
            taken@.len() < usize::MAX,
            release_seg@ == release_segment_s(release_id@),
            safe_name@ == sanitize_s(original_file_name@),
            dir@ == meta_dir_s(repo_root@),
            forall|j: int| 0 <= j < k ==> #[trigger] taken@[j],
        decreases taken@.len() - k,
    {
        if !taken[k] {
            let t = asset_target(dir.as_str(), release_seg.as_str(), safe_name.as_str(), draws[k].as_str(), k);
            assert(first_free_attempt(taken@, k as int));
            assert(t.1@ =~= asset_rel_path_s(release_id@, original_file_name@, t.0@));
            assert((t.0@, t.1@, t.2@) == asset_target_s(
                repo_root@,
                release_id@,
                original_file_name@,
                draws@[k as int]@,
                k as nat,
            ));
            return Some(t);
        }
        k = k + 1;
    }
    None
}

/// A disk path that the probes reported as taken is never picked: when an
/// earlier import's file stands at `old_dst` (so every attempt that lands
/// there is reported taken), the attempt picked now has another disk path
/// and another stored path than the earlier import, whose stored path
/// `old_rel` gave `old_dst`.
pub proof fn law_taken_asset_path_not_picked(
    repo_root: Seq<char>,
    release_id: Seq<char>,
    file_name: Seq<char>,
    draws: Seq<Seq<char>>,
    taken: Seq<bool>,
    k: int,
    old_rel: Seq<char>,
    old_dst: Seq<char>,
)
    requires
        draws.len() == taken.len(),
        first_free_attempt(taken, k),
        old_dst == join_s(meta_dir_s(repo_root), old_rel),
        forall|j: int|
            0 <= j < taken.len() && (#[trigger] asset_target_s(
                repo_root,
                release_id,
                file_name,
                draws[j],
                j as nat,
            )).2 == old_dst ==> taken[j],
    ensures
        asset_target_s(repo_root, release_id, file_name, draws[k], k as nat).2 != old_dst,
        asset_target_s(repo_root, release_id, file_name, draws[k], k as nat).1 != old_rel,
{
    let t = asset_target_s(repo_root, release_id, file_name, draws[k], k as nat);
    assert(!taken[k]);
    if t.1 == old_rel {
        assert(t.2 == old_dst);
    }
}

/// An attempt's id is an asset id when the drawn id is a simple uuid.
proof fn lemma_attempt_id(draw: Seq<char>, k: nat)
    requires
        is_simple_uuid_s(draw),
    ensures
        is_asset_id_s(attempt_id_s(draw, k)),
{
    if k > 0 {
        let id = attempt_id_s(draw, k);
        assert(id.skip(33) =~= dec_s(k + 1));
        assert(forall|i: int| 0 <= i < 32 ==> id[i] == draw[i]);
    }
}

/// Chooses where an imported file is stored: a fresh id, the relative stored
/// path built from it, and that path on disk. While something already exists
/// at the disk path, a new id with a retry counter (2, 3, ...) is drawn; the
/// attempts' answers go to `pick_asset_target`.
/// Returns `(asset id, stored path, disk path)`: the target of the first
/// attempt whose disk path was reported free (only after `usize::MAX - 1`
/// attempts all reported taken is one more drawn without a probe).
pub fn make_unique_asset_target(
    repo_root: &str,
    release_id: &str,
    original_file_name: &str,
) -> (r: (String, String, String))
    ensures
        is_asset_id_s(r.0@),
        r.1@ == asset_rel_path_s(release_id@, original_file_name@, r.0@),
        r.2@ == join_s(meta_dir_s(repo_root@), r.1@),
        (exists|draws: Seq<String>, taken: Seq<bool>, k: int|
            #![trigger first_free_attempt(taken, k), draws[k]]
            draws.len() == taken.len() && first_free_attempt(taken, k) && (r.0@, r.1@, r.2@)
                == asset_target_s(repo_root@, release_id@, original_file_name@, draws[k]@, k as nat))
            || exists|draw: Seq<char>, k: nat|
            k >= usize::MAX - 1 && (r.0@, r.1@, r.2@) == #[trigger] asset_target_s(
                repo_root@,
                release_id@,
                original_file_name@,
                draw,
                k,
            ),
{
    let release_seg = release_segment(release_id);
    let safe_name = sanitize_segment(original_file_name);
    let dir = repo_releases_meta_dir(repo_root);
    let mut draws: Vec<String> = Vec::new();
    let mut taken: Vec<bool> = Vec::new();
    while taken.len() < usize::MAX - 1
        invariant_except_break
            forall|j: int| 0 <= j < taken@.len() ==> #[trigger] taken@[j],
        invariant
            draws@.len() == taken@.len(),
            taken@.len() < usize::MAX,
            forall|j: int| 0 <= j < draws@.len() ==> is_simple_uuid_s(#[trigger] draws@[j]@),
        ensures
            taken@.len() >= usize::MAX - 1 || (taken@.len() > 0 && !taken@[taken@.len() - 1]),
        decreases usize::MAX - 1 - taken@.len(),
    {
        let draw = new_uuid_simple();
        let t = asset_target(dir.as_str(), release_seg.as_str(), safe_name.as_str(), draw.as_str(), taken.len());
        let exists = path_exists(t.2.as_str());
        draws.push(draw);
        taken.push(exists);
        if !exists {
            break;
        }
    }
    let picked = pick_asset_target(repo_root, release_id, original_file_name, draws.as_slice(), taken.as_slice());
    let r = match picked {
        Some(t) => t,
        None => {
            let draw = new_uuid_simple();
            let k = taken.len();
            let t = asset_target(dir.as_str(), release_seg.as_str(), safe_name.as_str(), draw.as_str(), k);
            proof {
                lemma_attempt_id(draw@, k as nat);
                if taken@.len() > 0 {
                    assert(taken@[taken@.len() - 1]);
                }
                assert(k >= usize::MAX - 1);
                assert(t.1@ =~= asset_rel_path_s(release_id@, original_file_name@, t.0@));
                assert((t.0@, t.1@, t.2@) == asset_target_s(
                    repo_root@,
                    release_id@,
                    original_file_name@,
                    draw@,
                    k as nat,
                ));
            }
            t
        },
    };
    proof {
        if picked is Some {
            let k = choose|k: int| first_free_attempt(taken@, k) && (r.0@, r.1@, r.2@) == asset_target_s(
                repo_root@,
                release_id@,
                original_file_name@,
                draws@[k]@,
                k as nat,
            );
            lemma_attempt_id(draws@[k]@, k as nat);
            assert(first_free_attempt(taken@, k));
        }
    }
    r
}

pub proof fn lemma_sanitize_chars(s: Seq<char>)
    ensures
        forall|i: int| 0 <= i < sanitize_s(s).len() ==> is_segment_char(#[trigger] sanitize_s(s)[i]),
{
    let mapped = s.map_values(|c: char| if is_segment_char(c) { c } else { '_' });
    assert forall|i: int| 0 <= i < mapped.len() implies is_segment_char(#[trigger] mapped[i]) by {}
    let a = lead_eq(mapped, '_');
    let t = mapped.skip(a as int);
    lemma_lead_eq_bound(mapped, '_');
    lemma_trail_eq_bound(t, '_');
    let r = t.take(t.len() - trail_eq(t, '_'));
    if r.len() > 0 {
        assert forall|i: int| 0 <= i < r.len() implies is_segment_char(#[trigger] r[i]) by {
            assert(r[i] == mapped[i + a]);
        }
    } else {
        let it = item_s();
        assert forall|i: int| 0 <= i < it.len() implies is_segment_char(#[trigger] it[i]) by {}
    }
}

pub proof fn lemma_dec_digits(n: nat)
    ensures
        dec_s(n).len() > 0,
        forall|i: int| 0 <= i < dec_s(n).len() ==> '0' <= #[trigger] dec_s(n)[i] <= '9',
    decreases n,
{
    if n >= 10 {
        lemma_dec_digits(n / 10);
    }
}

/// The characters of an asset id are hex digits, `-` or decimal digits.
pub proof fn lemma_asset_id_chars(id: Seq<char>)
    requires
        is_asset_id_s(id),
    ensures
        forall|i: int|
            0 <= i < id.len() ==> is_lower_hex(#[trigger] id[i]) || id[i] == '-' || ('0' <= id[i]
                <= '9'),
{
    if id.len() > 32 {
        let n = choose|n: nat| n >= 2 && id.skip(33) == dec_s(n);
        lemma_dec_digits(n);
        assert forall|i: int| 0 <= i < id.len() implies is_lower_hex(#[trigger] id[i]) || id[i]
            == '-' || ('0' <= id[i] <= '9') by {
            if i > 32 {
                assert(id[i] == id.skip(33)[i - 33]);
            }
        }
    }
}

/// `assets`
pub open spec fn assets_word_s() -> Seq<char> {
    seq!['a', 's', 's', 'e', 't', 's']
}

/// An imported asset's stored path has no backslashes, so normalizing it
/// changes nothing.
pub proof fn lemma_asset_rel_path_normal(release_id: Seq<char>, file_name: Seq<char>, asset_id: Seq<char>)
    requires
        is_asset_id_s(asset_id),
    ensures
        normalize_s(asset_rel_path_s(release_id, file_name, asset_id)) == asset_rel_path_s(
            release_id,
            file_name,
            asset_id,
        ),
{
    let seg = release_segment_s(release_id);
    let name = sanitize_s(file_name);
    let p = asset_rel_path_s(release_id, file_name, asset_id);
    lemma_release_segment(release_id);
    lemma_sanitize_chars(file_name);
    lemma_asset_id_chars(asset_id);
    // No backslashes: normalizing leaves the path as it is.
    assert forall|i: int| 0 <= i < p.len() implies #[trigger] p[i] != '\\' by {
        if i < 7 {
        } else if i < 7 + seg.len() {
            assert(p[i] == seg[i - 7]);
        } else if i == 7 + seg.len() {
        } else if i < 8 + seg.len() + asset_id.len() {
            assert(p[i] == asset_id[i - 8 - seg.len()]);
        } else if i == 8 + seg.len() + asset_id.len() {
        } else {
            assert(p[i] == name[i - 9 - seg.len() - asset_id.len()]);
        }
    }
    assert(normalize_s(p) =~= p);
}

/// Resolving the stored path of an imported asset gives back the disk path
/// the asset was written to.
pub proof fn law_imported_asset_resolves_to_its_file(
    repo_root: Seq<char>,
    release_id: Seq<char>,
    file_name: Seq<char>,
    asset_id: Seq<char>,
)
    requires
        is_asset_id_s(asset_id),
    ensures
        asset_disk_path_s(repo_root, asset_rel_path_s(release_id, file_name, asset_id)) == join_s(
            meta_dir_s(repo_root),
            asset_rel_path_s(release_id, file_name, asset_id),
        ),
{
    lemma_asset_rel_path_normal(release_id, file_name, asset_id);
}

/// An imported asset's stored path is always accepted by
/// `is_safe_asset_stored_path`: it stays under `assets/`, whatever the release
/// id and file name.
pub proof fn law_imported_asset_path_safe(release_id: Seq<char>, file_name: Seq<char>, asset_id: Seq<char>)
    requires
        is_asset_id_s(asset_id),
    ensures
        is_safe_stored_s(asset_rel_path_s(release_id, file_name, asset_id)),
{
    let seg = release_segment_s(release_id);
    let name = sanitize_s(file_name);
    let idp = asset_id + seq!['-'] + name;
    let a = assets_word_s();
    let p = asset_rel_path_s(release_id, file_name, asset_id);
    assert(p =~= a + seq!['/'] + (seg + seq!['/'] + idp));
    lemma_release_segment(release_id);
    lemma_sanitize_chars(file_name);
    lemma_asset_id_chars(asset_id);
    lemma_asset_rel_path_normal(release_id, file_name, asset_id);
    // Segments: `assets`, the release segment, the file part.
    assert forall|i: int| 0 <= i < seg.len() implies #[trigger] seg[i] != '/' by {}
    assert forall|i: int| 0 <= i < idp.len() implies #[trigger] idp[i] != '/' by {
        if i < asset_id.len() {
            assert(idp[i] == asset_id[i]);
        } else if i > asset_id.len() {
            assert(idp[i] == name[i - asset_id.len() - 1]);
        }
    }
    assert forall|i: int| 0 <= i < a.len() implies #[trigger] a[i] != '/' by {}
    lemma_split_concat(a, seg + seq!['/'] + idp);
    lemma_split_concat(seg, idp);
    lemma_split_no_slash(a);
    lemma_split_no_slash(seg);
    lemma_split_no_slash(idp);
    let ss = split_s(p);
    assert(ss =~= seq![a] + seq![seg] + seq![idp]);
    lemma_keep_concat(seq![a] + seq![seg], seq![idp]);
    lemma_keep_concat(seq![a], seq![seg]);
    assert(seq![a].drop_last() =~= Seq::<Seq<char>>::empty());
    assert(seq![seg].drop_last() =~= Seq::<Seq<char>>::empty());
    assert(seq![idp].drop_last() =~= Seq::<Seq<char>>::empty());
    assert(keep_segs(Seq::<Seq<char>>::empty()) == Seq::<Seq<char>>::empty());
    assert(a != dot_s()) by {
        assert(a.len() != dot_s().len());
    }
    assert(idp[0] == asset_id[0]);
    assert(is_lower_hex(asset_id[0]));
    assert(idp != dot_s()) by {
        if idp.len() == 1 {
            assert(idp[0] != dot_s()[0]);
        }
    }
    assert(idp != dotdot_s()) by {
        if idp.len() == 2 {
            assert(idp[0] != dotdot_s()[0]);
        }
    }
    assert(a != dotdot_s()) by {
        assert(a.len() != dotdot_s().len());
    }
    assert(!is_abs_s(p));
    assert(ss[0] == a);
    assert(!leading_curdir(p));
    let k = keep_segs(ss);
    assert(k == comps_s(p)) by {
        assert(comps_s(p) =~= Seq::<Seq<char>>::empty() + keep_segs(ss));
    }
    assert(starts_with_s(p, assets_prefix_s())) by {
        assert(p.take(7) =~= assets_prefix_s());
    }
    assert(is_kept(a));
    assert(is_kept(idp));
    assert(keep_segs(seq![a]) =~= seq![a]);
    assert(keep_segs(seq![idp]) =~= seq![idp]);
    if is_kept(seg) {
        assert(keep_segs(seq![seg]) =~= seq![seg]);
    } else {
        assert(keep_segs(seq![seg]) =~= Seq::<Seq<char>>::empty());
    }
    assert(k == keep_segs(seq![a]) + keep_segs(seq![seg]) + keep_segs(seq![idp]));
    assert(is_kept(seg));
    assert(k =~= seq![a, seg, idp]);
    assert(!k.contains(dotdot_s()));
}


/// Normalizing twice is normalizing once.
pub proof fn lemma_normalize_idempotent(p: Seq<char>)
    ensures
        normalize_s(normalize_s(p)) == normalize_s(p),
{
    assert(normalize_s(normalize_s(p)) =~= normalize_s(p));
}

/// Joining a base with two relative paths gives the same path only for the
/// same relative path.
pub proof fn lemma_join_injective(base: Seq<char>, r1: Seq<char>, r2: Seq<char>)
    requires
        !is_abs_s(r1),
        !is_abs_s(r2),
        join_s(base, r1) == join_s(base, r2),
    ensures
        r1 == r2,
{
    let pre = if base.len() == 0 || base.last() == '/' { base } else { base + seq!['/'] };
    assert(join_s(base, r1) =~= pre + r1);
    assert(join_s(base, r2) =~= pre + r2);
    assert(r1 =~= (pre + r1).skip(pre.len() as int));
    assert(r2 =~= (pre + r2).skip(pre.len() as int));
}

/// A save never deletes the file of an asset that the new releases still list
/// with a safe stored path: no removed asset resolves to that file.
pub proof fn law_save_keeps_listed_assets(
    repo_root: Seq<char>,
    previous: Seq<ReleaseEntry>,
    next: Seq<ReleaseEntry>,
    kept: Seq<char>,
    removed: Seq<char>,
)
    requires
        has_stored(next, kept),
        is_safe_stored_s(kept),
        is_removed(previous, next, removed),
    ensures
        asset_disk_path_s(repo_root, removed) != asset_disk_path_s(repo_root, kept),
{
    if asset_disk_path_s(repo_root, removed) == asset_disk_path_s(repo_root, kept) {
        lemma_join_injective(meta_dir_s(repo_root), normalize_s(removed), normalize_s(kept));
        let (i, j) = choose|i: int, j: int|
            0 <= i < next.len() && 0 <= j < next[i].assets@.len() && #[trigger] normalize_s(
                next[i].assets@[j].stored_path@,
            ) == kept;
        let (i2, j2) = choose|i2: int, j2: int|
            0 <= i2 < previous.len() && 0 <= j2 < previous[i2].assets@.len()
                && #[trigger] normalize_s(previous[i2].assets@[j2].stored_path@) == removed;
        lemma_normalize_idempotent(next[i].assets@[j].stored_path@);
        lemma_normalize_idempotent(previous[i2].assets@[j2].stored_path@);
        assert(removed == kept);
        assert(has_stored(next, removed));
    }
}


/// Two releases whose versions differ only in ASCII case or surrounding
/// whitespace cannot be saved together: the later one repeats the earlier, so
/// `assert_unique_release_versions` refuses them.
pub proof fn law_case_variants_conflict(entries: Seq<ReleaseEntry>, i: int, j: int)
    requires
        0 <= i < j < entries.len(),
        trim_s(entries[i].version@).len() > 0,
        version_key(entries[i].version@) == version_key(entries[j].version@),
    ensures
        exists|k: int| repeats_earlier(versions_of(entries), k),
{
    let vs = versions_of(entries);
    assert(vs[i] == entries[i].version@);
    assert(vs[j] == entries[j].version@);
    assert(lower_s(trim_s(vs[j])).len() == trim_s(vs[j]).len());
    assert(lower_s(trim_s(vs[i])).len() == trim_s(vs[i]).len());
    assert(repeats_earlier(vs, j));
}


/// Sanitizing a sanitized segment changes nothing.
pub proof fn lemma_sanitize_idempotent(s: Seq<char>)
    ensures
        sanitize_s(sanitize_s(s)) == sanitize_s(s),
{
    let y = sanitize_s(s);
    lemma_sanitize_chars(s);
    let mapped_s = s.map_values(|c: char| if is_segment_char(c) { c } else { '_' });
    let mapped_y = y.map_values(|c: char| if is_segment_char(c) { c } else { '_' });
    assert(mapped_y =~= y);
    if trim_char_s(mapped_s, '_').len() == 0 {
        assert(y[0] == 'i' && y.last() == 'm');
    } else {
        lemma_trim_char_ends(mapped_s, '_');
    }
    lemma_trim_char_noop(y, '_');
}


// ---------------------------------------------------------------------------
// Saving what a save wrote.
// ---------------------------------------------------------------------------

/// Two assets agree field for field.
pub open spec fn same_asset(a: ReleaseAsset, b: ReleaseAsset) -> bool {
    &&& a.id@ == b.id@
    &&& a.name@ == b.name@
    &&& a.stored_path@ == b.stored_path@
    &&& a.original_path@ == b.original_path@
    &&& a.size_bytes == b.size_bytes
    &&& a.added_at == b.added_at
}

/// Two entries agree field for field, assets included.
pub open spec fn same_entry(a: ReleaseEntry, b: ReleaseEntry) -> bool {
    &&& a.id@ == b.id@
    &&& a.version@ == b.version@
    &&& a.title@ == b.title@
    &&& a.notes@ == b.notes@
    &&& a.source_url@ == b.source_url@
    &&& a.assets@.len() == b.assets@.len()
    &&& forall|k: int|
        0 <= k < a.assets@.len() ==> same_asset(#[trigger] a.assets@[k], b.assets@[k])
    &&& a.created_at == b.created_at
    &&& a.updated_at == b.updated_at
}

/// Every kept entry has a non-empty trimmed version.
proof fn lemma_kept_indices_nonempty(entries: Seq<ReleaseEntry>)
    ensures
        forall|k: int|
            0 <= k < kept_indices(entries).len() ==> trim_s(
                entries[#[trigger] kept_indices(entries)[k]].version@,
            ).len() > 0,
    decreases entries.len(),
{
    if entries.len() > 0 {
        let d = entries.drop_last();
        lemma_kept_indices_nonempty(d);
        lemma_kept_indices_range(d);
        let r = kept_indices(d);
        let c = kept_indices(entries);
        assert forall|k: int| 0 <= k < c.len() implies trim_s(
            entries[#[trigger] c[k]].version@,
        ).len() > 0 by {
            if k < r.len() {
                assert(c[k] == r[k]);
                assert(entries[r[k]] == d[r[k]]);
            }
        }
    }
}

/// When every entry has a non-empty trimmed version, every entry is kept, in
/// order.
proof fn lemma_kept_indices_all(entries: Seq<ReleaseEntry>)
    requires
        forall|k: int| 0 <= k < entries.len() ==> trim_s(#[trigger] entries[k].version@).len() > 0,
    ensures
        kept_indices(entries).len() == entries.len(),
        forall|k: int| 0 <= k < entries.len() ==> #[trigger] kept_indices(entries)[k] == k,
    decreases entries.len(),
{
    if entries.len() > 0 {
        let d = entries.drop_last();
        assert forall|k: int| 0 <= k < d.len() implies trim_s(#[trigger] d[k].version@).len() > 0 by {
            assert(d[k] == entries[k]);
        }
        lemma_kept_indices_all(d);
        assert(trim_s(entries[entries.len() - 1].version@).len() > 0);
        let c = kept_indices(entries);
        assert forall|k: int| 0 <= k < entries.len() implies #[trigger] c[k] == k by {
            if k < d.len() {
                assert(c[k] == kept_indices(d)[k]);
            }
        }
    }
}

/// Normalizing an entry that was normalized changes none of its fields.
proof fn lemma_entry_normalized_twice(x: ReleaseEntry, y: ReleaseEntry, z: ReleaseEntry)
    requires
        entry_normalized(x, y),
        entry_normalized(z, x),
    ensures
        same_entry(z, x),
{
    lemma_sanitize_idempotent(y.id@);
    lemma_trim_idempotent(y.version@);
    lemma_trim_idempotent(y.title@);
    lemma_trim_idempotent(y.notes@);
    lemma_trim_idempotent(y.source_url@);
    assert forall|k: int| 0 <= k < z.assets@.len() implies same_asset(
        #[trigger] z.assets@[k],
        x.assets@[k],
    ) by {
        let a = y.assets@[k];
        assert(asset_normalized(x.assets@[k], a));
        assert(asset_normalized(z.assets@[k], x.assets@[k]));
        lemma_sanitize_idempotent(a.id@);
        lemma_trim_idempotent(a.name@);
        lemma_normalize_idempotent(a.stored_path@);
        lemma_trim_idempotent(a.original_path@);
    }
}

proof fn lemma_increasing_at_least(perm: Seq<int>, n: int, k: int)
    requires
        is_perm(perm, n),
        forall|a: int, b: int| 0 <= a < b < n ==> perm[a] < perm[b],
        0 <= k < n,
    ensures
        perm[k] >= k,
    decreases k,
{
    if k > 0 {
        lemma_increasing_at_least(perm, n, k - 1);
        assert(perm[k - 1] < perm[k]);
    }
}

proof fn lemma_increasing_at_most(perm: Seq<int>, n: int, k: int)
    requires
        is_perm(perm, n),
        forall|a: int, b: int| 0 <= a < b < n ==> perm[a] < perm[b],
        0 <= k < n,
    ensures
        perm[k] <= k,
    decreases n - k,
{
    if k < n - 1 {
        lemma_increasing_at_most(perm, n, k + 1);
        assert(perm[k] < perm[k + 1]);
    } else {
        assert(0 <= perm[k] < n);
    }
}

/// The entries a save wrote all keep a non-empty version, so saving them again
/// keeps every one of them, in order.
proof fn lemma_saved_all_kept(releases: Seq<ReleaseEntry>, out: Seq<ReleaseEntry>, perm: Seq<int>)
    requires
        saved_form(out, releases, perm),
    ensures
        kept_indices(out).len() == out.len(),
        forall|k: int| 0 <= k < out.len() ==> #[trigger] kept_indices(out)[k] == k,
        forall|k: int|
            0 <= k < out.len() ==> #[trigger] kept_versions(out)[k] == kept_versions(
                releases,
            )[perm[k]],
{
    let kept = kept_indices(releases);
    lemma_kept_indices_nonempty(releases);
    lemma_kept_indices_range(releases);
    assert forall|k: int| 0 <= k < out.len() implies trim_s(#[trigger] out[k].version@).len() > 0
        && out[k].version@ == kept_versions(releases)[perm[k]] by {
        assert(0 <= perm[k] < kept.len());
        let i = kept[perm[k]];
        assert(entry_normalized(out[k], releases[i]));
        lemma_trim_idempotent(releases[i].version@);
    }
    lemma_kept_indices_all(out);
    assert forall|k: int| 0 <= k < out.len() implies #[trigger] kept_versions(out)[k]
        == kept_versions(releases)[perm[k]] by {
        assert(kept_indices(out)[k] == k);
        let i = kept[perm[k]];
        assert(entry_normalized(out[k], releases[i]));
        lemma_trim_idempotent(releases[i].version@);
    }
}

/// Saving what a save wrote succeeds: the saved versions are still unique.
pub proof fn law_saved_releases_save_again(
    releases: Seq<ReleaseEntry>,
    out: Seq<ReleaseEntry>,
    perm: Seq<int>,
)
    requires
        forall|j: int| !repeats_earlier(kept_versions(releases), j),
        saved_form(out, releases, perm),
    ensures
        forall|j: int| !repeats_earlier(kept_versions(out), j),
{
    lemma_saved_all_kept(releases, out, perm);
    let kv = kept_versions(releases);
    let ko = kept_versions(out);
    assert forall|j: int| !repeats_earlier(ko, j) by {
        if repeats_earlier(ko, j) {
            let i = choose|i: int|
                0 <= i < j && trim_s(ko[i]).len() > 0 && #[trigger] version_key(ko[i])
                    == version_key(ko[j]);
            let p = perm[i];
            let q = perm[j];
            assert(ko[i] == kv[p]);
            assert(ko[j] == kv[q]);
            assert(p != q);
            assert(0 <= p < kv.len() && 0 <= q < kv.len());
            if p < q {
                assert(version_key(kv[p]) == version_key(kv[q]));
                assert(repeats_earlier(kv, q));
            } else {
                assert(version_key(kv[q]) == version_key(kv[p]));
                assert(repeats_earlier(kv, p));
            }
        }
    }
}

/// Saving what a save wrote writes it again unchanged: every field is already
/// normalized and the entries are already newest first, so the second save
/// keeps each entry in its place.
pub proof fn law_save_is_idempotent(
    releases: Seq<ReleaseEntry>,
    out: Seq<ReleaseEntry>,
    perm: Seq<int>,
    again: Seq<ReleaseEntry>,
    perm2: Seq<int>,
)
    requires
        saved_form(out, releases, perm),
        saved_form(again, out, perm2),
    ensures
        again.len() == out.len(),
        forall|k: int| 0 <= k < out.len() ==> same_entry(#[trigger] again[k], out[k]),
{
    lemma_saved_all_kept(releases, out, perm);
    let n = out.len() as int;
    let kept = kept_indices(releases);
    assert forall|a: int, b: int| 0 <= a < b < n implies perm2[a] < perm2[b] by {
        assert(kept_indices(out)[perm2[a]] == perm2[a]);
        assert(kept_indices(out)[perm2[b]] == perm2[b]);
        assert(entry_normalized(again[a], out[perm2[a]]));
        assert(entry_normalized(again[b], out[perm2[b]]));
        assert(perm2[a] != perm2[b]);
        if perm2[a] > perm2[b] {
            assert(out[perm2[b]].updated_at >= out[perm2[a]].updated_at);
            assert(again[a].updated_at >= again[b].updated_at);
            assert(again[a].updated_at == again[b].updated_at);
        }
    }
    assert forall|k: int| 0 <= k < n implies perm2[k] == k by {
        lemma_increasing_at_least(perm2, n, k);
        lemma_increasing_at_most(perm2, n, k);
    }
    assert forall|k: int| 0 <= k < n implies same_entry(#[trigger] again[k], out[k]) by {
        assert(perm2[k] == k);
        assert(kept_indices(out)[k] == k);
        assert(entry_normalized(again[k], out[k]));
        lemma_kept_indices_range(releases);
        assert(0 <= perm[k] < kept.len());
        assert(entry_normalized(out[k], releases[kept[perm[k]]]));
        lemma_entry_normalized_twice(out[k], releases[kept[perm[k]]], again[k]);
    }
}


/// A stored asset path that `is_safe_asset_stored_path` accepts resolves inside
/// the repository's `assets` directory: the components of its disk path are
/// those of the releases directory, then `assets`, then components none of
/// which is `..`.
pub proof fn law_safe_asset_resolves_inside_assets(root: Seq<char>, stored: Seq<char>)
    requires
        is_safe_stored_s(stored),
    ensures
        comps_s(asset_disk_path_s(root, stored)) == comps_s(meta_dir_s(root)) + comps_s(
            normalize_s(stored),
        ),
        comps_s(normalize_s(stored)).len() >= 1,
        comps_s(normalize_s(stored))[0] == assets_word_s(),
        !comps_s(normalize_s(stored)).contains(dotdot_s()),
        path_starts_with_s(
            asset_disk_path_s(root, stored),
            join_s(meta_dir_s(root), assets_word_s()),
        ),
{
    let n = normalize_s(stored);
    let meta = meta_dir_s(root);
    let a = assets_word_s();
    // The releases directory ends with `releases`, so no separator.
    lemma_join_last(join_s(root, deskvio_dir_s()), releases_dir_s());
    // The normalized path is `assets/<rest>`.
    assert(n.take(7) =~= assets_prefix_s());
    let rest = n.skip(7);
    assert(n =~= a + seq!['/'] + rest);
    lemma_split_concat(a, rest);
    assert forall|i: int| 0 <= i < a.len() implies a[i] != '/' by {}
    lemma_split_no_slash(a);
    assert(split_s(n)[0] == a);
    assert(!leading_curdir(n)) by {
        assert(a != dot_s()) by {
            assert(a.len() != dot_s().len());
        }
    }
    lemma_comps_join(meta, n);
    // Components of the normalized path: `assets`, then those of the rest.
    lemma_keep_concat(seq![a], split_s(rest));
    assert(a != dot_s()) by {
        assert(a.len() != dot_s().len());
    }
    assert(is_kept(a));
    assert(seq![a].drop_last() =~= Seq::<Seq<char>>::empty());
    assert(seq![a].last() == a);
    assert(keep_segs(Seq::<Seq<char>>::empty()) == Seq::<Seq<char>>::empty());
    assert(keep_segs(seq![a]) =~= seq![a]);
    assert(comps_s(n) =~= seq![a] + keep_segs(split_s(rest)));
    // `<releases dir>/assets` has the releases directory's components, then `assets`.
    assert(!leading_curdir(a)) by {
        assert(split_s(a)[0] == a);
        assert(a != dot_s()) by {
            assert(a.len() != dot_s().len());
        }
    }
    assert(!is_abs_s(a));
    lemma_comps_join(meta, a);
    assert(split_s(a) == seq![a]);
    assert(comps_s(a) =~= seq![a]);
    let whole = comps_s(asset_disk_path_s(root, stored));
    let pre = comps_s(join_s(meta, a));
    assert(pre =~= comps_s(meta) + seq![a]);
    assert(whole =~= comps_s(meta) + comps_s(n));
    assert(pre.len() <= whole.len());
    assert(whole.subrange(0, pre.len() as int) =~= pre);
}


/// A save deletes only files inside the repository's `assets` directory: every
/// path that `removed_asset_disk_paths` lists lies under it, component-wise.
pub proof fn law_save_deletes_only_inside_assets(
    root: Seq<char>,
    previous: Seq<ReleaseEntry>,
    next: Seq<ReleaseEntry>,
    removed: Seq<char>,
)
    requires
        exists|p: Seq<char>| is_removed(previous, next, p) && removed == #[trigger] asset_disk_path_s(root, p),
    ensures
        path_starts_with_s(removed, join_s(meta_dir_s(root), assets_word_s())),
{
    let p = choose|p: Seq<char>| is_removed(previous, next, p) && removed == #[trigger] asset_disk_path_s(root, p);
    law_safe_asset_resolves_inside_assets(root, p);
}

} // verus!
