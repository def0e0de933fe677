//! The limits applied when a ZIP archive is unpacked into a new import
//! directory, and the decision taken for each archive entry.

use vstd::prelude::*;
use crate::paths::{
    comps_s, component_count, components, dot_s, dotdot_s, is_abs_s, is_absolute, join_s, join_str,
    lemma_join_last, lemma_join_under_base, path_starts_with_s,
};
use crate::text::{chars_eq, concat_str, dec_s, ends_with_s, push_dec, starts_with_s, str_chars, views};

verus! {

/// Most entries an archive may have.
pub const MAX_ZIP_ENTRIES: usize = 20000;

/// Most bytes all entries may declare together.
pub const MAX_ZIP_TOTAL_UNPACKED_BYTES: u64 = 1000000000;

/// Most bytes one entry may declare.
pub const MAX_ZIP_SINGLE_FILE_BYTES: u64 = 256000000;

/// Most components an entry's path may have.
pub const MAX_ZIP_PATH_DEPTH: usize = 32;

/// The number of components of a path (`Path::components().count()`).
pub fn zip_path_depth(path: &str) -> (n: usize)
    ensures
        n == comps_s(path@).len(),
{
    component_count(&str_chars(path))
}

pub open spec fn too_many_entries_msg_s(n: nat) -> Seq<char> {
    "zip contains too many entries: "@ + dec_s(n) + " (max "@ + dec_s(20000) + ")"@
}

/// Refuses archives with more than `MAX_ZIP_ENTRIES` entries.
pub fn check_zip_entry_count(n: usize) -> (r: Result<(), String>)
    ensures
        n <= MAX_ZIP_ENTRIES ==> r is Ok,
        n > MAX_ZIP_ENTRIES ==> (r matches Err(m) && m@ == too_many_entries_msg_s(n as nat)),
{
    if n <= MAX_ZIP_ENTRIES {
        return Ok(());
    }
    let mut m = String::from_str("zip contains too many entries: ");
    push_dec(&mut m, n as u64);
    m.append(" (max ");
    push_dec(&mut m, 20000);
    m.append(")");
    proof {
        reveal_strlit("zip contains too many entries: ");
        reveal_strlit(" (max ");
        reveal_strlit(")");
    }
    assert(m@ =~= too_many_entries_msg_s(n as nat));
    Err(m)
}

/// What the archive says of one entry.
pub struct ZipEntryInfo {
    /// The entry's raw name (directories end with `/`).
    pub name: String,
    /// The entry's path after the archive library's sanitizing
    /// (`enclosed_name`); `None` when the name could escape the target.
    pub enclosed: Option<String>,
    /// The uncompressed size the entry declares.
    pub declared_size: u64,
}

/// What to do with an entry.
pub enum ZipEntryAction {
    /// The entry has no safe path: leave it out.
    Skip,
    /// Create this directory (and its parents).
    CreateDir(String),
    /// Create the parent directories and write the entry to this file.
    WriteFile(String),
}

pub open spec fn too_deep_msg_s(p: Seq<char>) -> Seq<char> {
    "zip entry path too deep: "@ + p + " (max depth "@ + dec_s(32) + ")"@
}

pub open spec fn too_large_msg_s(size: nat) -> Seq<char> {
    "zip entry too large: "@ + dec_s(size) + " bytes (max "@ + dec_s(256000000) + ")"@
}

pub open spec fn over_limit_msg_s(total: nat) -> Seq<char> {
    "zip unpack size exceeds limit: "@ + dec_s(total) + " bytes (max "@ + dec_s(1000000000)
        + ")"@
}

/// Whether the components of an entry path never climb above the starting
/// directory: each `..` takes back a normal component seen before it, `.`
/// counts for nothing.
pub open spec fn stays_below(cs: Seq<Seq<char>>, depth: int) -> bool
    decreases cs.len(),
{
    if cs.len() == 0 {
        true
    } else {
        let d = if cs[0] == dotdot_s() {
            depth - 1
        } else if cs[0] == dot_s() {
            depth
        } else {
            depth + 1
        };
        d >= 0 && stays_below(cs.drop_first(), d)
    }
}

/// An entry path that may be unpacked: relative (under the `/` path model of
/// `paths`), and never climbing above the directory it is unpacked into.
pub open spec fn safe_entry_path_s(p: Seq<char>) -> bool {
    !is_abs_s(p) && stays_below(comps_s(p), 0)
}

/// Components other than `..` never make a path climb: from any depth, a
/// component list without `..` stays below.
pub proof fn lemma_no_dotdot_stays_below(cs: Seq<Seq<char>>, depth: int)
    requires
        depth >= 0,
        !cs.contains(dotdot_s()),
    ensures
        stays_below(cs, depth),
    decreases cs.len(),
{
    if cs.len() > 0 {
        assert(cs[0] != dotdot_s());
        let d = if cs[0] == dot_s() {
            depth
        } else {
            depth + 1
        };
        assert forall|k: int| 0 <= k < cs.drop_first().len() implies cs.drop_first()[k] != dotdot_s() by {
            assert(cs.drop_first()[k] == cs[k + 1]);
        }
        lemma_no_dotdot_stays_below(cs.drop_first(), d);
    }
}

/// Only `..` can take an entry outside: every relative entry path whose
/// components include no `..` (such as `.git/HEAD` or `.gitignore`) may be
/// unpacked.
pub proof fn law_entry_without_dotdot_is_safe(p: Seq<char>)
    requires
        !is_abs_s(p),
        !comps_s(p).contains(dotdot_s()),
    ensures
        safe_entry_path_s(p),
{
    lemma_no_dotdot_stays_below(comps_s(p), 0);
}

/// A relative entry path that starts with `..` climbs out and is not unpacked.
pub proof fn law_leading_dotdot_is_unsafe(p: Seq<char>)
    requires
        comps_s(p).len() > 0,
        comps_s(p)[0] == dotdot_s(),
    ensures
        !safe_entry_path_s(p),
{
}

/// Whether an entry path may be unpacked (see `safe_entry_path_s`).
pub fn entry_path_stays_inside(p: &str) -> (r: bool)
    ensures
        r == safe_entry_path_s(p@),
{
    let v = str_chars(p);
    if is_absolute(&v) {
        return false;
    }
    let cs = components(&v);
    let dot: Vec<char> = vec!['.'];
    let dotdot: Vec<char> = vec!['.', '.'];
    assert(dot@ =~= dot_s());
    assert(dotdot@ =~= dotdot_s());
    let ghost all = views(cs@);
    let mut depth: usize = 0;
    let mut i: usize = 0;
    assert(all.skip(0) =~= all);
    while i < cs.len()
        invariant
            i <= cs.len(),
            depth <= i,
            all == views(cs@),
            all == comps_s(v@),
            v@ == p@,
            !is_abs_s(v@),
            dot@ == dot_s(),
            dotdot@ == dotdot_s(),
            stays_below(all, 0) == stays_below(all.skip(i as int), depth as int),
        decreases cs.len() - i,
    {
        assert(all.skip(i as int).drop_first() =~= all.skip(i + 1));
        assert(all.skip(i as int)[0] == all[i as int]);
        assert(all[i as int] == cs@[i as int]@);
        if chars_eq(&cs[i], &dotdot) {
            assert(all.skip(i as int)[0] == dotdot_s());
            if depth == 0 {
                assert(!stays_below(all.skip(i as int), depth as int));
                return false;
            }
            depth = depth - 1;
        } else if !chars_eq(&cs[i], &dot) {
            depth = depth + 1;
        }
        i = i + 1;
    }
    assert(all.skip(i as int) =~= Seq::<Seq<char>>::empty());
    true
}

/// Checks one entry against the limits and decides what to do with it. An
/// entry without a safe path (none from the archive library, or one that is
/// not a `safe_entry_path_s`) is left out. `total` is the sum of the sizes
/// declared by the entries accepted so far; on success the new sum is returned
/// with the action.
pub fn zip_entry_step(base_dest: &str, total: u64, entry: &ZipEntryInfo) -> (r: Result<
    (u64, ZipEntryAction),
    String,
>)
    ensures
        match entry.enclosed {
            None => r matches Ok((t, a)) && t == total && a is Skip,
            Some(p) => {
                let size = entry.declared_size;
                if !safe_entry_path_s(p@) {
                    r matches Ok((t, a)) && t == total && a is Skip
                } else if comps_s(p@).len() > 32 {
                    r matches Err(m) && m@ == too_deep_msg_s(p@)
                } else if size > 256000000 {
                    r matches Err(m) && m@ == too_large_msg_s(size as nat)
                } else if total + size > u64::MAX {
                    r matches Err(m) && m@ == "zip unpack size overflow"@
                } else if total + size > 1000000000 {
                    r matches Err(m) && m@ == over_limit_msg_s((total + size) as nat)
                } else if ends_with_s(entry.name@, seq!['/']) {
                    r matches Ok((t, ZipEntryAction::CreateDir(d))) && t == total + size && d@
                        == join_s(base_dest@, p@)
                } else {
                    r matches Ok((t, ZipEntryAction::WriteFile(f))) && t == total + size && f@
                        == join_s(base_dest@, p@)
                }
            },
        },
{
    let p = match &entry.enclosed {
        None => {
            return Ok((total, ZipEntryAction::Skip));
        },
        Some(p) => p,
    };
    if !entry_path_stays_inside(p.as_str()) {
        return Ok((total, ZipEntryAction::Skip));
    }
    if zip_path_depth(p.as_str()) > MAX_ZIP_PATH_DEPTH {
        let mut m = concat_str("zip entry path too deep: ", p.as_str());
        m.append(" (max depth ");
        push_dec(&mut m, 32);
        m.append(")");
        proof {
            reveal_strlit("zip entry path too deep: ");
            reveal_strlit(" (max depth ");
            reveal_strlit(")");
        }
        assert(m@ =~= too_deep_msg_s(p@));
        return Err(m);
    }
    let size = entry.declared_size;
    if size > MAX_ZIP_SINGLE_FILE_BYTES {
        let mut m = String::from_str("zip entry too large: ");
        push_dec(&mut m, size);
        m.append(" bytes (max ");
        push_dec(&mut m, 256000000);
        m.append(")");
        proof {
            reveal_strlit("zip entry too large: ");
            reveal_strlit(" bytes (max ");
            reveal_strlit(")");
        }
        assert(m@ =~= too_large_msg_s(size as nat));
        return Err(m);
    }
    let new_total = match total.checked_add(size) {
        None => {
            proof {
                reveal_strlit("zip unpack size overflow");
            }
            return Err(String::from_str("zip unpack size overflow"));
        },
        Some(t) => t,
    };
    if new_total > MAX_ZIP_TOTAL_UNPACKED_BYTES {
        let mut m = String::from_str("zip unpack size exceeds limit: ");
        push_dec(&mut m, new_total);
        m.append(" bytes (max ");
        push_dec(&mut m, 1000000000);
        m.append(")");
        proof {
            reveal_strlit("zip unpack size exceeds limit: ");
            reveal_strlit(" bytes (max ");
            reveal_strlit(")");
        }
        assert(m@ =~= over_limit_msg_s(new_total as nat));
        return Err(m);
    }
    let out = join_str(base_dest, p.as_str());
    let name = str_chars(entry.name.as_str());
    if name.len() > 0 && name[name.len() - 1] == '/' {
        assert(name@.skip(name@.len() - 1) =~= seq!['/']);
        Ok((new_total, ZipEntryAction::CreateDir(out)))
    } else {
        proof {
            if name@.len() >= 1 {
                assert(name@.skip(name@.len() - 1)[0] == name@[name@.len() - 1]);
            }
        }
        Ok((new_total, ZipEntryAction::WriteFile(out)))
    }
}


// ---------------------------------------------------------------------------
// Reading the archive (through the `zip` crate).
// ---------------------------------------------------------------------------

#[verifier::external_type_specification]
#[verifier::external_body]
#[verifier::reject_recursive_types(T)]
pub struct ExCursor<T>(std::io::Cursor<T>);

#[verifier::external_type_specification]
#[verifier::external_body]
#[verifier::reject_recursive_types(R)]
pub struct ExZipArchive<R>(zip::ZipArchive<R>);

#[verifier::external_type_specification]
#[verifier::external_body]
pub struct ExZipError(zip::result::ZipError);

/// An archive read from bytes held in memory.
pub type MemArchive = zip::ZipArchive<std::io::Cursor<Vec<u8>>>;

/// Whether `ZipArchive::new` reads some bytes as an archive.
pub uninterp spec fn zip_readable_s(data: Seq<u8>) -> bool;

/// What an archive holds: its entries, by name, in the order of its central
/// directory.
pub uninterp spec fn zip_entry_names_s(archive: zip::ZipArchive<std::io::Cursor<Vec<u8>>>) -> Seq<Seq<char>>;

/// `ZipArchive::new` over the archive's bytes: reads the central directory.
/// Whether that succeeds depends on the bytes alone and is named
/// (`zip_readable_s`).
#[verifier::external_body]
fn zip_open(data: Vec<u8>) -> (r: Result<zip::ZipArchive<std::io::Cursor<Vec<u8>>>, zip::result::ZipError>)
    ensures
        (r is Ok) == zip_readable_s(data@),
{
    zip::ZipArchive::new(std::io::Cursor::new(data))
}

/// `ZipArchive::len`: the number of entries the archive holds.
#[verifier::external_body]
fn zip_len(archive: &zip::ZipArchive<std::io::Cursor<Vec<u8>>>) -> (r: usize)
    ensures
        r == zip_entry_names_s(*archive).len(),
{
    archive.len()
}

/// The uncompressed sizes the archive's entries declare, in the order of its
/// central directory.
pub uninterp spec fn zip_entry_sizes_s(archive: zip::ZipArchive<std::io::Cursor<Vec<u8>>>) -> Seq<u64>;

/// What holds of the safe path the archive library gives for an entry, on
/// every platform: it is the entry's name itself, there is none for a name
/// holding a NUL character, and none for a name starting with `/`.
pub open spec fn enclosed_facts(info: ZipEntryInfo) -> bool {
    &&& info.enclosed matches Some(p) ==> p@ == info.name@
    &&& info.name@.contains('\0') ==> info.enclosed is None
    &&& is_abs_s(info.name@) ==> info.enclosed is None
}

/// `ZipArchive::by_index(i)`, read as the entry's name (`ZipFile::name`), its
/// safe path (`ZipFile::enclosed_name`) and its declared size (`ZipFile::size`).
/// The name and size are those the archive holds at index `i`. Of the safe
/// path only what holds on every platform is stated: it is the name itself
/// when there is one, there is none when the name holds a NUL character, and
/// a name that starts with `/` (a root on every platform) has none. Which
/// other names are refused depends on the platform's path rules (on Windows
/// `\` and drive prefixes count too) and is not stated. Reading the entry
/// leaves the archive's entries as they were. Whether reading succeeds is not
/// stated.
#[verifier::external_body]
fn zip_by_index_info(archive: &mut zip::ZipArchive<std::io::Cursor<Vec<u8>>>, i: usize) -> (r: Result<
    ZipEntryInfo,
    zip::result::ZipError,
>)
    ensures
        zip_entry_names_s(*final(archive)) == zip_entry_names_s(*old(archive)),
        zip_entry_sizes_s(*final(archive)) == zip_entry_sizes_s(*old(archive)),
        r matches Ok(info) ==> i < zip_entry_names_s(*old(archive)).len() && info.name@
            == zip_entry_names_s(*old(archive))[i as int] && i < zip_entry_sizes_s(
            *old(archive),
        ).len() && info.declared_size == zip_entry_sizes_s(*old(archive))[i as int]
            && enclosed_facts(info),
{
    archive.by_index(i).map(|f| ZipEntryInfo {
        name: f.name().to_string(),
        enclosed: f.enclosed_name().map(|p| p.to_string_lossy().into_owned()),
        declared_size: f.size(),
    })
}

/// The text of a `zip` error (`Display`). Not stated.
#[verifier::external_body]
fn zip_error_text(e: &zip::result::ZipError) -> String {
    e.to_string()
}

/// `invalid zip: `
pub open spec fn invalid_zip_s() -> Seq<char> {
    "invalid zip: "@
}

/// Reads an archive from its bytes; bytes that are not a readable archive are
/// refused with `invalid zip: ` and the reason.
pub fn open_archive(data: Vec<u8>) -> (r: Result<MemArchive, String>)
    ensures
        (r is Ok) == zip_readable_s(data@),
        r matches Err(m) ==> starts_with_s(m@, invalid_zip_s()),
{
    match zip_open(data) {
        Ok(a) => Ok(a),
        Err(e) => {
            let m = concat_str("invalid zip: ", zip_error_text(&e).as_str());
            proof {
                reveal_strlit("invalid zip: ");
                assert(m@.take(13) =~= invalid_zip_s());
            }
            Err(m)
        },
    }
}

/// The number of entries of an archive, refused (see `check_zip_entry_count`)
/// when it is over `MAX_ZIP_ENTRIES`.
pub fn checked_entry_count(archive: &MemArchive) -> (r: Result<usize, String>)
    ensures
        zip_entry_names_s(*archive).len() <= MAX_ZIP_ENTRIES ==> (r matches Ok(n) && n
            == zip_entry_names_s(*archive).len()),
        zip_entry_names_s(*archive).len() > MAX_ZIP_ENTRIES ==> (r matches Err(m) && m@
            == too_many_entries_msg_s(zip_entry_names_s(*archive).len())),
{
    let n = zip_len(archive);
    match check_zip_entry_count(n) {
        Ok(()) => Ok(n),
        Err(m) => Err(m),
    }
}

/// What the archive says of entry `i`: its name, its safe path (see
/// `enclosed_facts`) and its declared size, or the text of the error reading
/// it.
pub fn zip_entry_info(archive: &mut MemArchive, i: usize) -> (r: Result<ZipEntryInfo, String>)
    ensures
        zip_entry_names_s(*final(archive)) == zip_entry_names_s(*old(archive)),
        zip_entry_sizes_s(*final(archive)) == zip_entry_sizes_s(*old(archive)),
        r matches Ok(info) ==> i < zip_entry_names_s(*old(archive)).len() && info.name@
            == zip_entry_names_s(*old(archive))[i as int] && i < zip_entry_sizes_s(
            *old(archive),
        ).len() && info.declared_size == zip_entry_sizes_s(*old(archive))[i as int]
            && enclosed_facts(info),
{
    match zip_by_index_info(archive, i) {
        Ok(info) => Ok(info),
        Err(e) => Err(zip_error_text(&e)),
    }
}


/// `import-<millis>`
pub open spec fn import_dir_name_s(millis: nat) -> Seq<char> {
    "import-"@ + dec_s(millis)
}

/// The new directory an archive is unpacked into: `<base>/import-<millis>`,
/// named after the time in milliseconds.
pub fn import_dest(base: &str, millis: u64) -> (r: String)
    ensures
        r@ == join_s(base@, import_dir_name_s(millis as nat)),
{
    let mut name = String::from_str("import-");
    push_dec(&mut name, millis);
    proof {
        reveal_strlit("import-");
    }
    join_str(base, name.as_str())
}


/// Every file or directory an entry with a relative path is unpacked to lies
/// under the import directory, component-wise (the import directory ends with
/// its own name, never with a separator).
pub proof fn law_entries_unpack_inside_import_dir(base: Seq<char>, millis: nat, entry_path: Seq<char>)
    requires
        !is_abs_s(entry_path),
    ensures
        path_starts_with_s(
            join_s(join_s(base, import_dir_name_s(millis)), entry_path),
            join_s(base, import_dir_name_s(millis)),
        ),
{
    let name = import_dir_name_s(millis);
    reveal_strlit("import-");
    assert(name[0] == 'i');
    assert(!is_abs_s(name));
    lemma_join_last(base, name);
    crate::releases::lemma_dec_digits(millis);
    assert(name.last() == dec_s(millis).last());
    assert(dec_s(millis)[dec_s(millis).len() - 1] != '/');
    lemma_join_under_base(join_s(base, name), entry_path);
}

} // verus!
