//! Probes of the machine the library runs on: the clock, the random source
//! and the file system. What they return depends on the machine, so their
//! contracts state only what holds of every outcome.

use vstd::prelude::*;

verus! {

/// `Path::exists`: whether something is at `path` on disk right now.
/// Nothing is stated of the answer: it depends on the file system.
#[verifier::external_body]
pub(crate) fn path_exists(path: &str) -> bool {
    std::path::Path::new(path).exists()
}

/// `Path::is_file`: whether a regular file is at `path` on disk right now.
/// Nothing is stated of the answer: it depends on the file system.
#[verifier::external_body]
pub(crate) fn path_is_file(path: &str) -> bool {
    std::path::Path::new(path).is_file()
}

/// `Path::canonicalize`: the absolute path with symbolic links, `.` and `..`
/// resolved, or the text of the I/O error. The result depends on the file
/// system (and its form on the platform), so nothing is stated of it.
#[verifier::external_body]
pub(crate) fn canonicalize(path: &str) -> Result<String, String> {
    std::path::Path::new(path)
        .canonicalize()
        .map(|p| p.to_string_lossy().into_owned())
        .map_err(|e| e.to_string())
}

/// Seconds since the Unix epoch, from `SystemTime::now().duration_since(UNIX_EPOCH)`;
/// `None` when the clock is set before the epoch. The value depends on the clock.
#[verifier::external_body]
pub(crate) fn unix_time_secs() -> Option<u64> {
    std::time::SystemTime::now().duration_since(std::time::UNIX_EPOCH).ok().map(|d| d.as_secs())
}

/// A lowercase hexadecimal digit, as `uuid`'s simple format writes them.
pub open spec fn is_lower_hex(c: char) -> bool {
    ('0' <= c && c <= '9') || ('a' <= c && c <= 'f')
}

/// `uuid::Uuid::new_v4().simple().to_string()`: a fresh random identifier.
/// The crate's `Simple` formatter writes the 16 bytes as 32 lowercase hex digits,
/// which is what is stated; the digits themselves are random. (`new_v4` panics
/// only when the operating system's random source fails.)
#[verifier::external_body]
pub(crate) fn new_uuid_simple() -> (r: String)
    ensures
        r@.len() == 32,
        forall|i: int| 0 <= i < 32 ==> is_lower_hex(#[trigger] r@[i]),
{
    uuid::Uuid::new_v4().simple().to_string()
}

/// A fresh random identifier (clone sessions, backup and temporary file
/// names): 32 lowercase hex digits.
pub fn fresh_id() -> (r: String)
    ensures
        r@.len() == 32,
        forall|i: int| 0 <= i < 32 ==> is_lower_hex(#[trigger] r@[i]),
{
    new_uuid_simple()
}

/// The `i64` timestamp kept for a clock reading: `secs as i64`, or 0
/// when the clock is before the epoch.
pub fn secs_as_timestamp(secs: Option<u64>) -> (r: i64)
    ensures
        r == match secs {
            Some(s) => s as i64,
            None => 0i64,
        },
{
    match secs {
        Some(s) => s as i64,
        None => 0,
    }
}

/// The current Unix time in seconds, as `secs_as_timestamp` of the clock.
pub fn now_unix() -> i64 {
    secs_as_timestamp(unix_time_secs())
}

} // verus!
