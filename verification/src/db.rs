//! The hub database: the registered repositories and a cache of tree listings,
//! kept in SQLite through `rusqlite`.
//!
//! What SQLite stores is on disk, so nothing here claims what a query returns.
//! The rules around the queries are stated: how a row becomes a `RepoRecord`,
//! how tags are encoded, how a search text becomes a `LIKE` pattern, when a
//! cached tree listing is current, how many cache rows are pruned, and which
//! schema errors are tolerated.

use vstd::prelude::*;
use crate::releases::str_views;
use crate::sys::now_unix;
use crate::text::{
    chars_eq, chars_to_string, contains_chars, contains_s, lower_chars, lower_s, str_chars,
    string_push,
};

verus! {

#[verifier::external_type_specification]
#[verifier::external_body]
pub struct ExConnection(rusqlite::Connection);

#[verifier::external_type_specification]
#[verifier::external_body]
pub struct ExSqliteError(rusqlite::Error);

#[verifier::external_type_specification]
#[verifier::external_body]
pub struct ExStatement<'conn>(rusqlite::Statement<'conn>);

#[verifier::external_type_specification]
#[verifier::external_body]
pub struct ExRows<'stmt>(rusqlite::Rows<'stmt>);

#[verifier::external_type_specification]
#[verifier::external_body]
pub struct ExRow<'stmt>(rusqlite::Row<'stmt>);

/// A value bound to a statement parameter.
pub enum SqlParam {
    Null,
    Integer(i64),
    Text(String),
}

// ---------------------------------------------------------------------------
// Calls into rusqlite and serde_json.
// ---------------------------------------------------------------------------

/// `rusqlite::Connection::open`: opens (creating if needed) the database file.
/// The outcome depends on the file system; nothing is stated of it.
#[verifier::external_body]
fn sql_open(path: &str) -> Result<rusqlite::Connection, rusqlite::Error> {
    rusqlite::Connection::open(path)
}

/// `Connection::execute_batch`: runs semicolon-separated statements. The
/// outcome depends on the database; nothing is stated of it.
#[verifier::external_body]
fn sql_execute_batch(conn: &rusqlite::Connection, sql: &str) -> Result<(), rusqlite::Error> {
    conn.execute_batch(sql)
}

/// `Connection::execute` with positional parameters (each converted to
/// `rusqlite::types::Value`): runs one statement and returns the number of rows
/// it changed. The outcome depends on the database; nothing is stated of it.
#[verifier::external_body]
fn sql_execute(conn: &rusqlite::Connection, sql: &str, params: &[SqlParam]) -> Result<usize, rusqlite::Error> {
    conn.execute(sql, rusqlite::params_from_iter(params.iter().map(|p| match p {
        SqlParam::Null => rusqlite::types::Value::Null,
        SqlParam::Integer(i) => rusqlite::types::Value::Integer(*i),
        SqlParam::Text(s) => rusqlite::types::Value::Text(s.clone()),
    })))
}

/// `Connection::prepare`: compiles one statement. Nothing is stated of the outcome.
#[verifier::external_body]
fn sql_prepare<'conn>(conn: &'conn rusqlite::Connection, sql: &str) -> Result<rusqlite::Statement<'conn>, rusqlite::Error> {
    conn.prepare(sql)
}

/// `Statement::query` with positional parameters (converted as in
/// `sql_execute`): starts reading result rows. Nothing is stated of the outcome.
#[verifier::external_body]
fn sql_query<'stmt>(stmt: &'stmt mut rusqlite::Statement<'_>, params: &[SqlParam]) -> Result<rusqlite::Rows<'stmt>, rusqlite::Error> {
    stmt.query(rusqlite::params_from_iter(params.iter().map(|p| match p {
        SqlParam::Null => rusqlite::types::Value::Null,
        SqlParam::Integer(i) => rusqlite::types::Value::Integer(*i),
        SqlParam::Text(s) => rusqlite::types::Value::Text(s.clone()),
    })))
}

/// `Rows::next`: the next result row, or `None` after the last. Nothing is
/// stated of the outcome.
#[verifier::external_body]
fn sql_next<'a, 'stmt>(rows: &'a mut rusqlite::Rows<'stmt>) -> Result<Option<&'a rusqlite::Row<'stmt>>, rusqlite::Error> {
    rows.next()
}

/// `Row::get`: column `idx` of a row, converted to `T` (an error when the
/// column's value does not convert). Nothing is stated of the outcome.
#[verifier::external_body]
fn sql_get<T: rusqlite::types::FromSql>(row: &rusqlite::Row<'_>, idx: usize) -> Result<T, rusqlite::Error> {
    row.get(idx)
}

/// `Connection::query_row` with positional parameters (converted as in
/// `sql_execute`), reading the first row with `read_repo_row`; an error
/// (`QueryReturnedNoRows`) when there is none. What is stated is what the
/// crate's source shows: a record it returns is what `read_repo_row` gave for a
/// row (which is the reading of a stored row). Which row, or whether there is
/// one, depends on the database.
#[verifier::external_body]
fn sql_query_row_record(conn: &rusqlite::Connection, sql: &str, params: &[SqlParam]) -> (r: Result<RepoRecord, rusqlite::Error>)
    ensures
        r matches Ok(rec) ==> is_stored_record(rec),
{
    conn.query_row(sql, rusqlite::params_from_iter(params.iter().map(|p| match p {
        SqlParam::Null => rusqlite::types::Value::Null,
        SqlParam::Integer(i) => rusqlite::types::Value::Integer(*i),
        SqlParam::Text(s) => rusqlite::types::Value::Text(s.clone()),
    })), |row| read_repo_row(row))
}

/// Whether an error is `rusqlite::Error::QueryReturnedNoRows` (the error that
/// `OptionalExtension::optional` turns into `None`).
#[verifier::external_body]
fn is_no_rows(e: &rusqlite::Error) -> bool {
    matches!(e, rusqlite::Error::QueryReturnedNoRows)
}

/// The text of a SQLite error (`Display`). Nothing is stated of the text.
#[verifier::external_body]
pub(crate) fn error_text(e: &rusqlite::Error) -> String {
    e.to_string()
}

/// What `serde_json::from_str::<Vec<String>>` gives for a text: the list of
/// strings it encodes, or `None` when it is not a JSON array of strings.
pub uninterp spec fn parse_string_list_s(text: Seq<char>) -> Option<Seq<Seq<char>>>;

/// What `serde_json::to_string` gives for a list of strings (`None` if it
/// fails).
pub uninterp spec fn string_list_json_s(list: Seq<Seq<char>>) -> Option<Seq<char>>;

/// `serde_json::from_str::<Vec<String>>`, with the error dropped.
#[verifier::external_body]
pub(crate) fn parse_string_list(text: &str) -> (r: Option<Vec<String>>)
    ensures
        match r {
            Some(v) => parse_string_list_s(text@) == Some(str_views(v@)),
            None => parse_string_list_s(text@) is None,
        },
{
    serde_json::from_str::<Vec<String>>(text).ok()
}

/// `serde_json::to_string` of a list of strings, with the error dropped. A JSON
/// array of strings that serde_json writes is read back by serde_json as the
/// same list; that round trip is stated too.
#[verifier::external_body]
pub(crate) fn string_list_json(list: &[String]) -> (r: Option<String>)
    ensures
        string_list_json_s(str_views(list@)) == match r {
            Some(j) => Some(j@),
            None => None::<Seq<char>>,
        },
        r matches Some(j) ==> parse_string_list_s(j@) == Some(str_views(list@)),
{
    serde_json::to_string(list).ok()
}

/// Whether `serde_json::from_str::<Vec<serde_json::Value>>` accepts a text: a
/// JSON array.
pub uninterp spec fn json_list_s(text: Seq<char>) -> bool;

/// `serde_json::from_str::<Vec<serde_json::Value>>`, read as whether it succeeds.
/// Whether a text is a JSON array depends on the text alone and is named.
#[verifier::external_body]
fn parses_as_json_list(text: &str) -> (r: bool)
    ensures
        r == json_list_s(text@),
{
    serde_json::from_str::<Vec<serde_json::Value>>(text).is_ok()
}

// ---------------------------------------------------------------------------
// Records.
// ---------------------------------------------------------------------------

/// A registered repository.
#[derive(Debug, Clone)]
pub struct RepoRecord {
    pub id: i64,
    pub path: String,
    pub display_name: Option<String>,
    pub project_intro: Option<String>,
    pub is_favorite: bool,
    pub tags: Vec<String>,
    pub last_opened_at: Option<i64>,
    pub is_bare: bool,
    pub last_head: Option<String>,
    pub created_at: i64,
}

/// The tags stored as `tags_json`: the list it encodes, or none when it does
/// not encode one.
pub open spec fn tags_of_json(tags_json: Seq<char>) -> Seq<Seq<char>> {
    match parse_string_list_s(tags_json) {
        Some(v) => v,
        None => Seq::empty(),
    }
}

pub open spec fn opt_view(o: Option<String>) -> Option<Seq<char>> {
    match o {
        Some(s) => Some(s@),
        None => None,
    }
}

/// The columns of a `repos` row, as stored.
pub struct RepoRow {
    pub id: i64,
    pub path: String,
    pub display_name: Option<String>,
    pub project_intro: Option<String>,
    pub is_favorite: i64,
    pub tags_json: String,
    pub last_opened_at: Option<i64>,
    pub is_bare: i64,
    pub last_head: Option<String>,
    pub created_at: i64,
}

/// `r` is the record that the stored row `row` reads as: flags are non-zero
/// integers, tags are decoded from JSON (an undecodable value gives no tags),
/// the rest is as stored.
pub open spec fn decodes_row(r: RepoRecord, row: RepoRow) -> bool {
    &&& r.id == row.id
    &&& r.path@ == row.path@
    &&& opt_view(r.display_name) == opt_view(row.display_name)
    &&& opt_view(r.project_intro) == opt_view(row.project_intro)
    &&& r.is_favorite == (row.is_favorite != 0)
    &&& str_views(r.tags@) == tags_of_json(row.tags_json@)
    &&& r.last_opened_at == row.last_opened_at
    &&& r.is_bare == (row.is_bare != 0)
    &&& opt_view(r.last_head) == opt_view(row.last_head)
    &&& r.created_at == row.created_at
}

/// `r` is the reading of some stored row: its tags are what some stored JSON
/// text decodes to (see `decodes_row`).
pub open spec fn is_stored_record(r: RepoRecord) -> bool {
    exists|row: RepoRow| #[trigger] decodes_row(r, row)
}

/// Every record of `v` is the reading of a stored row.
pub open spec fn all_stored_records(v: Seq<RepoRecord>) -> bool {
    forall|i: int| 0 <= i < v.len() ==> is_stored_record(#[trigger] v[i])
}

/// A stored row as a record: flags are non-zero integers, tags are decoded
/// from JSON (an undecodable value gives no tags), the rest is as stored.
pub fn record_from_row(row: RepoRow) -> (r: RepoRecord)
    ensures
        decodes_row(r, row),
        r.id == row.id,
        r.path@ == row.path@,
        opt_view(r.display_name) == opt_view(row.display_name),
        opt_view(r.project_intro) == opt_view(row.project_intro),
        r.is_favorite == (row.is_favorite != 0),
        str_views(r.tags@) == tags_of_json(row.tags_json@),
        r.last_opened_at == row.last_opened_at,
        r.is_bare == (row.is_bare != 0),
        opt_view(r.last_head) == opt_view(row.last_head),
        r.created_at == row.created_at,
{
    let tags = match parse_string_list(row.tags_json.as_str()) {
        Some(v) => v,
        None => {
            let v: Vec<String> = Vec::new();
            assert(str_views(v@) =~= Seq::<Seq<char>>::empty());
            v
        },
    };
    RepoRecord {
        id: row.id,
        path: row.path,
        display_name: row.display_name,
        project_intro: row.project_intro,
        is_favorite: row.is_favorite != 0,
        tags,
        last_opened_at: row.last_opened_at,
        is_bare: row.is_bare != 0,
        last_head: row.last_head,
        created_at: row.created_at,
    }
}

/// `[]`
pub open spec fn empty_json_list_s() -> Seq<char> {
    seq!['[', ']']
}

/// The JSON stored for a tag list: `serde_json`'s encoding, or `[]` should
/// encoding fail.
pub open spec fn stored_tags_s(tags: Seq<Seq<char>>) -> Seq<char> {
    match string_list_json_s(tags) {
        Some(j) => j,
        None => empty_json_list_s(),
    }
}

/// The JSON stored for a tag list (see `stored_tags_s`).
pub fn tags_json(tags: &[String]) -> (r: String)
    ensures
        r@ == stored_tags_s(str_views(tags@)),
        string_list_json_s(str_views(tags@)) is Some ==> tags_of_json(r@) == str_views(tags@),
{
    match string_list_json(tags) {
        Some(j) => j,
        None => {
            let r = String::from_str("[]");
            proof {
                reveal_strlit("[]");
            }
            assert(r@ =~= empty_json_list_s());
            r
        },
    }
}

// ---------------------------------------------------------------------------
// Search, tree cache and schema rules.
// ---------------------------------------------------------------------------

/// `query.replace('%', "\%").replace('_', "\_")` inside `%...%`: the `LIKE`
/// pattern that matches the query text anywhere, with `\` as escape.
pub open spec fn like_escape_s(q: Seq<char>) -> Seq<char>
    decreases q.len(),
{
    if q.len() == 0 {
        Seq::empty()
    } else {
        let c = q.last();
        let r = like_escape_s(q.drop_last());
        if c == '%' || c == '_' {
            r + seq!['\\', c]
        } else {
            r.push(c)
        }
    }
}

pub open spec fn like_pattern_s(q: Seq<char>) -> Seq<char> {
    seq!['%'] + like_escape_s(q) + seq!['%']
}

pub fn like_pattern(query: &str) -> (r: String)
    ensures
        r@ == like_pattern_s(query@),
{
    let q = str_chars(query);
    let mut out = String::new();
    string_push(&mut out, '%');
    let mut i: usize = 0;
    while i < q.len()
        invariant
            i <= q.len(),
            out@ == seq!['%'] + like_escape_s(q@.take(i as int)),
        decreases q.len() - i,
    {
        let c = q[i];
        proof {
            assert(q@.take(i + 1).drop_last() =~= q@.take(i as int));
        }
        if c == '%' || c == '_' {
            string_push(&mut out, '\\');
        }
        string_push(&mut out, c);
        i = i + 1;
        assert(out@ =~= seq!['%'] + like_escape_s(q@.take(i as int)));
    }
    assert(q@.take(q.len() as int) =~= q@);
    string_push(&mut out, '%');
    out
}

/// `duplicate column name`
pub open spec fn duplicate_column_s() -> Seq<char> {
    "duplicate column name"@
}

/// Adding an existing column fails with this error, which opening tolerates.
pub fn is_duplicate_column_message(msg: &str) -> (r: bool)
    ensures
        r == contains_s(lower_s(msg@), duplicate_column_s()),
{
    let m = lower_chars(&str_chars(msg));
    let pat = str_chars("duplicate column name");
    contains_chars(&m, &pat)
}

/// Rows kept in the tree cache.
pub const TREE_CACHE_MAX_ROWS: usize = 48;

/// Largest tree listing (JSON bytes) that is cached.
pub const TREE_CACHE_MAX_JSON_BYTES: usize = 12582912;

/// How many of the oldest cache rows to delete when `count` rows are stored:
/// the excess over `max_rows`, if any.
pub fn prune_excess(count: i64, max_rows: usize) -> (r: Option<i64>)
    ensures
        count - max_rows > 0 ==> r == Some((count - max_rows) as i64),
        count - max_rows <= 0 ==> r is None,
{
    if max_rows as u64 > i64::MAX as u64 {
        return None;
    }
    let m = max_rows as i64;
    if count <= m {
        None
    } else {
        Some(count - m)
    }
}

/// A cached listing is used only when it was cached for the revision the
/// key resolves to now and its JSON still reads as a list.
pub fn cache_hit(cached: Option<(String, String)>, current_resolved: &str) -> (r: Option<String>)
    ensures
        match cached {
            None => r is None,
            Some((rev, json)) => if rev@ == current_resolved@ && json_list_s(json@) {
                r matches Some(j) && j@ == json@
            } else {
                r is None
            },
        },
{
    match cached {
        None => None,
        Some((rev, json)) => {
            if chars_eq(&str_chars(rev.as_str()), &str_chars(current_resolved))
                && parses_as_json_list(json.as_str()) {
                Some(json)
            } else {
                None
            }
        },
    }
}

pub open spec fn flag_s(b: bool) -> i64 {
    if b { 1 } else { 0 }
}

fn flag(b: bool) -> (r: i64)
    ensures
        r == flag_s(b),
{
    if b { 1 } else { 0 }
}

fn opt_text(o: Option<String>) -> (r: SqlParam)
    ensures
        match o {
            Some(s) => r matches SqlParam::Text(t) && t@ == s@,
            None => r is Null,
        },
{
    match o {
        Some(s) => SqlParam::Text(s),
        None => SqlParam::Null,
    }
}


// ---------------------------------------------------------------------------
// Statement parameters.
// ---------------------------------------------------------------------------

/// `p` is the integer parameter `v`.
pub open spec fn is_int_param(p: SqlParam, v: i64) -> bool {
    p matches SqlParam::Integer(x) && x == v
}

/// `p` is the text parameter `t`.
pub open spec fn is_text_param(p: SqlParam, t: Seq<char>) -> bool {
    p matches SqlParam::Text(x) && x@ == t
}

/// `p` is the text `t` when there is one, `NULL` otherwise.
pub open spec fn is_opt_text_param(p: SqlParam, o: Option<Seq<char>>) -> bool {
    match o {
        Some(t) => is_text_param(p, t),
        None => p is Null,
    }
}

pub open spec fn opt_str_view(o: Option<&str>) -> Option<Seq<char>> {
    match o {
        Some(s) => Some(s@),
        None => None,
    }
}

/// One integer parameter (`?1`): an id, or a row count.
pub fn int_params(v: i64) -> (p: Vec<SqlParam>)
    ensures
        p@.len() == 1,
        is_int_param(p@[0], v),
{
    vec![SqlParam::Integer(v)]
}

/// `?1` is the search pattern of `query` (see `like_pattern`).
pub fn search_params(query: &str) -> (p: Vec<SqlParam>)
    ensures
        p@.len() == 1,
        is_text_param(p@[0], like_pattern_s(query@)),
{
    vec![SqlParam::Text(like_pattern(query))]
}

/// Registering a repository: path, display name (or `NULL`), the empty tag
/// list `[]`, the bare flag as 1 or 0, the head (or `NULL`), the time.
pub fn insert_params(
    path: &str,
    display_name: Option<String>,
    is_bare: bool,
    last_head: Option<String>,
    now: i64,
) -> (p: Vec<SqlParam>)
    ensures
        p@.len() == 6,
        is_text_param(p@[0], path@),
        is_opt_text_param(p@[1], opt_view(display_name)),
        is_text_param(p@[2], empty_json_list_s()),
        is_int_param(p@[3], flag_s(is_bare)),
        is_opt_text_param(p@[4], opt_view(last_head)),
        is_int_param(p@[5], now),
{
    let empty = String::from_str("[]");
    proof {
        reveal_strlit("[]");
        assert(empty@ =~= empty_json_list_s());
    }
    vec![
        SqlParam::Text(String::from_str(path)),
        opt_text(display_name),
        SqlParam::Text(empty),
        SqlParam::Integer(flag(is_bare)),
        opt_text(last_head),
        SqlParam::Integer(now),
    ]
}

/// Finding a repository by path: `?1` is the path.
pub fn path_params(path: &str) -> (p: Vec<SqlParam>)
    ensures
        p@.len() == 1,
        is_text_param(p@[0], path@),
{
    vec![SqlParam::Text(String::from_str(path))]
}

/// Setting the favorite flag: `?1` is 1 or 0, `?2` the id.
pub fn favorite_params(id: i64, favorite: bool) -> (p: Vec<SqlParam>)
    ensures
        p@.len() == 2,
        is_int_param(p@[0], flag_s(favorite)),
        is_int_param(p@[1], id),
{
    vec![SqlParam::Integer(flag(favorite)), SqlParam::Integer(id)]
}

/// Setting the tags: `?1` is their stored JSON (see `tags_json`), `?2` the id.
pub fn tags_params(id: i64, tags: &[String]) -> (p: Vec<SqlParam>)
    ensures
        p@.len() == 2,
        is_text_param(p@[0], stored_tags_s(str_views(tags@))),
        is_int_param(p@[1], id),
{
    vec![SqlParam::Text(tags_json(tags)), SqlParam::Integer(id)]
}

/// Setting an optional text column (display name, intro): `?1` is the text or
/// `NULL`, `?2` the id.
pub fn optional_text_params(id: i64, value: Option<String>) -> (p: Vec<SqlParam>)
    ensures
        p@.len() == 2,
        is_opt_text_param(p@[0], opt_view(value)),
        is_int_param(p@[1], id),
{
    vec![opt_text(value), SqlParam::Integer(id)]
}

/// Setting the cached head: `?1` is the head or `NULL`, `?2` the id.
pub fn head_params(id: i64, head: Option<&str>) -> (p: Vec<SqlParam>)
    ensures
        p@.len() == 2,
        is_opt_text_param(p@[0], opt_str_view(head)),
        is_int_param(p@[1], id),
{
    let h = match head {
        Some(s) => SqlParam::Text(String::from_str(s)),
        None => SqlParam::Null,
    };
    vec![h, SqlParam::Integer(id)]
}

/// Setting the last-opened time: `?1` is the time, `?2` the id.
pub fn opened_params(id: i64, now: i64) -> (p: Vec<SqlParam>)
    ensures
        p@.len() == 2,
        is_int_param(p@[0], now),
        is_int_param(p@[1], id),
{
    vec![SqlParam::Integer(now), SqlParam::Integer(id)]
}

/// Looking up a cached listing: `?1` is the repository id, `?2` the revision key.
pub fn cache_key_params(repo_id: i64, rev_key: &str) -> (p: Vec<SqlParam>)
    ensures
        p@.len() == 2,
        is_int_param(p@[0], repo_id),
        is_text_param(p@[1], rev_key@),
{
    vec![SqlParam::Integer(repo_id), SqlParam::Text(String::from_str(rev_key))]
}

/// Caching a listing: repository id, revision key, resolved revision, the
/// listing's JSON, its length in bytes, the time.
pub fn cache_put_params(
    repo_id: i64,
    rev_key: &str,
    resolved_rev: &str,
    paths_json: &str,
    byte_len: i64,
    now: i64,
) -> (p: Vec<SqlParam>)
    ensures
        p@.len() == 6,
        is_int_param(p@[0], repo_id),
        is_text_param(p@[1], rev_key@),
        is_text_param(p@[2], resolved_rev@),
        is_text_param(p@[3], paths_json@),
        is_int_param(p@[4], byte_len),
        is_int_param(p@[5], now),
{
    vec![
        SqlParam::Integer(repo_id),
        SqlParam::Text(String::from_str(rev_key)),
        SqlParam::Text(String::from_str(resolved_rev)),
        SqlParam::Text(String::from_str(paths_json)),
        SqlParam::Integer(byte_len),
        SqlParam::Integer(now),
    ]
}

// ---------------------------------------------------------------------------
// The database.
// ---------------------------------------------------------------------------

/// A looked-up repository, or the error `repository not found` when there is
/// none.
pub fn require_found(found: Option<RepoRecord>) -> (r: Result<RepoRecord, String>)
    ensures
        match found {
            Some(rec) => r == Ok::<RepoRecord, String>(rec),
            None => r matches Err(m) && m@ == "repository not found"@,
        },
{
    match found {
        Some(rec) => Ok(rec),
        None => {
            proof {
                reveal_strlit("repository not found");
            }
            Err(String::from_str("repository not found"))
        },
    }
}

/// `query` occurs in `field`, ignoring ASCII case.
pub open spec fn field_matches_s(field: Seq<char>, query: Seq<char>) -> bool {
    contains_s(lower_s(field), lower_s(query))
}

/// An optional text, empty when absent.
pub open spec fn text_or_empty_s(o: Option<String>) -> Seq<char> {
    match o {
        Some(t) => t@,
        None => Seq::empty(),
    }
}

/// A record matches a search query when its path, display name, intro or
/// stored tags text holds the query, ignoring ASCII case.
pub open spec fn record_matches_s(r: RepoRecord, query: Seq<char>) -> bool {
    ||| field_matches_s(r.path@, query)
    ||| field_matches_s(text_or_empty_s(r.display_name), query)
    ||| field_matches_s(text_or_empty_s(r.project_intro), query)
    ||| field_matches_s(stored_tags_s(str_views(r.tags@)), query)
}

/// The records that match the query, in order.
pub open spec fn matching_s(recs: Seq<RepoRecord>, query: Seq<char>) -> Seq<RepoRecord>
    decreases recs.len(),
{
    if recs.len() == 0 {
        Seq::empty()
    } else {
        let r = matching_s(recs.drop_last(), query);
        if record_matches_s(recs.last(), query) {
            r.push(recs.last())
        } else {
            r
        }
    }
}

/// Whether a record matches a query given in lower case (see `record_matches_s`).
fn record_matches(r: &RepoRecord, query_lower: &Vec<char>) -> (b: bool)
    requires
        query_lower@ == lower_s(query_lower@),
    ensures
        b == record_matches_s(*r, query_lower@),
{
    proof {
        assert(lower_s(query_lower@) =~= query_lower@);
    }
    let empty: Vec<char> = Vec::new();
    if contains_chars(&lower_chars(&str_chars(r.path.as_str())), query_lower) {
        return true;
    }
    let name = match &r.display_name {
        Some(n) => str_chars(n.as_str()),
        None => Vec::new(),
    };
    assert(name@ =~= text_or_empty_s(r.display_name));
    if contains_chars(&lower_chars(&name), query_lower) {
        return true;
    }
    let intro = match &r.project_intro {
        Some(n) => str_chars(n.as_str()),
        None => Vec::new(),
    };
    assert(intro@ =~= text_or_empty_s(r.project_intro));
    if contains_chars(&lower_chars(&intro), query_lower) {
        return true;
    }
    let tags = tags_json(r.tags.as_slice());
    contains_chars(&lower_chars(&str_chars(tags.as_str())), query_lower)
}

/// A search gives exactly the records of the listing that match the query:
/// every one of them, no other, in the listing's order (a matching record
/// is never dropped, a record that does not match never shows).
pub proof fn law_search_membership(listed: Seq<RepoRecord>, query: Seq<char>)
    ensures
        forall|r: RepoRecord|
            #[trigger] matching_s(listed, query).contains(r) <==> (listed.contains(r)
                && record_matches_s(r, query)),
        matching_s(listed, query).len() <= listed.len(),
    decreases listed.len(),
{
    if listed.len() > 0 {
        let d = listed.drop_last();
        law_search_membership(d, query);
        let m = matching_s(listed, query);
        let md = matching_s(d, query);
        let last = listed[listed.len() - 1];
        assert(listed.last() == last);
        if record_matches_s(last, query) {
            assert(m == md.push(last));
        } else {
            assert(m == md);
        }
        assert(forall|k: int| 0 <= k < md.len() ==> m[k] == md[k]);
        assert forall|r: RepoRecord|
            #[trigger] m.contains(r) <==> (listed.contains(r) && record_matches_s(r, query)) by {
            if m.contains(r) {
                let k = choose|k: int| 0 <= k < m.len() && m[k] == r;
                if k < md.len() {
                    assert(md[k] == r);
                    assert(md.contains(r));
                    let j = choose|j: int| 0 <= j < d.len() && d[j] == r;
                    assert(listed[j] == r);
                } else {
                    assert(listed[listed.len() - 1] == r);
                }
            }
            if listed.contains(r) && record_matches_s(r, query) {
                let j = choose|j: int| 0 <= j < listed.len() && listed[j] == r;
                if j < d.len() {
                    assert(d[j] == r);
                    assert(d.contains(r));
                    assert(md.contains(r));
                    let k = choose|k: int| 0 <= k < md.len() && md[k] == r;
                    assert(m[k] == md[k]);
                    assert(m[k] == r);
                } else {
                    assert(m[m.len() - 1] == r);
                }
            }
        }
    }
}

/// A write the library asks the hub database for, as the values it hands over.
pub enum DbRequest {
    /// Register the repository at `path`, or update the one with that path.
    Insert { path: Seq<char>, display_name: Option<Seq<char>>, is_bare: bool, head: Option<Seq<char>> },
    /// Delete the repository with this id.
    Delete(i64),
    /// Store the favorite flag.
    SetFavorite(i64, bool),
    /// Store the tags, as the JSON text kept for them.
    SetTags(i64, Seq<char>),
    /// Store (or clear) the display name.
    SetDisplayName(i64, Option<Seq<char>>),
    /// Store (or clear) the project intro.
    SetIntro(i64, Option<Seq<char>>),
    /// Store the current time as the last opening.
    TouchOpened(i64),
    /// Store (or clear) the cached head.
    UpdateHead(i64, Option<Seq<char>>),
    /// Cache a tree listing.
    CachePut { repo_id: i64, rev_key: Seq<char>, resolved_rev: Seq<char>, paths_json: Seq<char> },
    /// Delete this many of the oldest cached listings.
    CachePrune(i64),
    /// Drop the cached listings of a repository.
    CacheInvalidate(i64),
}

/// Which write a statement makes (it says how its parameters read as a
/// `DbRequest`).
pub enum WriteKind {
    Insert,
    Delete,
    SetFavorite,
    SetTags,
    SetDisplayName,
    SetIntro,
    TouchOpened,
    UpdateHead,
    CachePut,
    CachePrune,
    CacheInvalidate,
}

/// The integer a parameter holds (0 for another kind).
pub open spec fn param_int(p: SqlParam) -> i64 {
    match p {
        SqlParam::Integer(x) => x,
        _ => 0,
    }
}

/// The text a parameter holds (empty for another kind).
pub open spec fn param_text(p: SqlParam) -> Seq<char> {
    match p {
        SqlParam::Text(t) => t@,
        _ => Seq::empty(),
    }
}

/// The text a parameter holds, `None` for `NULL` (or another kind).
pub open spec fn param_opt_text(p: SqlParam) -> Option<Seq<char>> {
    match p {
        SqlParam::Text(t) => Some(t@),
        _ => None,
    }
}

/// The request that a write of this kind makes with these parameters, read
/// off the parameters themselves (their order is that of the statements of
/// `Database`).
pub open spec fn request_of(kind: WriteKind, p: Seq<SqlParam>) -> DbRequest {
    match kind {
        WriteKind::Insert => DbRequest::Insert {
            path: param_text(p[0]),
            display_name: param_opt_text(p[1]),
            is_bare: param_int(p[3]) == 1,
            head: param_opt_text(p[4]),
        },
        WriteKind::Delete => DbRequest::Delete(param_int(p[0])),
        WriteKind::SetFavorite => DbRequest::SetFavorite(param_int(p[1]), param_int(p[0]) == 1),
        WriteKind::SetTags => DbRequest::SetTags(param_int(p[1]), param_text(p[0])),
        WriteKind::SetDisplayName => DbRequest::SetDisplayName(param_int(p[1]), param_opt_text(p[0])),
        WriteKind::SetIntro => DbRequest::SetIntro(param_int(p[1]), param_opt_text(p[0])),
        WriteKind::TouchOpened => DbRequest::TouchOpened(param_int(p[1])),
        WriteKind::UpdateHead => DbRequest::UpdateHead(param_int(p[1]), param_opt_text(p[0])),
        WriteKind::CachePut => DbRequest::CachePut {
            repo_id: param_int(p[0]),
            rev_key: param_text(p[1]),
            resolved_rev: param_text(p[2]),
            paths_json: param_text(p[3]),
        },
        WriteKind::CachePrune => DbRequest::CachePrune(param_int(p[0])),
        WriteKind::CacheInvalidate => DbRequest::CacheInvalidate(param_int(p[0])),
    }
}

/// The hub database. Besides the connection it keeps, as ghost state, the
/// writes asked of the database so far, in order; each write goes through
/// `execute_write`, which records the request read off the parameters it
/// hands to SQLite.
pub struct Database {
    conn: rusqlite::Connection,
    requests: Ghost<Seq<DbRequest>>,
}

/// `rusqlite::Error::QueryReturnedNoRows`: the error of a query that gave no row.
#[verifier::external_body]
fn no_rows_error() -> rusqlite::Error {
    rusqlite::Error::QueryReturnedNoRows
}

/// An optional text by its view.
pub open spec fn opt_str_s(o: Option<&str>) -> Option<Seq<char>> {
    match o {
        Some(s) => Some(s@),
        None => None,
    }
}

/// Reads a result row of the `repos` columns as a record.
fn read_repo_row(row: &rusqlite::Row<'_>) -> (r: Result<RepoRecord, rusqlite::Error>)
    ensures
        r matches Ok(rec) ==> is_stored_record(rec),
{
    let tags_json: String = sql_get(row, 5)?;
    let id: i64 = sql_get(row, 0)?;
    let path: String = sql_get(row, 1)?;
    let display_name: Option<String> = sql_get(row, 2)?;
    let project_intro: Option<String> = sql_get(row, 3)?;
    let is_favorite: i64 = sql_get(row, 4)?;
    let last_opened_at: Option<i64> = sql_get(row, 6)?;
    let is_bare: i64 = sql_get(row, 7)?;
    let last_head: Option<String> = sql_get(row, 8)?;
    let created_at: i64 = sql_get(row, 9)?;
    let stored = RepoRow {
        id,
        path,
        display_name,
        project_intro,
        is_favorite,
        tags_json,
        last_opened_at,
        is_bare,
        last_head,
        created_at,
    };
    let ghost g = stored;
    let rec = record_from_row(stored);
    assert(decodes_row(rec, g));
    Ok(rec)
}

/// Runs a query and reads every result row as a repository record.
fn query_repo_records(conn: &rusqlite::Connection, sql: &str, params: &[SqlParam]) -> (r: Result<
    Vec<RepoRecord>,
    rusqlite::Error,
>)
    ensures
        r matches Ok(v) ==> all_stored_records(v@),
{
    let mut stmt = sql_prepare(conn, sql)?;
    let mut rows = sql_query(&mut stmt, params)?;
    let mut out: Vec<RepoRecord> = Vec::new();
    while out.len() < usize::MAX
        invariant
            all_stored_records(out@),
        decreases usize::MAX - out.len(),
    {
        match sql_next(&mut rows)? {
            Some(row) => {
                let rec = read_repo_row(row)?;
                out.push(rec);
                assert(out@.last() == rec);
            },
            None => {
                break;
            },
        }
    }
    Ok(out)
}

const REPOS_SCHEMA: &'static str = "
    PRAGMA foreign_keys = ON;
    CREATE TABLE IF NOT EXISTS repos (
        id INTEGER PRIMARY KEY AUTOINCREMENT,
        path TEXT NOT NULL UNIQUE,
        display_name TEXT,
        is_favorite INTEGER NOT NULL DEFAULT 0,
        tags TEXT NOT NULL DEFAULT '[]',
        last_opened_at INTEGER,
        is_bare INTEGER NOT NULL DEFAULT 0,
        last_head TEXT,
        created_at INTEGER NOT NULL
    );
    CREATE INDEX IF NOT EXISTS idx_repos_favorite ON repos(is_favorite);
    CREATE INDEX IF NOT EXISTS idx_repos_last_opened ON repos(last_opened_at);
";

const TREE_CACHE_SCHEMA: &'static str = "
    CREATE TABLE IF NOT EXISTS repo_tree_cache (
        id INTEGER PRIMARY KEY AUTOINCREMENT,
        repo_id INTEGER NOT NULL,
        rev_key TEXT NOT NULL,
        resolved_rev TEXT NOT NULL,
        paths_json TEXT NOT NULL,
        byte_len INTEGER NOT NULL,
        updated_at INTEGER NOT NULL,
        UNIQUE(repo_id, rev_key),
        FOREIGN KEY (repo_id) REFERENCES repos(id) ON DELETE CASCADE
    );
    CREATE INDEX IF NOT EXISTS idx_repo_tree_cache_updated ON repo_tree_cache(updated_at);
";

impl Database {
    /// Opens the database at `path` and brings its schema up to date: the
    /// repositories table, the `project_intro` column (an error saying the
    /// column already exists is tolerated, any other error is returned), and
    /// the tree cache table.
    pub fn open(path: &str) -> (r: Result<Database, rusqlite::Error>)
        ensures
            r matches Ok(db) ==> db.requests() == Seq::<DbRequest>::empty(),
    {
        let conn = sql_open(path)?;
        sql_execute_batch(&conn, REPOS_SCHEMA)?;
        match sql_execute(&conn, "ALTER TABLE repos ADD COLUMN project_intro TEXT", &[]) {
            Ok(_) => {},
            Err(e) => {
                if !is_duplicate_column_message(error_text(&e).as_str()) {
                    return Err(e);
                }
            },
        }
        sql_execute_batch(&conn, TREE_CACHE_SCHEMA)?;
        Ok(Database { conn, requests: Ghost(Seq::empty()) })
    }

    /// The writes asked of the database so far, in order.
    pub closed spec fn requests(&self) -> Seq<DbRequest> {
        self.requests@
    }

    /// Runs a write statement: records the request its parameters make, then
    /// hands the statement and the parameters to SQLite.
    fn execute_write(&mut self, kind: WriteKind, sql: &str, params: &[SqlParam]) -> (r: Result<usize, rusqlite::Error>)
        ensures
            final(self).requests() == old(self).requests().push(request_of(kind, params@)),
    {
        proof {
            self.requests@ = self.requests@.push(request_of(kind, params@));
        }
        sql_execute(&self.conn, sql, params)
    }

    /// All repositories: favorites first, then most recently opened, then by
    /// display name ignoring case.
    pub fn list_all(&self) -> (r: Result<Vec<RepoRecord>, rusqlite::Error>)
        ensures
            r matches Ok(v) ==> all_stored_records(v@),
    {
        query_repo_records(
            &self.conn,
            "SELECT id, path, display_name, project_intro, is_favorite, tags, last_opened_at, is_bare, last_head, created_at FROM repos ORDER BY is_favorite DESC, COALESCE(last_opened_at, 0) DESC, display_name COLLATE NOCASE",
            &[],
        )
    }

    /// Repositories whose path, display name, intro or tags (their stored JSON
    /// text) contain `query`, ignoring ASCII case as SQLite's `LIKE` does: the
    /// matching records of the listing (`list_all`), in its order (favorites
    /// first, then most recently opened).
    pub fn search(&self, query: &str) -> (r: Result<Vec<RepoRecord>, rusqlite::Error>)
        ensures
            r matches Ok(v) ==> all_stored_records(v@) && exists|listed: Seq<RepoRecord>|
                all_stored_records(listed) && v@ == #[trigger] matching_s(listed, query@),
    {
        let listed = self.list_all()?;
        let ghost all = listed@;
        let total = listed.len();
        let q = lower_chars(&str_chars(query));
        assert(lower_s(q@) =~= q@);
        let mut rest = listed;
        let mut out: Vec<RepoRecord> = Vec::new();
        let mut i: usize = 0;
        while rest.len() > 0
            invariant
                i + rest@.len() == all.len(),
                all.len() == total,
                rest@ == all.skip(i as int),
                q@ == lower_s(query@),
                lower_s(q@) == q@,
                out@ == matching_s(all.take(i as int), query@),
            decreases rest@.len(),
        {
            let rec = rest.remove(0);
            assert(rec == all[i as int]);
            assert(all.take(i + 1).drop_last() =~= all.take(i as int));
            assert(all.take(i + 1).last() == rec);
            assert(record_matches_s(rec, q@) == record_matches_s(rec, query@));
            if record_matches(&rec, &q) {
                out.push(rec);
            }
            assert(rest@ =~= all.skip(i + 1));
            i = i + 1;
        }
        assert(all.take(i as int) =~= all);
        proof {
            law_search_membership(all, query@);
            assert forall|k: int| 0 <= k < out@.len() implies is_stored_record(#[trigger] out@[k]) by {
                assert(out@.contains(out@[k]));
                let j = choose|j: int| 0 <= j < all.len() && all[j] == out@[k];
            }
        }
        Ok(out)
    }

    /// The repository with this id, if any. (A row read back with another id,
    /// which the query rules out, counts as none.)
    pub fn get(&self, id: i64) -> (r: Result<Option<RepoRecord>, rusqlite::Error>)
        ensures
            r matches Ok(Some(rec)) ==> is_stored_record(rec) && rec.id == id,
    {
        let params = int_params(id);
        match sql_query_row_record(
            &self.conn,
            "SELECT id, path, display_name, project_intro, is_favorite, tags, last_opened_at, is_bare, last_head, created_at FROM repos WHERE id = ?1",
            params.as_slice(),
        ) {
            Ok(r) => if r.id == id {
                Ok(Some(r))
            } else {
                Ok(None)
            },
            Err(e) => if is_no_rows(&e) {
                Ok(None)
            } else {
                Err(e)
            },
        }
    }

    /// Registers a repository, or updates the one with the same path (a given
    /// display name or head replaces the stored one, a missing one keeps it;
    /// the bare flag is replaced), and returns its record as read back by its
    /// path. (A row read back with another path, which the query rules out, is
    /// reported as no row.)
    pub fn insert_repo(
        &mut self,
        path: &str,
        display_name: Option<String>,
        is_bare: bool,
        last_head: Option<String>,
    ) -> (r: Result<RepoRecord, rusqlite::Error>)
        ensures
            final(self).requests() == old(self).requests().push(
                DbRequest::Insert {
                    path: path@,
                    display_name: opt_view(display_name),
                    is_bare,
                    head: opt_view(last_head),
                },
            ),
            r matches Ok(rec) ==> is_stored_record(rec) && rec.path@ == path@,
    {
        let now = now_unix();
        let params = insert_params(path, display_name, is_bare, last_head, now);
        self.execute_write(
            WriteKind::Insert,
            "INSERT INTO repos (path, display_name, project_intro, is_favorite, tags, last_opened_at, is_bare, last_head, created_at)
             VALUES (?1, ?2, NULL, 0, ?3, NULL, ?4, ?5, ?6)
             ON CONFLICT(path) DO UPDATE SET
                display_name = COALESCE(excluded.display_name, repos.display_name),
                is_bare = excluded.is_bare,
                last_head = COALESCE(excluded.last_head, repos.last_head)",
            params.as_slice(),
        )?;
        let key = path_params(path);
        let rec = sql_query_row_record(
            &self.conn,
            "SELECT id, path, display_name, project_intro, is_favorite, tags, last_opened_at, is_bare, last_head, created_at FROM repos WHERE path = ?1",
            key.as_slice(),
        )?;
        if chars_eq(&str_chars(rec.path.as_str()), &str_chars(path)) {
            Ok(rec)
        } else {
            Err(no_rows_error())
        }
    }

    /// Removes the repository with this id; `true` when a row was deleted.
    pub fn delete(&mut self, id: i64) -> (r: Result<bool, rusqlite::Error>)
        ensures
            final(self).requests() == old(self).requests().push(DbRequest::Delete(id)),
    {
        let params = int_params(id);
        let n = self.execute_write(WriteKind::Delete, "DELETE FROM repos WHERE id = ?1", params.as_slice())?;
        Ok(n > 0)
    }

    /// Stores the favorite flag (as 1 or 0).
    pub fn set_favorite(&mut self, id: i64, favorite: bool) -> (r: Result<(), rusqlite::Error>)
        ensures
            final(self).requests() == old(self).requests().push(DbRequest::SetFavorite(id, favorite)),
    {
        let params = favorite_params(id, favorite);
        self.execute_write(WriteKind::SetFavorite, "UPDATE repos SET is_favorite = ?1 WHERE id = ?2", params.as_slice())?;
        Ok(())
    }

    /// Stores the tags, encoded by `tags_json`.
    pub fn set_tags(&mut self, id: i64, tags: &[String]) -> (r: Result<(), rusqlite::Error>)
        ensures
            final(self).requests() == old(self).requests().push(DbRequest::SetTags(id, stored_tags_s(str_views(tags@)))),
    {
        let params = tags_params(id, tags);
        self.execute_write(WriteKind::SetTags, "UPDATE repos SET tags = ?1 WHERE id = ?2", params.as_slice())?;
        Ok(())
    }

    /// Stores the display name (`None` clears it).
    pub fn set_display_name(&mut self, id: i64, name: Option<String>) -> (r: Result<(), rusqlite::Error>)
        ensures
            final(self).requests() == old(self).requests().push(DbRequest::SetDisplayName(id, opt_view(name))),
    {
        let params = optional_text_params(id, name);
        self.execute_write(WriteKind::SetDisplayName, "UPDATE repos SET display_name = ?1 WHERE id = ?2", params.as_slice())?;
        Ok(())
    }

    /// Stores the project intro (`None` clears it).
    pub fn set_project_intro(&mut self, id: i64, intro: Option<String>) -> (r: Result<(), rusqlite::Error>)
        ensures
            final(self).requests() == old(self).requests().push(DbRequest::SetIntro(id, opt_view(intro))),
    {
        let params = optional_text_params(id, intro);
        self.execute_write(WriteKind::SetIntro, "UPDATE repos SET project_intro = ?1 WHERE id = ?2", params.as_slice())?;
        Ok(())
    }

    /// Stores the current time as the last time the repository was opened.
    pub fn touch_opened(&mut self, id: i64) -> (r: Result<(), rusqlite::Error>)
        ensures
            final(self).requests() == old(self).requests().push(DbRequest::TouchOpened(id)),
    {
        let params = opened_params(id, now_unix());
        self.execute_write(WriteKind::TouchOpened, "UPDATE repos SET last_opened_at = ?1 WHERE id = ?2", params.as_slice())?;
        Ok(())
    }

    /// Stores the last known HEAD (`None` clears it).
    pub fn update_cached_head(&mut self, id: i64, head: Option<&str>) -> (r: Result<(), rusqlite::Error>)
        ensures
            final(self).requests() == old(self).requests().push(DbRequest::UpdateHead(id, opt_str_s(head))),
    {
        let params = head_params(id, head);
        self.execute_write(WriteKind::UpdateHead, "UPDATE repos SET last_head = ?1 WHERE id = ?2", params.as_slice())?;
        Ok(())
    }

    /// The cached tree listing (its JSON text) for a repository and revision
    /// key, when it was cached for `current_resolved` and still reads as a
    /// JSON list (see `cache_hit`).
    pub fn tree_cache_get_if_current(
        &self,
        repo_id: i64,
        rev_key: &str,
        current_resolved: &str,
    ) -> (r: Result<Option<String>, rusqlite::Error>)
        ensures
            r matches Ok(Some(j)) ==> json_list_s(j@),
    {
        let params = cache_key_params(repo_id, rev_key);
        let mut stmt = sql_prepare(
            &self.conn,
            "SELECT resolved_rev, paths_json FROM repo_tree_cache WHERE repo_id = ?1 AND rev_key = ?2",
        )?;
        let mut rows = sql_query(&mut stmt, params.as_slice())?;
        let cached = match sql_next(&mut rows)? {
            Some(row) => {
                let rev: String = sql_get(row, 0)?;
                let json: String = sql_get(row, 1)?;
                Some((rev, json))
            },
            None => None,
        };
        Ok(cache_hit(cached, current_resolved))
    }

    /// Caches a tree listing (its JSON text) for a repository and revision key,
    /// replacing an older one, then prunes the cache to `TREE_CACHE_MAX_ROWS`
    /// rows. Listings over `TREE_CACHE_MAX_JSON_BYTES` bytes are not cached.
    pub fn tree_cache_put(
        &mut self,
        repo_id: i64,
        rev_key: &str,
        resolved_rev: &str,
        paths_json: &str,
    ) -> (r: Result<(), rusqlite::Error>)
        ensures
            paths_json.len() > TREE_CACHE_MAX_JSON_BYTES ==> r is Ok && final(self).requests()
                == old(self).requests(),
            paths_json.len() <= TREE_CACHE_MAX_JSON_BYTES ==> {
                let put = old(self).requests().push(
                    DbRequest::CachePut {
                        repo_id,
                        rev_key: rev_key@,
                        resolved_rev: resolved_rev@,
                        paths_json: paths_json@,
                    },
                );
                ||| final(self).requests() == put
                ||| exists|k: i64| k > 0 && final(self).requests() == #[trigger] put.push(DbRequest::CachePrune(k))
            },
    {
        let byte_len = paths_json.len();
        if byte_len > TREE_CACHE_MAX_JSON_BYTES {
            return Ok(());
        }
        let now = now_unix();
        let params = cache_put_params(repo_id, rev_key, resolved_rev, paths_json, byte_len as i64, now);
        self.execute_write(
            WriteKind::CachePut,
            "INSERT INTO repo_tree_cache (repo_id, rev_key, resolved_rev, paths_json, byte_len, updated_at)
             VALUES (?1, ?2, ?3, ?4, ?5, ?6)
             ON CONFLICT(repo_id, rev_key) DO UPDATE SET
               resolved_rev = excluded.resolved_rev,
               paths_json = excluded.paths_json,
               byte_len = excluded.byte_len,
               updated_at = excluded.updated_at",
            params.as_slice(),
        )?;
        self.tree_cache_prune(TREE_CACHE_MAX_ROWS)
    }

    /// The number of cached listings.
    fn tree_cache_count(&self) -> Result<i64, rusqlite::Error> {
        let mut stmt = sql_prepare(&self.conn, "SELECT COUNT(*) FROM repo_tree_cache")?;
        let mut rows = sql_query(&mut stmt, &[])?;
        let n: i64 = match sql_next(&mut rows)? {
            Some(row) => sql_get(row, 0)?,
            None => 0,
        };
        Ok(n)
    }

    /// Deletes the oldest cache rows beyond `max_rows` (see `prune_excess`).
    fn tree_cache_prune(&mut self, max_rows: usize) -> (r: Result<(), rusqlite::Error>)
        ensures
            final(self).requests() == old(self).requests() || exists|k: i64|
                k > 0 && final(self).requests() == #[trigger] old(self).requests().push(DbRequest::CachePrune(k)),
    {
        let n = self.tree_cache_count()?;
        match prune_excess(n, max_rows) {
            None => Ok(()),
            Some(excess) => {
                let params = int_params(excess);
                self.execute_write(
                    WriteKind::CachePrune,
                    "DELETE FROM repo_tree_cache WHERE id IN (
                        SELECT id FROM repo_tree_cache ORDER BY updated_at ASC LIMIT ?1
                    )",
                    params.as_slice(),
                )?;
                Ok(())
            },
        }
    }

    /// Drops every cached listing of a repository.
    pub fn tree_cache_invalidate_repo(&mut self, repo_id: i64) -> (r: Result<(), rusqlite::Error>)
        ensures
            final(self).requests() == old(self).requests().push(DbRequest::CacheInvalidate(repo_id)),
    {
        let params = int_params(repo_id);
        self.execute_write(WriteKind::CacheInvalidate, "DELETE FROM repo_tree_cache WHERE repo_id = ?1", params.as_slice())?;
        Ok(())
    }
}

} // verus!
