//! The calls into SQLite (through `rusqlite`) and into `std::path` that the
//! library makes. What the queries return depends on what is on disk, so
//! their contracts promise nothing of it; they only fix the statements that
//! the library may hand them. The library's own functions take the results
//! as they come.
use vstd::prelude::*;

use rusqlite::{Connection, OpenFlags};

use crate::cleanup::cookie_rows_sql;
use crate::logins::{login_rows_sql, LoginRow};
use crate::model::{CookieRow, Family};

verus! {

/// An open SQLite database.
#[verifier::external_type_specification]
#[verifier::external_body]
pub struct ExConnection(rusqlite::Connection);

/// An error reported by SQLite or by `rusqlite`.
#[verifier::external_type_specification]
#[verifier::external_body]
pub struct ExSqlError(rusqlite::Error);

/// Calls `Connection::open_with_flags` with `SQLITE_OPEN_READ_WRITE`: opens
/// an existing database for reading and writing, without creating one.
#[verifier::external_body]
pub(crate) fn open_read_write(path: &str) -> Result<Connection, rusqlite::Error> {
    Connection::open_with_flags(path, OpenFlags::SQLITE_OPEN_READ_WRITE)
}

/// Calls `Connection::busy_timeout`: waits up to `millis` milliseconds for a
/// lock another process holds, rather than failing at once. It panics when
/// the time does not fit in an `i32` of milliseconds, so that is required.
#[verifier::external_body]
pub(crate) fn set_busy_timeout(conn: &Connection, millis: u64) -> Result<(), rusqlite::Error>
    requires
        millis <= i32::MAX,
{
    conn.busy_timeout(std::time::Duration::from_millis(millis))
}

/// Calls `Connection::prepare` on `sql` and `Statement::query_map` on the
/// result, reading the first six columns of each row with `Row::get` into a
/// `CookieRow` (name, host, expiry, last access, secure, http-only). The
/// statement must be the one that reads `family`'s cookie metadata, which
/// never includes a cookie's value.
#[verifier::external_body]
pub(crate) fn query_cookie_rows(conn: &Connection, family: Family, sql: &str) -> Result<
    Vec<Result<CookieRow, rusqlite::Error>>,
    rusqlite::Error,
>
    requires
        sql@ == cookie_rows_sql(family),
{
    let mut stmt = conn.prepare(sql)?;
    let rows = stmt.query_map([], |r| {
        Ok(CookieRow {
            name: r.get(0)?, host: r.get(1)?, expiry: r.get(2)?,
            last_access: r.get(3)?, secure: r.get(4)?, http_only: r.get(5)?,
        })
    })?;
    Ok(rows.collect())
}

/// Calls `Connection::prepare` on `sql` and `Statement::query_map` on the
/// result, reading the first three columns of each row with `Row::get` into
/// a `LoginRow` (origin, user name, times used). The statement must be the
/// one that reads those columns of Chromium's `logins` table, never a
/// password.
#[verifier::external_body]
pub(crate) fn query_login_rows(conn: &Connection, sql: &str) -> Result<
    Vec<Result<LoginRow, rusqlite::Error>>,
    rusqlite::Error,
>
    requires
        sql@ == login_rows_sql(),
{
    let mut stmt = conn.prepare(sql)?;
    let rows = stmt.query_map(
        [],
        |r| Ok(LoginRow { origin: r.get(0)?, username: r.get(1)?, times_used: r.get(2)? }),
    )?;
    Ok(rows.collect())
}

/// Calls `ToString::to_string` on the error: its message.
#[verifier::external_body]
pub(crate) fn sql_error_text(e: &rusqlite::Error) -> String {
    e.to_string()
}

/// What `Path::join` gives for a directory and a name, as displayed text: the
/// path of `name` inside `dir` (with the target's separator), or `name` alone
/// when it is an absolute path.
pub uninterp spec fn joined_path(dir: Seq<char>, name: Seq<char>) -> Seq<char>;

/// Calls `Path::join`: the path of `name` inside `dir`, as displayed text.
#[verifier::external_body]
pub(crate) fn join_path(dir: &str, name: &str) -> (r: String)
    ensures
        r@ == joined_path(dir@, name@),
{
    std::path::Path::new(dir).join(name).display().to_string()
}

/// Calls `Path::exists`: whether something is at `path` on disk right now.
#[verifier::external_body]
pub(crate) fn path_exists(path: &str) -> bool {
    std::path::Path::new(path).exists()
}

} // verus!
