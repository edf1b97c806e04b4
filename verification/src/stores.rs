//! The two profile databases that cleaning up writes to, each open for
//! writing. A store can only be had by opening the right file of a profile,
//! and the statements run on it are the ones its contents call for.
use vstd::prelude::*;

use rusqlite::Connection;

use crate::cleanup::{
    cookie_database_file, cookie_db_file, delete_host_sql, delete_login_sql, distinct_hosts_sql,
    open_failure, open_rw,
};
use crate::model::Family;
use crate::sqlite::{joined_path, join_path};

verus! {

/// A profile's cookie database, open for writing, with a record of the
/// deletions made through it.
pub struct CookieStore {
    conn: Connection,
    family: Family,
    deleted: Ghost<Seq<(Seq<char>, usize)>>,
}

impl CookieStore {
    /// The browser family whose cookie database this is.
    pub closed spec fn family_spec(&self) -> Family {
        self.family
    }

    /// The deletions made through this store, in order: the host each one
    /// was handed, with the number of rows SQLite reported removed.
    pub closed spec fn deletions(&self) -> Seq<(Seq<char>, usize)> {
        self.deleted@
    }

    /// The browser family whose cookie database this is.
    pub fn family(&self) -> (f: Family)
        ensures
            f == self.family_spec(),
    {
        self.family
    }
}

/// A Chromium profile's login database (`Login Data`), open for writing,
/// with a record of the deletions made through it.
pub struct LoginStore {
    conn: Connection,
    deleted: Ghost<Seq<(Seq<char>, Seq<char>, usize)>>,
}

impl LoginStore {
    /// The deletions made through this store, in order: the site and the
    /// user name each one was handed, with the number of rows SQLite
    /// reported removed.
    pub closed spec fn deletions(&self) -> Seq<(Seq<char>, Seq<char>, usize)> {
        self.deleted@
    }
}

/// Opens the family's cookie database inside the profile directory
/// `profile_path` for writing.
pub fn open_cookie_store(profile_path: &str, family: Family) -> (r: Result<CookieStore, String>)
    ensures
        r matches Ok(s) ==> s.family_spec() == family && s.deletions() == Seq::<
            (Seq<char>, usize),
        >::empty(),
        r matches Err(m) ==> open_failure(m@, joined_path(profile_path@, cookie_db_file(family))),
{
    let conn = open_rw(join_path(profile_path, cookie_database_file(family)).as_str())?;
    Ok(CookieStore { conn, family, deleted: Ghost(Seq::empty()) })
}

/// Opens the login database (`Login Data`) inside the Chromium profile
/// directory `profile_path` for writing.
pub fn open_login_store(profile_path: &str) -> (r: Result<LoginStore, String>)
    ensures
        r matches Ok(s) ==> s.deletions() == Seq::<(Seq<char>, Seq<char>, usize)>::empty(),
        r matches Err(m) ==> open_failure(m@, joined_path(profile_path@, "Login Data"@)),
{
    let conn = open_rw(join_path(profile_path, "Login Data").as_str())?;
    Ok(LoginStore { conn, deleted: Ghost(Seq::empty()) })
}

/// Calls `Connection::prepare` on `sql` and `Statement::query_map` on the
/// result, reading each row's first column with `Row::get` as optional text:
/// the distinct hosts of the store's cookie table. One entry per row, in the
/// order SQLite gives them.
#[verifier::external_body]
pub(crate) fn query_distinct_hosts(store: &CookieStore, sql: &str) -> Result<
    Vec<Result<Option<String>, rusqlite::Error>>,
    rusqlite::Error,
>
    requires
        sql@ == distinct_hosts_sql(store.family_spec()),
{
    let mut stmt = store.conn.prepare(sql)?;
    let rows = stmt.query_map([], |r| r.get::<_, Option<String>>(0))?;
    Ok(rows.collect())
}

/// Calls `Connection::execute` with `host` bound to `?1`: deletes the
/// store's cookies of that host. Gives the number of rows changed, and a
/// deletion that succeeds is recorded in the store with the host it was
/// handed and that number.
#[verifier::external_body]
pub(crate) fn delete_host_rows(store: &mut CookieStore, sql: &str, host: &str) -> (r: Result<
    usize,
    rusqlite::Error,
>)
    requires
        sql@ == delete_host_sql(old(store).family_spec()),
    ensures
        final(store).family_spec() == old(store).family_spec(),
        final(store).deletions() == (match r {
            Ok(n) => old(store).deletions().push((host@, n)),
            Err(_) => old(store).deletions(),
        }),
{
    store.conn.execute(sql, [host])
}

/// Calls `Connection::execute` with `origin` bound to `?1` and `username` to
/// `?2`: deletes the saved passwords of that site and user. Gives the number
/// of rows changed, and a deletion that succeeds is recorded in the store
/// with the site and user name it was handed and that number.
#[verifier::external_body]
pub(crate) fn delete_login_rows(store: &mut LoginStore, sql: &str, origin: &str, username: &str) -> (r: Result<
    usize,
    rusqlite::Error,
>)
    requires
        sql@ == delete_login_sql(),
    ensures
        final(store).deletions() == (match r {
            Ok(n) => old(store).deletions().push((origin@, username@, n)),
            Err(_) => old(store).deletions(),
        }),
{
    store.conn.execute(sql, [origin, username])
}

} // verus!
