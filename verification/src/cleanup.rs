//! Cleaning up: which cookie rows a deletion removes, the statements that
//! remove them, and the guard in front of clearing a cache directory.
use vstd::prelude::*;

use rusqlite::Connection;

use crate::heuristics::{registrable_domain, registrable_domain_of};
use crate::model::{texts, Family};
use crate::sqlite::{joined_path, open_read_write, path_exists, set_busy_timeout, sql_error_text};
use crate::stores::{
    delete_host_rows, delete_login_rows, open_cookie_store, open_login_store, query_distinct_hosts,
    CookieStore, LoginStore,
};
use crate::profiles::{strip_components, strip_path_prefix};
use crate::text::{chars_of, same_text};

verus! {

// ---------------------------------------------------------------------------
// Browser families and their cookie stores
// ---------------------------------------------------------------------------

/// The family a name stands for: `chromium` or `firefox`.
pub open spec fn family_named(name: Seq<char>) -> Option<Family> {
    if name == "chromium"@ {
        Some(Family::Chromium)
    } else if name == "firefox"@ {
        Some(Family::Firefox)
    } else {
        None
    }
}

/// The error for a family name that is neither `chromium` nor `firefox`.
pub open spec fn unknown_family_message(name: Seq<char>) -> Seq<char> {
    "unknown browser family: "@ + name
}

/// The family that `name` stands for, if any.
pub fn parse_family(name: &str) -> (r: Option<Family>)
    ensures
        r == family_named(name@),
{
    if same_text(name, "chromium") {
        Some(Family::Chromium)
    } else if same_text(name, "firefox") {
        Some(Family::Firefox)
    } else {
        None
    }
}

/// The error for a family name that is neither `chromium` nor `firefox`.
pub fn unknown_family_error(name: &str) -> (m: String)
    ensures
        m@ == unknown_family_message(name@),
{
    String::from_str("unknown browser family: ").concat(name)
}

/// The name of the family, as reports spell it.
pub open spec fn family_text(f: Family) -> Seq<char> {
    match f {
        Family::Chromium => "chromium"@,
        Family::Firefox => "firefox"@,
    }
}

/// The name of the family, as reports spell it.
pub fn family_label(f: Family) -> (s: String)
    ensures
        s@ == family_text(f),
{
    match f {
        Family::Chromium => String::from_str("chromium"),
        Family::Firefox => String::from_str("firefox"),
    }
}

/// The file, inside a profile, of the family's cookie database.
pub open spec fn cookie_db_file(f: Family) -> Seq<char> {
    match f {
        Family::Chromium => "Cookies"@,
        Family::Firefox => "cookies.sqlite"@,
    }
}

/// The statement that lists the distinct hosts in the family's cookie table.
pub open spec fn distinct_hosts_sql(f: Family) -> Seq<char> {
    match f {
        Family::Chromium => "SELECT DISTINCT host_key FROM cookies"@,
        Family::Firefox => "SELECT DISTINCT host FROM moz_cookies"@,
    }
}

/// The statement that deletes the cookies of one host (bound to `?1`).
pub open spec fn delete_host_sql(f: Family) -> Seq<char> {
    match f {
        Family::Chromium => "DELETE FROM cookies WHERE host_key = ?1"@,
        Family::Firefox => "DELETE FROM moz_cookies WHERE host = ?1"@,
    }
}

/// The statement that reads every cookie's metadata (never its value).
pub open spec fn cookie_rows_sql(f: Family) -> Seq<char> {
    match f {
        Family::Chromium => "SELECT name, host_key, expires_utc, last_access_utc, is_secure, is_httponly FROM cookies"@,
        Family::Firefox => "SELECT name, host, expiry, lastAccessed, isSecure, isHttpOnly FROM moz_cookies"@,
    }
}

/// The file of the family's cookie database.
pub fn cookie_database_file(f: Family) -> (r: &'static str)
    ensures
        r@ == cookie_db_file(f),
{
    match f {
        Family::Chromium => "Cookies",
        Family::Firefox => "cookies.sqlite",
    }
}

pub(crate) fn distinct_hosts_statement(f: Family) -> (r: &'static str)
    ensures
        r@ == distinct_hosts_sql(f),
{
    match f {
        Family::Chromium => "SELECT DISTINCT host_key FROM cookies",
        Family::Firefox => "SELECT DISTINCT host FROM moz_cookies",
    }
}

fn delete_host_statement(f: Family) -> (r: &'static str)
    ensures
        r@ == delete_host_sql(f),
{
    match f {
        Family::Chromium => "DELETE FROM cookies WHERE host_key = ?1",
        Family::Firefox => "DELETE FROM moz_cookies WHERE host = ?1",
    }
}

/// The statement that reads the family's cookie rows.
pub fn cookie_rows_statement(f: Family) -> (r: &'static str)
    ensures
        r@ == cookie_rows_sql(f),
{
    match f {
        Family::Chromium => "SELECT name, host_key, expires_utc, last_access_utc, is_secure, is_httponly FROM cookies",
        Family::Firefox => "SELECT name, host, expiry, lastAccessed, isSecure, isHttpOnly FROM moz_cookies",
    }
}

// ---------------------------------------------------------------------------
// Which hosts a deletion reaches
// ---------------------------------------------------------------------------

/// The texts among the rows that were read without error and are not NULL,
/// in order.
pub open spec fn read_texts<E>(rows: Seq<Result<Option<String>, E>>) -> Seq<Seq<char>>
    decreases rows.len(),
{
    if rows.len() == 0 {
        Seq::empty()
    } else {
        let rest = read_texts(rows.drop_last());
        match rows.last() {
            Ok(Some(s)) => rest.push(s@),
            _ => rest,
        }
    }
}

/// A host that a deletion for `domains` reaches: it is not empty and its
/// registrable domain is one of `domains`.
pub open spec fn host_in_domains(h: Seq<char>, domains: Seq<Seq<char>>) -> bool {
    h.len() > 0 && domains.contains(registrable_domain_of(h))
}

pub open spec fn host_in_domains_pred(domains: Seq<Seq<char>>) -> spec_fn(Seq<char>) -> bool {
    |h: Seq<char>| host_in_domains(h, domains)
}

fn contains_text_among(list: &[String], t: &str) -> (r: bool)
    ensures
        r == texts(list@).contains(t@),
{
    let mut i: usize = 0;
    while i < list.len()
        invariant
            i <= list@.len(),
            forall|j: int| 0 <= j < i ==> list@[j]@ != t@,
        decreases list@.len() - i,
    {
        if same_text(list[i].as_str(), t) {
            assert(texts(list@)[i as int] == t@);
            return true;
        }
        i = i + 1;
    }
    assert forall|j: int| 0 <= j < texts(list@).len() implies texts(list@)[j] != t@ by {
        assert(texts(list@)[j] == list@[j]@);
    }
    false
}

/// The hosts, among the rows read from a cookie table, whose registrable
/// domain is one of `domains`; empty hosts are never reached.
pub fn hosts_in_domains<E>(rows: &Vec<Result<Option<String>, E>>, domains: &[String]) -> (out: Vec<
    String,
>)
    ensures
        texts(out@) == read_texts(rows@).filter(host_in_domains_pred(texts(domains@))),
{
    let ghost pred = host_in_domains_pred(texts(domains@));
    let mut out: Vec<String> = Vec::new();
    let mut i: usize = 0;
    while i < rows.len()
        invariant
            i <= rows@.len(),
            pred == host_in_domains_pred(texts(domains@)),
            texts(out@) == read_texts(rows@.take(i as int)).filter(pred),
        decreases rows@.len() - i,
    {
        let ghost prev = rows@.take(i as int);
        assert(rows@.take(i + 1).drop_last() =~= prev);
        assert(rows@.take(i + 1).last() == rows@[i as int]);
        match &rows[i] {
            Ok(Some(h)) => {
                let ghost hv = h@;
                assert(read_texts(rows@.take(i + 1)) == read_texts(prev).push(hv));
                proof {
                    read_texts(prev).lemma_filter_push(hv, pred);
                }
                if !h.as_str().is_empty() && contains_text_among(domains, registrable_domain(h.as_str()).as_str()) {
                    let ghost o = out@;
                    out.push(h.clone());
                    assert(texts(out@) =~= texts(o).push(hv));
                } else {
                }
            },
            _ => {
                assert(read_texts(rows@.take(i + 1)) == read_texts(prev));
            },
        }
        i = i + 1;
    }
    assert(rows@.take(i as int) =~= rows@);
    out
}

// ---------------------------------------------------------------------------
// Deleting
// ---------------------------------------------------------------------------

/// The error for a database file that does not exist.
pub open spec fn not_found_message(path: Seq<char>) -> Seq<char> {
    "database not found: "@ + path
}

/// The error for a database that exists but cannot be opened for writing,
/// with SQLite's own message `detail`.
pub open spec fn cannot_open_message(path: Seq<char>, detail: Seq<char>) -> Seq<char> {
    "cannot open "@ + path + " for writing: "@ + detail
}

/// `m` is an error of opening the database at `path` for writing: it is not
/// there, or SQLite could not open it.
pub open spec fn open_failure(m: Seq<char>, path: Seq<char>) -> bool {
    m == not_found_message(path) || exists|d: Seq<char>| m == cannot_open_message(path, d)
}

/// Opens an existing database for writing, waiting up to four seconds for a
/// lock that the browser holds.
pub(crate) fn open_rw(db_path: &str) -> (r: Result<Connection, String>)
    ensures
        r matches Err(m) ==> open_failure(m@, db_path@),
{
    if !path_exists(db_path) {
        return Err(String::from_str("database not found: ").concat(db_path));
    }
    match open_read_write(db_path) {
        Ok(conn) => {
            let _ = set_busy_timeout(&conn, 4000);
            Ok(conn)
        },
        Err(e) => {
            let detail = sql_error_text(&e);
            let m = String::from_str("cannot open ").concat(db_path).concat(" for writing: ").concat(
                detail.as_str(),
            );
            assert(m@ == cannot_open_message(db_path@, detail@));
            Err(m)
        },
    }
}

/// The sum of `counts`, held at `usize::MAX` once it would pass it.
pub open spec fn saturating_total(counts: Seq<usize>) -> nat
    decreases counts.len(),
{
    if counts.len() == 0 {
        0
    } else {
        let s: nat = saturating_total(counts.drop_last()) + counts.last() as nat;
        if s > usize::MAX {
            usize::MAX as nat
        } else {
            s
        }
    }
}

/// The hosts, among the distinct hosts read, that a deletion for `domains`
/// reaches, in the order read.
pub open spec fn reached_hosts(
    rows: Seq<Result<Option<String>, rusqlite::Error>>,
    domains: Seq<Seq<char>>,
) -> Seq<Seq<char>> {
    read_texts(rows).filter(host_in_domains_pred(domains))
}

/// The hosts of recorded deletions, in order.
pub open spec fn logged_hosts(log: Seq<(Seq<char>, usize)>) -> Seq<Seq<char>> {
    log.map_values(|e: (Seq<char>, usize)| e.0)
}

/// The row counts of recorded deletions, in order.
pub open spec fn logged_counts(log: Seq<(Seq<char>, usize)>) -> Seq<usize> {
    log.map_values(|e: (Seq<char>, usize)| e.1)
}

/// `added` are the deletions made, one host at a time, to remove the cookies
/// of the hosts `targets`, and `r` is the result: the deletions went through
/// `targets` in order, and a success means that every target was deleted and
/// `r` is the total of the counts (held at `usize::MAX`). With no target,
/// the result is zero.
pub open spec fn deletion_log(
    added: Seq<(Seq<char>, usize)>,
    r: Result<usize, String>,
    targets: Seq<Seq<char>>,
) -> bool {
    &&& added.len() <= targets.len()
    &&& logged_hosts(added) == targets.take(added.len() as int)
    &&& (r matches Ok(n) ==> added.len() == targets.len() && n == saturating_total(
        logged_counts(added),
    ))
    &&& (targets.len() == 0 ==> r == Ok::<usize, String>(0))
}

/// The deletions a store recorded after `before`, when `before` is where its
/// record stood earlier.
pub open spec fn added_since(
    before: Seq<(Seq<char>, usize)>,
    after: Seq<(Seq<char>, usize)>,
) -> Seq<(Seq<char>, usize)> {
    after.skip(before.len() as int)
}

/// `r` is what a deletion for `domains` gives when reading the distinct hosts
/// had the outcome `q`, and `added` the deletions it made: none and an error
/// when the read failed; otherwise one deletion per host reached, in order
/// (see `deletion_log`).
pub open spec fn deletion_result(
    r: Result<usize, String>,
    q: Result<Vec<Result<Option<String>, rusqlite::Error>>, rusqlite::Error>,
    added: Seq<(Seq<char>, usize)>,
    domains: Seq<Seq<char>>,
) -> bool {
    match q {
        Err(_) => r is Err && added.len() == 0,
        Ok(rows) => deletion_log(added, r, reached_hosts(rows@, domains)),
    }
}

/// `r` is what deleting the cookies of `domains` from the `f` cookie database
/// of the profile at `profile` gives: an error of opening that database, or
/// what the deletion gives for the outcome of reading its distinct hosts and
/// the deletions made (see `deletion_result`).
pub open spec fn cookie_deletion_result(
    r: Result<usize, String>,
    profile: Seq<char>,
    f: Family,
    domains: Seq<Seq<char>>,
) -> bool {
    ||| (r matches Err(m) && open_failure(m@, joined_path(profile, cookie_db_file(f))))
    ||| exists|
        q: Result<Vec<Result<Option<String>, rusqlite::Error>>, rusqlite::Error>,
        added: Seq<(Seq<char>, usize)>,
    | #[trigger] deletion_result(r, q, added, domains)
}

/// Deletes, from the cookie store, the cookies of every host that the read
/// of its distinct hosts (`q`) gave and whose registrable domain is one of
/// `domains`: one deletion per host, in the order read. Gives the number of
/// rows deleted.
pub fn delete_reached_hosts(
    store: &mut CookieStore,
    q: Result<Vec<Result<Option<String>, rusqlite::Error>>, rusqlite::Error>,
    domains: &[String],
) -> (r: Result<usize, String>)
    ensures
        final(store).family_spec() == old(store).family_spec(),
        old(store).deletions().is_prefix_of(final(store).deletions()),
        deletion_result(
            r,
            q,
            added_since(old(store).deletions(), final(store).deletions()),
            texts(domains@),
        ),
{
    match q {
        Err(e) => {
            assert(added_since(store.deletions(), store.deletions()) =~= Seq::<(Seq<char>, usize)>::empty());
            Err(sql_error_text(&e))
        },
        Ok(rows) => delete_hosts_among(store, &rows, domains),
    }
}

/// Deletes, from the cookie store, the cookies of every host among `rows`
/// whose registrable domain is one of `domains`, one host at a time.
fn delete_hosts_among(
    store: &mut CookieStore,
    rows: &Vec<Result<Option<String>, rusqlite::Error>>,
    domains: &[String],
) -> (r: Result<usize, String>)
    ensures
        final(store).family_spec() == old(store).family_spec(),
        old(store).deletions().is_prefix_of(final(store).deletions()),
        deletion_log(
            added_since(old(store).deletions(), final(store).deletions()),
            r,
            reached_hosts(rows@, texts(domains@)),
        ),
{
    let ghost before = store.deletions();
    let ghost targets = reached_hosts(rows@, texts(domains@));
    let hosts = hosts_in_domains(rows, domains);
    assert(texts(hosts@).len() == hosts@.len());
    let statement = delete_host_statement(store.family());
    let mut deleted: usize = 0;
    let mut i: usize = 0;
    assert(store.deletions().skip(before.len() as int) =~= Seq::<(Seq<char>, usize)>::empty());
    assert(logged_hosts(Seq::<(Seq<char>, usize)>::empty()) =~= targets.take(0));
    assert(logged_counts(Seq::<(Seq<char>, usize)>::empty()) =~= Seq::<usize>::empty());
    while i < hosts.len()
        invariant
            i <= hosts@.len(),
            texts(hosts@) == targets,
            targets == reached_hosts(rows@, texts(domains@)),
            texts(hosts@).len() == hosts@.len(),
            store.family_spec() == old(store).family_spec(),
            before == old(store).deletions(),
            statement@ == delete_host_sql(store.family_spec()),
            store.deletions().len() == before.len() + i,
            store.deletions().take(before.len() as int) == before,
            logged_hosts(added_since(before, store.deletions())) == targets.take(i as int),
            deleted == saturating_total(logged_counts(added_since(before, store.deletions()))),
        decreases hosts@.len() - i,
    {
        let ghost log0 = store.deletions();
        let ghost added0 = added_since(before, log0);
        match delete_host_rows(store, statement, hosts[i].as_str()) {
            Ok(n) => {
                proof {
                    let log1 = store.deletions();
                    assert(log1 == log0.push((hosts@[i as int]@, n)));
                    let added1 = added_since(before, log1);
                    assert(added1 =~= added0.push((hosts@[i as int]@, n)));
                    assert(log1.take(before.len() as int) =~= log0.take(before.len() as int));
                    assert(texts(hosts@)[i as int] == hosts@[i as int]@);
                    assert(logged_hosts(added1) =~= targets.take(i + 1));
                    assert(logged_counts(added1) =~= logged_counts(added0).push(n));
                    assert(logged_counts(added1).drop_last() =~= logged_counts(added0));
                }
                deleted = deleted.saturating_add(n);
            },
            Err(e) => {
                proof {
                    assert(store.deletions() == log0);
                    assert(before.is_prefix_of(store.deletions()));
                }
                return Err(sql_error_text(&e));
            },
        }
        i = i + 1;
    }
    assert(targets.take(i as int) =~= targets);
    assert(before.is_prefix_of(store.deletions()));
    Ok(deleted)
}

/// Deletes, from the profile's cookie database, every cookie whose host's
/// registrable domain is one of `domains`: one deletion per distinct host
/// reached. Gives the number of rows deleted.
fn delete_cookie_hosts(profile_path: &str, family: Family, domains: &[String]) -> (r: Result<
    usize,
    String,
>)
    ensures
        cookie_deletion_result(r, profile_path@, family, texts(domains@)),
{
    let mut store = match open_cookie_store(profile_path, family) {
        Ok(s) => s,
        Err(m) => return Err(m),
    };
    let q = query_distinct_hosts(&store, distinct_hosts_statement(store.family()));
    let ghost qv = q;
    let ghost before = store.deletions();
    let r = delete_reached_hosts(&mut store, q, domains);
    assert(deletion_result(r, qv, added_since(before, store.deletions()), texts(domains@)));
    r
}

/// Deletes every cookie belonging to `domain` (a registrable domain) from a
/// profile's cookie database. Gives the number of cookie rows deleted. A
/// family other than `chromium` or `firefox` is refused.
pub fn delete_cookies_for_domain(profile_path: &str, family: &str, domain: &str) -> (r: Result<
    usize,
    String,
>)
    ensures
        family_named(family@) is None ==> (r matches Err(m) && m@ == unknown_family_message(
            family@,
        )),
        family_named(family@) matches Some(f) ==> cookie_deletion_result(
            r,
            profile_path@,
            f,
            seq![domain@],
        ),
{
    let f = match parse_family(family) {
        Some(f) => f,
        None => return Err(unknown_family_error(family)),
    };
    let mut wanted: Vec<String> = Vec::new();
    wanted.push(String::from_str(domain));
    assert(texts(wanted@) =~= seq![domain@]);
    delete_cookie_hosts(profile_path, f, wanted.as_slice())
}

/// Deletes every cookie belonging to any of `domains` from a profile's cookie
/// database in one pass. Gives the number of cookie rows deleted; nothing is
/// opened when `domains` is empty. A family other than `chromium` or
/// `firefox` is refused.
pub fn delete_cookies_bulk(profile_path: &str, family: &str, domains: &[String]) -> (r: Result<
    usize,
    String,
>)
    ensures
        domains@.len() == 0 ==> r == Ok::<usize, String>(0),
        domains@.len() > 0 && family_named(family@) is None ==> (r matches Err(m) && m@
            == unknown_family_message(family@)),
        domains@.len() > 0 ==> (family_named(family@) matches Some(f) ==> cookie_deletion_result(
            r,
            profile_path@,
            f,
            texts(domains@),
        )),
{
    if domains.len() == 0 {
        return Ok(0);
    }
    let f = match parse_family(family) {
        Some(f) => f,
        None => return Err(unknown_family_error(family)),
    };
    delete_cookie_hosts(profile_path, f, domains)
}

/// The statement that deletes the saved passwords of one site (bound to
/// `?1`) and user name (bound to `?2`) from Chromium's login table.
pub open spec fn delete_login_sql() -> Seq<char> {
    "DELETE FROM logins WHERE origin_url = ?1 AND username_value = ?2"@
}

fn delete_login_statement() -> (r: &'static str)
    ensures
        r@ == delete_login_sql(),
{
    "DELETE FROM logins WHERE origin_url = ?1 AND username_value = ?2"
}

/// Deletes, through the login store, the saved passwords of the site
/// `origin` and the user `username`. Gives the number of entries deleted.
pub fn delete_login(store: &mut LoginStore, origin: &str, username: &str) -> (r: Result<
    usize,
    String,
>)
    ensures
        match r {
            Ok(n) => final(store).deletions() == old(store).deletions().push(
                (origin@, username@, n),
            ),
            Err(_) => final(store).deletions() == old(store).deletions(),
        },
{
    match delete_login_rows(store, delete_login_statement(), origin, username) {
        Ok(n) => Ok(n),
        Err(e) => Err(sql_error_text(&e)),
    }
}

/// `r` is what deleting one saved password gives when the deletion went as
/// `log` records it: the count of its one recorded deletion, which was
/// handed the site and the user name given, or an error with none recorded.
pub open spec fn login_deletion_result(
    r: Result<usize, String>,
    log: Seq<(Seq<char>, Seq<char>, usize)>,
    origin: Seq<char>,
    username: Seq<char>,
) -> bool {
    match r {
        Ok(n) => log == seq![(origin, username, n)],
        Err(_) => log.len() == 0,
    }
}

/// Deletes a saved password from a Chromium profile's login database: the
/// entries whose origin and user name are both the ones given. Gives the
/// number of entries deleted.
pub fn delete_chromium_saved_password(profile_path: &str, origin: &str, username: &str) -> (r:
    Result<usize, String>)
    ensures
        (r matches Err(m) && open_failure(m@, joined_path(profile_path@, "Login Data"@)))
            || exists|log: Seq<(Seq<char>, Seq<char>, usize)>|
            #[trigger] login_deletion_result(r, log, origin@, username@),
{
    let mut store = match open_login_store(profile_path) {
        Ok(s) => s,
        Err(m) => return Err(m),
    };
    let r = delete_login(&mut store, origin, username);
    proof {
        if r is Ok {
            assert(store.deletions() =~= seq![(origin@, username@, r->Ok_0)]);
        }
    }
    assert(login_deletion_result(r, store.deletions(), origin@, username@));
    r
}

// ---------------------------------------------------------------------------
// Clearing a cache
// ---------------------------------------------------------------------------

/// A directory the audit is willing to empty is named `Cache` (Chromium) or
/// `cache2` (Firefox).
pub open spec fn is_cache_dir_name(name: Seq<char>) -> bool {
    name == "Cache"@ || name == "cache2"@
}

/// A component that anchors a path: a root (`/` or `\\`) or a drive prefix
/// (ending in `:`). A `..` never climbs above one.
pub open spec fn is_anchor(c: Seq<char>) -> bool {
    c == "/"@ || c == "\\"@ || (c.len() > 0 && c.last() == ':')
}

/// One component added to an already resolved path: `.` changes nothing,
/// `..` drops the last name (it stays at an anchor, and is kept when there
/// is no name to drop), anything else is appended.
pub open spec fn resolve_step(stack: Seq<Seq<char>>, c: Seq<char>) -> Seq<Seq<char>> {
    if c == "."@ {
        stack
    } else if c == ".."@ {
        if stack.len() > 0 && is_anchor(stack.last()) {
            stack
        } else if stack.len() > 0 && stack.last() != ".."@ {
            stack.drop_last()
        } else {
            stack.push(c)
        }
    } else {
        stack.push(c)
    }
}

/// The path with its `.` and `..` components resolved lexically, left to
/// right.
pub open spec fn resolved(path: Seq<Seq<char>>) -> Seq<Seq<char>>
    decreases path.len(),
{
    if path.len() == 0 {
        Seq::empty()
    } else {
        resolve_step(resolved(path.drop_last()), path.last())
    }
}

fn is_anchor_text(c: &str) -> (r: bool)
    ensures
        r == is_anchor(c@),
{
    if same_text(c, "/") || same_text(c, "\\") {
        return true;
    }
    let cs = chars_of(c);
    cs.len() > 0 && cs[cs.len() - 1] == ':'
}

/// The path's components with `.` and `..` resolved (see `resolved`).
pub fn resolve_components(path: &Vec<String>) -> (out: Vec<String>)
    ensures
        texts(out@) == resolved(texts(path@)),
{
    let mut out: Vec<String> = Vec::new();
    let mut i: usize = 0;
    assert(texts(path@).take(0) =~= Seq::<Seq<char>>::empty());
    assert(texts(out@) =~= Seq::<Seq<char>>::empty());
    while i < path.len()
        invariant
            i <= path@.len(),
            texts(out@) == resolved(texts(path@).take(i as int)),
        decreases path@.len() - i,
    {
        let c = path[i].as_str();
        let ghost prev = texts(out@);
        assert(texts(path@).take(i + 1).drop_last() =~= texts(path@).take(i as int));
        assert(texts(path@).take(i + 1).last() == c@);
        if same_text(c, ".") {
        } else if same_text(c, "..") {
            let n = out.len();
            if n > 0 && is_anchor_text(out[n - 1].as_str()) {
            } else if n > 0 && !same_text(out[n - 1].as_str(), "..") {
                out.pop();
                assert(texts(out@) =~= prev.drop_last());
            } else {
                out.push(String::from_str(c));
                assert(texts(out@) =~= prev.push(c@));
            }
        } else {
            out.push(String::from_str(c));
            assert(texts(out@) =~= prev.push(c@));
        }
        i = i + 1;
    }
    assert(texts(path@).take(i as int) =~= texts(path@));
    out
}

/// A path, as its components, lies inside the home directory `home`: once
/// its `.` and `..` components are resolved, home's components begin it.
pub open spec fn inside_home(path: Seq<Seq<char>>, home: Seq<Seq<char>>) -> bool {
    strip_components(resolved(path), home) is Some
}

/// Whether the path with components `path` lies inside the home directory
/// with components `home` (see `inside_home`).
pub fn is_inside_home(path: &Vec<String>, home: &Vec<String>) -> (r: bool)
    ensures
        r == inside_home(texts(path@), texts(home@)),
{
    let resolved_path = resolve_components(path);
    strip_path_prefix(&resolved_path, home).is_some()
}

/// The verdict on a request to clear a cache directory, from what is known
/// of it: the last component of its path, whether the home directory could
/// be found, whether the path lies inside it, and whether it is a directory.
/// The checks come in that order; the first that fails gives the error.
pub open spec fn cache_clear_verdict(
    name: Seq<char>,
    home_found: bool,
    inside_home: bool,
    is_dir: bool,
) -> Result<(), Seq<char>> {
    if !is_cache_dir_name(name) {
        Err("refusing: not a recognized cache directory"@)
    } else if !home_found {
        Err("cannot resolve home directory"@)
    } else if !inside_home {
        Err("refusing: cache path is outside your home directory"@)
    } else if !is_dir {
        Err("cache directory not found"@)
    } else {
        Ok(())
    }
}

/// Decides whether a cache directory may be cleared (see `cache_clear_verdict`).
pub fn check_cache_clear(name: &str, home_found: bool, inside_home: bool, is_dir: bool) -> (r:
    Result<(), String>)
    ensures
        match r {
            Ok(()) => cache_clear_verdict(name@, home_found, inside_home, is_dir) == Ok::<
                (),
                Seq<char>,
            >(()),
            Err(m) => cache_clear_verdict(name@, home_found, inside_home, is_dir) == Err::<
                (),
                Seq<char>,
            >(m@),
        },
{
    if !(same_text(name, "Cache") || same_text(name, "cache2")) {
        return Err(String::from_str("refusing: not a recognized cache directory"));
    }
    if !home_found {
        return Err(String::from_str("cannot resolve home directory"));
    }
    if !inside_home {
        return Err(String::from_str("refusing: cache path is outside your home directory"));
    }
    if !is_dir {
        return Err(String::from_str("cache directory not found"));
    }
    Ok(())
}

} // verus!
