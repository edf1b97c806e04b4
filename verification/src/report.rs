//! Assembling the audit: the cookie report read from a database, the cache
//! summary, one report per profile, and the whole scan.
use vstd::prelude::*;

use rusqlite::Connection;

use crate::cleanup::{cookie_rows_statement, family_label, family_text};
use crate::cookies::{cookie_report, counters_fit, group_cookie_rows};
use crate::model::{
    keep_readable, opt_text, readable, rows_view, CacheInfo, CookieRow, DomainCookie, Family,
    Profile, ProfileReport, SavedLogin, ScanResult,
};
use crate::sqlite::query_cookie_rows;

verus! {

/// `out` is what the cookie query's outcome `q` gives: the cookie report of
/// the rows that read without error, when every domain's counters fit in a
/// `u32` (nothing otherwise), and nothing when the query failed.
pub open spec fn report_of_query<E>(
    out: Seq<DomainCookie>,
    q: Result<Vec<Result<CookieRow, E>>, E>,
    family: Family,
) -> bool {
    let chromium = family == Family::Chromium;
    match q {
        Ok(results) => if counters_fit(rows_view(readable(results@))) {
            cookie_report(out, rows_view(readable(results@)), chromium)
        } else {
            out.len() == 0
        },
        Err(_) => out.len() == 0,
    }
}

/// The cookie report that the outcome of the cookie query gives (see
/// `report_of_query`).
pub fn cookie_report_of_query<E>(family: Family, q: Result<Vec<Result<CookieRow, E>>, E>) -> (out:
    Vec<DomainCookie>)
    ensures
        report_of_query(out@, q, family),
{
    match q {
        Ok(results) => {
            let rows = keep_readable(results);
            match group_cookie_rows(&rows, family) {
                Some(out) => out,
                None => Vec::new(),
            }
        },
        Err(_) => Vec::new(),
    }
}

/// The cookie report of the database behind `conn`: what the outcome of
/// reading every cookie's metadata with the family's statement gives (see
/// `report_of_query`).
pub fn analyze_cookies(family: Family, conn: &Connection) -> (out: Vec<DomainCookie>)
    ensures
        exists|q: Result<Vec<Result<CookieRow, rusqlite::Error>>, rusqlite::Error>|
            report_of_query(out@, q, family),
{
    let q = query_cookie_rows(conn, family, cookie_rows_statement(family));
    let ghost qv = q;
    let out = cookie_report_of_query(family, q);
    assert(report_of_query(out@, qv, family));
    out
}

/// Where a profile's cache is and how large: the path and its size when the
/// profile names a cache directory that is present, else nothing.
pub fn analyze_cache(cache_path: Option<String>, present: bool, size_bytes: u64) -> (c: CacheInfo)
    ensures
        opt_text(c.path) == (if present {
            opt_text(cache_path)
        } else {
            None
        }),
        c.size_bytes == (if present && cache_path is Some {
            size_bytes
        } else {
            0
        }),
{
    match cache_path {
        Some(p) => if present {
            CacheInfo { path: Some(p), size_bytes }
        } else {
            CacheInfo { path: None, size_bytes: 0 }
        },
        None => CacheInfo { path: None, size_bytes: 0 },
    }
}

pub open spec fn is_likely(d: DomainCookie) -> bool {
    d.likely_logged_in
}

pub open spec fn is_not_likely(d: DomainCookie) -> bool {
    !d.likely_logged_in
}

/// Selects the domains reported as likely logged in.
pub open spec fn likely_pred() -> spec_fn(DomainCookie) -> bool {
    |d: DomainCookie| is_likely(d)
}

/// Selects the other domains.
pub open spec fn other_pred() -> spec_fn(DomainCookie) -> bool {
    |d: DomainCookie| is_not_likely(d)
}

/// Splits the domain reports into the likely logins and the rest, each in
/// the order they came.
pub fn partition_by_login(cookies: Vec<DomainCookie>) -> (r: (Vec<DomainCookie>, Vec<DomainCookie>))
    ensures
        r.0@ == cookies@.filter(likely_pred()),
        r.1@ == cookies@.filter(other_pred()),
{
    let ghost all = cookies@;
    let ghost p = likely_pred();
    let ghost q = other_pred();
    let mut yes: Vec<DomainCookie> = Vec::new();
    let mut no: Vec<DomainCookie> = Vec::new();
    for d in it: cookies
        invariant
            it.seq() == all,
            p == likely_pred(),
            q == other_pred(),
            yes@ == all.take(it.index() as int).filter(p),
            no@ == all.take(it.index() as int).filter(q),
    {
        let ghost k = it.index();
        let ghost dv = d;
        assert(d == all[k as int]);
        assert(all.take(k + 1) =~= all.take(k as int).push(dv));
        proof {
            all.take(k as int).lemma_filter_push(dv, p);
            all.take(k as int).lemma_filter_push(dv, q);
        }
        if d.likely_logged_in {
            yes.push(d);
        } else {
            no.push(d);
        }
    }
    assert(all.take(all.len() as int) =~= all);
    (yes, no)
}

/// The report of one profile: its names, its family as text, its cookie
/// domains split into likely logins and the rest (each in the order given),
/// its saved logins, its cache, and whether its browser is running.
pub fn build_report(
    profile: &Profile,
    cookies: Vec<DomainCookie>,
    browser_running: bool,
    saved_logins: Vec<SavedLogin>,
    cache: CacheInfo,
) -> (r: ProfileReport)
    ensures
        r.browser@ == profile.browser@,
        r.family@ == family_text(profile.family),
        r.profile@ == profile.name@,
        r.path@ == profile.path@,
        r.browser_running == browser_running,
        r.logged_in_sites@ == cookies@.filter(likely_pred()),
        r.other_cookie_domains@ == cookies@.filter(other_pred()),
        r.saved_credential_sites@ == saved_logins@,
        r.cache == cache,
{
    let (logged_in, other) = partition_by_login(cookies);
    ProfileReport {
        browser: profile.browser.clone(),
        family: family_label(profile.family),
        profile: profile.name.clone(),
        path: profile.path.clone(),
        browser_running,
        logged_in_sites: logged_in,
        other_cookie_domains: other,
        saved_credential_sites: saved_logins,
        cache,
    }
}

/// The whole scan: the reports of every profile, stamped with the time in
/// unix seconds, or zero when the clock reads before the epoch.
pub fn scan_all(now_unix: Option<u64>, profiles: Vec<ProfileReport>) -> (r: ScanResult)
    ensures
        r.generated_at == (match now_unix {
            Some(t) => t,
            None => 0,
        }),
        r.profiles@ == profiles@,
{
    let generated_at = match now_unix {
        Some(t) => t,
        None => 0,
    };
    ScanResult { generated_at, profiles }
}

} // verus!
