//! The audit's data: profiles, cookie rows as read from a browser database,
//! and the per-profile report. Each type has a view over mathematical values
//! that the contracts speak of.
use vstd::prelude::*;

verus! {

/// The two families of browsers whose storage layouts the audit knows.
#[derive(Clone, Copy, Debug, PartialEq, Eq, Structural)]
pub enum Family {
    Chromium,
    Firefox,
}

/// One browser profile found on disk. Paths are held as the text that the
/// platform displays for them.
#[derive(Debug)]
pub struct Profile {
    pub browser: String,
    pub family: Family,
    pub name: String,
    pub path: String,
    pub cache_path: Option<String>,
}

pub struct ProfileView {
    pub browser: Seq<char>,
    pub family: Family,
    pub name: Seq<char>,
    pub path: Seq<char>,
    pub cache_path: Option<Seq<char>>,
}

/// The view of an optional string.
pub open spec fn opt_text(o: Option<String>) -> Option<Seq<char>> {
    match o {
        Some(s) => Some(s@),
        None => None,
    }
}

/// The views of a sequence of strings.
pub open spec fn texts(v: Seq<String>) -> Seq<Seq<char>> {
    v.map_values(|s: String| s@)
}

impl View for Profile {
    type V = ProfileView;

    open spec fn view(&self) -> ProfileView {
        ProfileView {
            browser: self.browser@,
            family: self.family,
            name: self.name@,
            path: self.path@,
            cache_path: opt_text(self.cache_path),
        }
    }
}

/// One cookie row as the browser's database holds it; a column that is NULL
/// is `None`.
#[derive(Debug)]
pub struct CookieRow {
    pub name: Option<String>,
    pub host: Option<String>,
    pub expiry: Option<i64>,
    pub last_access: Option<i64>,
    pub secure: Option<i64>,
    pub http_only: Option<i64>,
}

pub struct CookieRowView {
    pub name: Option<Seq<char>>,
    pub host: Option<Seq<char>>,
    pub expiry: Option<i64>,
    pub last_access: Option<i64>,
    pub secure: Option<i64>,
    pub http_only: Option<i64>,
}

impl View for CookieRow {
    type V = CookieRowView;

    open spec fn view(&self) -> CookieRowView {
        CookieRowView {
            name: opt_text(self.name),
            host: opt_text(self.host),
            expiry: self.expiry,
            last_access: self.last_access,
            secure: self.secure,
            http_only: self.http_only,
        }
    }
}

/// The views of a sequence of cookie rows.
pub open spec fn rows_view(rows: Seq<CookieRow>) -> Seq<CookieRowView> {
    rows.map_values(|r: CookieRow| r@)
}

/// One cookie's metadata (never its value).
#[derive(Debug)]
pub struct CookieDetail {
    pub name: String,
    /// Unix seconds when it expires; `None` for a session cookie.
    pub expires_unix: Option<i64>,
    pub secure: bool,
    pub http_only: bool,
}

pub struct CookieDetailView {
    pub name: Seq<char>,
    pub expires_unix: Option<i64>,
    pub secure: bool,
    pub http_only: bool,
}

impl View for CookieDetail {
    type V = CookieDetailView;

    open spec fn view(&self) -> CookieDetailView {
        CookieDetailView {
            name: self.name@,
            expires_unix: self.expires_unix,
            secure: self.secure,
            http_only: self.http_only,
        }
    }
}

/// The views of a sequence of cookie details.
pub open spec fn details(v: Seq<CookieDetail>) -> Seq<CookieDetailView> {
    v.map_values(|c: CookieDetail| c@)
}

/// What the audit reports of one registrable domain.
#[derive(Debug)]
pub struct DomainCookie {
    pub domain: String,
    pub cookie_count: u32,
    pub signals: Vec<String>,
    /// Per-cookie metadata (names and flags only, never values).
    pub cookies: Vec<CookieDetail>,
    pub likely_logged_in: bool,
    /// The domain is a known third-party tracker.
    pub is_tracker: bool,
    /// The most recent time any cookie of this domain was accessed (unix seconds).
    pub last_access_unix: Option<i64>,
}

pub struct DomainCookieView {
    pub domain: Seq<char>,
    pub cookie_count: u32,
    pub signals: Seq<Seq<char>>,
    pub cookies: Seq<CookieDetailView>,
    pub likely_logged_in: bool,
    pub is_tracker: bool,
    pub last_access_unix: Option<i64>,
}

impl View for DomainCookie {
    type V = DomainCookieView;

    open spec fn view(&self) -> DomainCookieView {
        DomainCookieView {
            domain: self.domain@,
            cookie_count: self.cookie_count,
            signals: texts(self.signals@),
            cookies: details(self.cookies@),
            likely_logged_in: self.likely_logged_in,
            is_tracker: self.is_tracker,
            last_access_unix: self.last_access_unix,
        }
    }
}

/// The views of a sequence of domain reports.
pub open spec fn domains_view(v: Seq<DomainCookie>) -> Seq<DomainCookieView> {
    v.map_values(|d: DomainCookie| d@)
}

/// A site with a saved login.
#[derive(Debug)]
pub struct SavedLogin {
    pub origin: String,
    pub username: String,
    pub times_used: Option<i64>,
}

pub struct SavedLoginView {
    pub origin: Seq<char>,
    pub username: Seq<char>,
    pub times_used: Option<i64>,
}

impl View for SavedLogin {
    type V = SavedLoginView;

    open spec fn view(&self) -> SavedLoginView {
        SavedLoginView {
            origin: self.origin@,
            username: self.username@,
            times_used: self.times_used,
        }
    }
}

/// The views of a sequence of saved logins.
pub open spec fn logins_view(v: Seq<SavedLogin>) -> Seq<SavedLoginView> {
    v.map_values(|l: SavedLogin| l@)
}

/// Where a profile's cache lives and how large it is.
#[derive(Debug)]
pub struct CacheInfo {
    pub path: Option<String>,
    pub size_bytes: u64,
}

/// The audit of one profile.
#[derive(Debug)]
pub struct ProfileReport {
    pub browser: String,
    pub family: String,
    pub profile: String,
    pub path: String,
    /// The owning browser appears to be running right now; deleting while it
    /// runs may not stick, since the browser can rewrite its files on exit.
    pub browser_running: bool,
    pub logged_in_sites: Vec<DomainCookie>,
    pub other_cookie_domains: Vec<DomainCookie>,
    pub saved_credential_sites: Vec<SavedLogin>,
    pub cache: CacheInfo,
}

/// The audit of every profile, stamped with the time it was made.
#[derive(Debug)]
pub struct ScanResult {
    pub generated_at: u64,
    pub profiles: Vec<ProfileReport>,
}

/// The values among `rows` that were read without error, in order.
pub open spec fn readable<T, E>(rows: Seq<Result<T, E>>) -> Seq<T>
    decreases rows.len(),
{
    if rows.len() == 0 {
        Seq::empty()
    } else {
        let rest = readable(rows.drop_last());
        match rows.last() {
            Ok(t) => rest.push(t),
            Err(_) => rest,
        }
    }
}

/// Keeps the values that were read without error, in order.
pub fn keep_readable<T, E>(rows: Vec<Result<T, E>>) -> (out: Vec<T>)
    ensures
        out@ == readable(rows@),
{
    let ghost all = rows@;
    let mut out: Vec<T> = Vec::new();
    for item in it: rows
        invariant
            it.seq() == all,
            out@ == readable(all.take(it.index() as int)),
    {
        let ghost k = it.index();
        let ghost itv = item;
        assert(item == all[k as int]);
        assert(all.take(k + 1).last() == itv);
        assert(all.take(k + 1).drop_last() =~= all.take(k as int));
        match item {
            Ok(t) => {
                out.push(t);
            },
            Err(_) => {},
        }
    }
    assert(all.take(all.len() as int) =~= all);
    out
}

} // verus!
