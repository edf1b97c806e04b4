//! The heuristics of the audit: which cookie names suggest a session, which
//! are known login cookies, which domains are trackers, and how a host name
//! is cut down to its registrable domain.
use vstd::prelude::*;
use vstd::utf8::{encode_scalar, encode_utf8};

use crate::text::{chars_of, chars_contain, contains_text, same_text, strip_leading_dots, without_leading_dots};

verus! {

/// Substrings of a (lower-case) cookie name that suggest an authenticated
/// session. Kept specific on purpose: bare "sid" would match "sidebar".
pub open spec fn session_hints() -> Seq<&'static str> {
    seq!["session", "auth", "token", "login", "logged", "jwt", "sso", "remember", "__host-", "__secure-"]
}

/// Cookie names that well-known sites use for their login session.
pub open spec fn known_login_cookies() -> Seq<&'static str> {
    seq![
        "li_at",
        "sessionid",
        "phpsessid",
        "jsessionid",
        "__secure-1psid",
        "sapisid",
        "c_user",
        "xs",
        "ds_user_id",
        "reddit_session",
        "twid",
        "auth_token",
        "user_session",
        "_gh_sess",
    ]
}

/// Registrable domains of well-known third-party trackers and ad networks.
pub open spec fn tracker_domains() -> Seq<&'static str> {
    seq![
        "doubleclick.net",
        "google-analytics.com",
        "googletagmanager.com",
        "googlesyndication.com",
        "googleadservices.com",
        "adnxs.com",
        "scorecardresearch.com",
        "quantserve.com",
        "criteo.com",
        "criteo.net",
        "taboola.com",
        "outbrain.com",
        "hotjar.com",
        "segment.com",
        "segment.io",
        "mixpanel.com",
        "amplitude.com",
        "branch.io",
        "adsrvr.org",
        "rubiconproject.com",
        "pubmatic.com",
        "openx.net",
        "casalemedia.com",
        "bluekai.com",
        "demdex.net",
        "everesttech.net",
        "mathtag.com",
        "bidswitch.net",
        "yieldmo.com",
        "facebook.com",
        "fbcdn.net",
        "ads-twitter.com",
        "bing.com",
        "clarity.ms",
        "newrelic.com",
        "nr-data.net",
        "optimizely.com",
        "fullstory.com",
        "cloudflareinsights.com",
        "sentry.io",
        "chartbeat.com",
        "sharethis.com",
        "addthis.com",
        "onetrust.com",
        "cookielaw.org",
    ]
}

/// Second-level labels under which a two-letter country code makes a
/// three-label registrable domain (as in `example.co.uk`).
pub open spec fn second_level_labels() -> Seq<&'static str> {
    seq!["co", "com", "org", "net", "gov", "edu", "ac"]
}

/// `t` is one of the texts in `list`.
pub open spec fn listed(list: Seq<&'static str>, t: Seq<char>) -> bool {
    exists|i: int| 0 <= i < list.len() && list[i]@ == t
}

/// The cookie name holds one of the session hints.
pub open spec fn has_session_hint(name: Seq<char>) -> bool {
    exists|i: int| 0 <= i < session_hints().len() && contains_text(name, session_hints()[i]@)
}

/// The cookie name is a known login cookie.
pub open spec fn is_known_login_cookie(name: Seq<char>) -> bool {
    listed(known_login_cookies(), name)
}

/// The domain is a known tracker.
pub open spec fn is_tracker(domain: Seq<char>) -> bool {
    listed(tracker_domains(), domain)
}

fn is_listed(list: &Vec<&'static str>, t: &str) -> (r: bool)
    ensures
        r == listed(list@, t@),
{
    let mut i: usize = 0;
    while i < list.len()
        invariant
            i <= list@.len(),
            forall|j: int| 0 <= j < i ==> list@[j]@ != t@,
        decreases list@.len() - i,
    {
        if same_text(list[i], t) {
            return true;
        }
        i = i + 1;
    }
    false
}

/// Whether `domain` is one of the known tracker domains.
pub fn is_tracker_domain(domain: &str) -> (r: bool)
    ensures
        r == is_tracker(domain@),
{
    let list: Vec<&'static str> = vec![
        "doubleclick.net",
        "google-analytics.com",
        "googletagmanager.com",
        "googlesyndication.com",
        "googleadservices.com",
        "adnxs.com",
        "scorecardresearch.com",
        "quantserve.com",
        "criteo.com",
        "criteo.net",
        "taboola.com",
        "outbrain.com",
        "hotjar.com",
        "segment.com",
        "segment.io",
        "mixpanel.com",
        "amplitude.com",
        "branch.io",
        "adsrvr.org",
        "rubiconproject.com",
        "pubmatic.com",
        "openx.net",
        "casalemedia.com",
        "bluekai.com",
        "demdex.net",
        "everesttech.net",
        "mathtag.com",
        "bidswitch.net",
        "yieldmo.com",
        "facebook.com",
        "fbcdn.net",
        "ads-twitter.com",
        "bing.com",
        "clarity.ms",
        "newrelic.com",
        "nr-data.net",
        "optimizely.com",
        "fullstory.com",
        "cloudflareinsights.com",
        "sentry.io",
        "chartbeat.com",
        "sharethis.com",
        "addthis.com",
        "onetrust.com",
        "cookielaw.org",
    ];
    assert(list@ == tracker_domains());
    is_listed(&list, domain)
}

/// Whether `name` is a known login cookie.
pub fn is_known_login_name(name: &str) -> (r: bool)
    ensures
        r == is_known_login_cookie(name@),
{
    let list: Vec<&'static str> = vec![
        "li_at",
        "sessionid",
        "phpsessid",
        "jsessionid",
        "__secure-1psid",
        "sapisid",
        "c_user",
        "xs",
        "ds_user_id",
        "reddit_session",
        "twid",
        "auth_token",
        "user_session",
        "_gh_sess",
    ];
    assert(list@ == known_login_cookies());
    is_listed(&list, name)
}

/// Whether `name` holds one of the session hints.
pub fn has_session_hint_name(name: &str) -> (r: bool)
    ensures
        r == has_session_hint(name@),
{
    let list: Vec<&'static str> = vec![
        "session",
        "auth",
        "token",
        "login",
        "logged",
        "jwt",
        "sso",
        "remember",
        "__host-",
        "__secure-",
    ];
    assert(list@ == session_hints());
    let hay = chars_of(name);
    let mut i: usize = 0;
    while i < list.len()
        invariant
            list@ == session_hints(),
            hay@ == name@,
            i <= list@.len(),
            forall|j: int| 0 <= j < i ==> !contains_text(name@, list@[j]@),
        decreases list@.len() - i,
    {
        let needle = chars_of(list[i]);
        if chars_contain(&hay, &needle) {
            return true;
        }
        i = i + 1;
    }
    false
}

// ---------------------------------------------------------------------------
// Registrable domain
// ---------------------------------------------------------------------------

/// Position of the last dot of `t` before position `end`, or -1 when there is none.
pub open spec fn last_dot_before(t: Seq<char>, end: int) -> int
    decreases end,
{
    if end <= 0 {
        -1
    } else if t[end - 1] == '.' {
        end - 1
    } else {
        last_dot_before(t, end - 1)
    }
}

/// A cheap approximation of a host's registrable domain (eTLD+1), without a
/// public-suffix list. Leading dots are dropped; a host with fewer than two
/// dots is its own registrable domain. Otherwise the result is the part after
/// the second-to-last dot, or after the third-to-last dot when the
/// second-to-last label is one of `second_level_labels` and the last label is
/// two bytes long in UTF-8 (as in `example.co.uk`).
pub open spec fn registrable_domain_of(host: Seq<char>) -> Seq<char> {
    let t = without_leading_dots(host);
    let p1 = last_dot_before(t, t.len() as int);
    let p2 = last_dot_before(t, p1);
    if p1 < 0 || p2 < 0 {
        t
    } else {
        let p3 = last_dot_before(t, p2);
        let top = t.subrange(p1 + 1, t.len() as int);
        let second = t.subrange(p2 + 1, p1);
        if listed(second_level_labels(), second) && encode_utf8(top).len() == 2 {
            t.subrange(p3 + 1, t.len() as int)
        } else {
            t.subrange(p2 + 1, t.len() as int)
        }
    }
}

pub proof fn lemma_last_dot_before_bounds(t: Seq<char>, end: int)
    requires
        end <= t.len(),
    ensures
        -1 <= last_dot_before(t, end),
        end <= 0 ==> last_dot_before(t, end) == -1,
        end > 0 ==> last_dot_before(t, end) < end,
        last_dot_before(t, end) >= 0 ==> t[last_dot_before(t, end)] == '.',
    decreases end,
{
    if end > 0 && t[end - 1] != '.' {
        lemma_last_dot_before_bounds(t, end - 1);
    }
}

fn find_last_dot(t: &Vec<char>, end: usize) -> (r: Option<usize>)
    requires
        end <= t@.len(),
    ensures
        match r {
            Some(p) => p < end && last_dot_before(t@, end as int) == p as int,
            None => last_dot_before(t@, end as int) == -1,
        },
{
    let mut i = end;
    while i > 0 && t[i - 1] != '.'
        invariant
            i <= end <= t@.len(),
            last_dot_before(t@, end as int) == last_dot_before(t@, i as int),
        decreases i,
    {
        i = i - 1;
    }
    if i == 0 {
        None
    } else {
        Some(i - 1)
    }
}

proof fn lemma_scalar_width(c: char)
    ensures
        encode_scalar(c as u32).len() == (if (c as u32) <= 0x7F {
            1int
        } else if (c as u32) <= 0x7FF {
            2int
        } else if (c as u32) <= 0xFFFF {
            3int
        } else {
            4int
        }),
{
    broadcast use vstd::utf8::char_is_scalar;

    assert(vstd::utf8::is_scalar(c as u32));
}

proof fn lemma_utf8_len_at_least(s: Seq<char>)
    ensures
        encode_utf8(s).len() >= s.len(),
    decreases s.len(),
{
    if s.len() > 0 {
        lemma_scalar_width(s[0]);
        lemma_utf8_len_at_least(s.drop_first());
    }
}

/// Whether the UTF-8 encoding of `cs` is exactly two bytes long.
fn is_two_bytes(cs: &Vec<char>) -> (r: bool)
    ensures
        r == (encode_utf8(cs@).len() == 2),
{
    proof {
        lemma_utf8_len_at_least(cs@);
    }
    if cs.len() == 1 {
        let c = cs[0];
        proof {
            lemma_scalar_width(c);
            assert(cs@.drop_first() =~= Seq::<char>::empty());
            assert(encode_utf8(cs@) == encode_scalar(c as u32) + encode_utf8(cs@.drop_first()));
        }
        let v = c as u32;
        0x80 <= v && v <= 0x7FF
    } else if cs.len() == 2 {
        let c0 = cs[0];
        let c1 = cs[1];
        proof {
            lemma_scalar_width(c0);
            lemma_scalar_width(c1);
            let rest = cs@.drop_first();
            assert(rest[0] == c1);
            assert(rest.drop_first() =~= Seq::<char>::empty());
            assert(encode_utf8(rest) == encode_scalar(c1 as u32) + encode_utf8(rest.drop_first()));
            assert(encode_utf8(cs@) == encode_scalar(c0 as u32) + encode_utf8(rest));
        }
        (c0 as u32) <= 0x7F && (c1 as u32) <= 0x7F
    } else {
        false
    }
}

fn is_second_level_label(label: &str) -> (r: bool)
    ensures
        r == listed(second_level_labels(), label@),
{
    let list: Vec<&'static str> = vec!["co", "com", "org", "net", "gov", "edu", "ac"];
    assert(list@ == second_level_labels());
    is_listed(&list, label)
}

/// The registrable domain of a host name (see `registrable_domain_of`).
pub fn registrable_domain(host: &str) -> (d: String)
    ensures
        d@ == registrable_domain_of(host@),
{
    let t = strip_leading_dots(host);
    let tc = chars_of(t);
    let n = tc.len();
    proof {
        lemma_last_dot_before_bounds(tc@, n as int);
    }
    let p1 = match find_last_dot(&tc, n) {
        Some(p) => p,
        None => {
            proof {
                lemma_last_dot_before_bounds(tc@, -1);
            }
            return String::from_str(t);
        },
    };
    proof {
        lemma_last_dot_before_bounds(tc@, p1 as int);
    }
    let p2 = match find_last_dot(&tc, p1) {
        Some(p) => p,
        None => {
            return String::from_str(t);
        },
    };
    proof {
        lemma_last_dot_before_bounds(tc@, p2 as int);
    }
    let p3 = find_last_dot(&tc, p2);
    let top = t.substring_char(p1 + 1, n);
    let second = t.substring_char(p2 + 1, p1);
    let is_second = is_second_level_label(second);
    let top_chars = chars_of(top);
    let two_bytes = is_two_bytes(&top_chars);
    let start: usize = if is_second && two_bytes {
        match p3 {
            Some(p) => p + 1,
            None => 0,
        }
    } else {
        p2 + 1
    };
    String::from_str(t.substring_char(start, n))
}

} // verus!
