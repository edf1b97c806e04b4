use aletheia::cookies::{analyze_cookie_rows, chromium_micros_to_unix};
use aletheia::model::{CookieRow, DomainCookie, Family};
use aletheia::report::cookie_report_of_query;

fn row(name: Option<&str>, host: Option<&str>, expiry: i64, access: i64, secure: i64, http_only: i64) -> CookieRow {
    CookieRow {
        name: name.map(|s| s.to_string()),
        host: host.map(|s| s.to_string()),
        expiry: Some(expiry),
        last_access: Some(access),
        secure: Some(secure),
        http_only: Some(http_only),
    }
}

fn names(d: &DomainCookie) -> Vec<String> {
    d.cookies.iter().map(|c| c.name.clone()).collect()
}

#[test]
fn chromium_timestamps_convert_to_unix_seconds() {
    assert_eq!(chromium_micros_to_unix(0), None);
    assert_eq!(chromium_micros_to_unix(-5), None);
    assert_eq!(chromium_micros_to_unix(13_000_000_000_000_000), Some(1_355_526_400));
    assert_eq!(chromium_micros_to_unix(11_644_473_600_000_000), Some(0));
}

fn chromium_rows() -> Vec<CookieRow> {
    vec![
        row(Some("user_session"), Some("github.com"), 13_000_000_000_000_000, 13_100_000_000_000_000, 1, 1),
        row(Some("_octo"), Some(".github.com"), 0, 13_200_000_000_000_000, 0, 0),
        row(Some("IDE"), Some(".doubleclick.net"), 13_300_000_000_000_000, 0, 1, 0),
        row(Some("session_token"), Some("www.example.co.uk"), 0, 0, 0, 0),
        row(Some("auth"), Some("example.co.uk"), 0, 0, 0, 1),
        row(Some("x"), Some(""), 0, 0, 0, 0),
        CookieRow { name: None, host: None, expiry: None, last_access: None, secure: None, http_only: None },
        row(Some("AuthToken"), Some("a.example.com"), 0, 0, 0, 0),
    ]
}

#[test]
fn chromium_rows_are_grouped_scored_and_ordered() {
    let out = analyze_cookie_rows(&chromium_rows(), Family::Chromium);
    let domains: Vec<&str> = out.iter().map(|d| d.domain.as_str()).collect();
    assert_eq!(domains, vec!["example.co.uk", "github.com", "doubleclick.net", "example.com"]);

    let uk = &out[0];
    assert!(uk.likely_logged_in);
    assert_eq!(uk.cookie_count, 2);
    assert_eq!(uk.signals, vec!["auth".to_string(), "session_token".to_string()]);
    assert_eq!(names(uk), vec!["auth".to_string(), "session_token".to_string()]);
    assert!(!uk.is_tracker);
    assert_eq!(uk.last_access_unix, None);

    let gh = &out[1];
    assert!(gh.likely_logged_in);
    assert_eq!(gh.cookie_count, 2);
    assert_eq!(gh.signals, vec!["user_session".to_string()]);
    assert_eq!(names(gh), vec!["_octo".to_string(), "user_session".to_string()]);
    assert_eq!(gh.last_access_unix, Some(1_555_526_400));
    let us = &gh.cookies[1];
    assert_eq!(us.expires_unix, Some(1_355_526_400));
    assert!(us.secure);
    assert!(us.http_only);
    assert_eq!(gh.cookies[0].expires_unix, None);

    let dc = &out[2];
    assert!(!dc.likely_logged_in);
    assert!(dc.is_tracker);
    assert_eq!(dc.cookie_count, 1);
    assert_eq!(names(dc), vec!["ide".to_string()]);
    assert!(dc.signals.is_empty());

    let ex = &out[3];
    assert!(!ex.likely_logged_in);
    assert_eq!(ex.signals, vec!["authtoken".to_string()]);
}

#[test]
fn firefox_rows_use_unix_seconds_and_microseconds() {
    let rows = vec![
        row(Some("sid"), Some("example.org"), 1_700_000_000, 1_700_000_000_123_456, 0, 0),
        row(Some("sid"), Some("www.example.org"), -1, 1_600_000_000_000_000, 1, 0),
    ];
    let out = analyze_cookie_rows(&rows, Family::Firefox);
    assert_eq!(out.len(), 1);
    let d = &out[0];
    assert_eq!(d.domain, "example.org");
    assert_eq!(d.cookie_count, 2);
    assert_eq!(d.last_access_unix, Some(1_700_000_000));
    // equal names keep the order of the rows
    assert_eq!(d.cookies[0].expires_unix, Some(1_700_000_000));
    assert_eq!(d.cookies[1].expires_unix, None);
    assert!(d.cookies[1].secure);
    assert!(!d.likely_logged_in);
}

#[test]
fn known_login_cookie_alone_makes_a_login_and_names_are_lowered() {
    let rows = vec![row(Some("SessionID"), Some("shop.example.net"), 0, 0, 0, 0)];
    let out = analyze_cookie_rows(&rows, Family::Chromium);
    assert_eq!(out.len(), 1);
    assert_eq!(out[0].cookies[0].name, "sessionid");
    assert!(out[0].likely_logged_in);
    assert_eq!(out[0].signals, vec!["sessionid".to_string()]);
}

#[test]
fn two_hinted_cookies_make_a_login_one_does_not() {
    let one = vec![row(Some("my_token"), Some("a.test"), 0, 0, 0, 0)];
    assert!(!analyze_cookie_rows(&one, Family::Chromium)[0].likely_logged_in);
    let two = vec![
        row(Some("my_token"), Some("a.test"), 0, 0, 0, 0),
        row(Some("my_token"), Some("b.a.test"), 0, 0, 0, 0),
    ];
    let out = analyze_cookie_rows(&two, Family::Chromium);
    assert!(out[0].likely_logged_in);
    // the same name twice is one signal
    assert_eq!(out[0].signals, vec!["my_token".to_string()]);
    assert_eq!(out[0].cookie_count, 2);
}

#[test]
fn rows_without_host_give_no_report() {
    let rows = vec![
        row(Some("a"), Some(""), 0, 0, 0, 0),
        CookieRow { name: Some("b".to_string()), host: None, expiry: None, last_access: None, secure: None, http_only: None },
    ];
    assert!(analyze_cookie_rows(&rows, Family::Firefox).is_empty());
    assert!(analyze_cookie_rows(&Vec::new(), Family::Firefox).is_empty());
}

#[test]
fn more_cookies_rank_first_among_equals() {
    let rows = vec![
        row(Some("a"), Some("b.test"), 0, 0, 0, 0),
        row(Some("a"), Some("c.test"), 0, 0, 0, 0),
        row(Some("b"), Some("c.test"), 0, 0, 0, 0),
        row(Some("a"), Some("a.test"), 0, 0, 0, 0),
    ];
    let out = analyze_cookie_rows(&rows, Family::Chromium);
    let domains: Vec<&str> = out.iter().map(|d| d.domain.as_str()).collect();
    assert_eq!(domains, vec!["c.test", "a.test", "b.test"]);
}

#[test]
fn query_outcome_gives_report_of_readable_rows() {
    let failed: Result<Vec<Result<CookieRow, String>>, String> = Err("no such table: cookies".to_string());
    assert!(cookie_report_of_query(Family::Chromium, failed).is_empty());

    let rows: Vec<Result<CookieRow, String>> = vec![
        Ok(row(Some("user_session"), Some("github.com"), 0, 0, 1, 1)),
        Err("bad row".to_string()),
        Ok(row(Some("_ga"), Some(".example.org"), 0, 0, 0, 0)),
    ];
    let out = cookie_report_of_query(Family::Chromium, Ok(rows));
    let domains: Vec<&str> = out.iter().map(|d| d.domain.as_str()).collect();
    assert_eq!(domains, vec!["github.com", "example.org"]);
    assert!(out[0].likely_logged_in);
    assert_eq!(out[1].cookie_count, 1);
}
