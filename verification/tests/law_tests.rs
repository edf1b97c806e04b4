use aletheia::cleanup::hosts_in_domains;
use aletheia::cookies::analyze_cookie_rows;
use aletheia::heuristics::registrable_domain;
use aletheia::model::{CookieRow, Family};
use aletheia::report::partition_by_login;

fn row(name: &str, host: &str, access: i64) -> CookieRow {
    CookieRow {
        name: Some(name.to_string()),
        host: Some(host.to_string()),
        expiry: Some(0),
        last_access: Some(access),
        secure: Some(0),
        http_only: Some(0),
    }
}

fn sample() -> Vec<CookieRow> {
    vec![
        row("sid", ".example.com", 0),
        row("a", "www.example.com", 1_700_000_000_000_000),
        row("login_hint", "sub.example.com", 1_600_000_000_000_000),
        row("keep", "otherexample.com", 0),
        row("keep2", "google.com", 0),
        row("c_user", "www.facebook.com", 1_650_000_000_000_000),
        row("remember_me", "shop.example.co.uk", 0),
        row("sso_token", "example.co.uk", 0),
        row("x", "", 0),
    ]
}

#[test]
fn deleting_a_reported_domain_reaches_exactly_its_counted_cookies() {
    let rows = sample();
    let report = analyze_cookie_rows(&rows, Family::Firefox);
    let hosts: Vec<Result<Option<String>, ()>> = rows.iter().map(|r| Ok(r.host.clone())).collect();
    for d in &report {
        let reached = hosts_in_domains(&hosts, &[d.domain.clone()]);
        assert_eq!(reached.len() as u32, d.cookie_count, "domain {}", d.domain);
        for h in &reached {
            assert_eq!(registrable_domain(h), d.domain);
        }
    }
}

#[test]
fn each_counted_row_is_in_exactly_one_report() {
    let rows = sample();
    let report = analyze_cookie_rows(&rows, Family::Chromium);
    let total: u32 = report.iter().map(|d| d.cookie_count).sum();
    assert_eq!(total, 8);
    for (i, a) in report.iter().enumerate() {
        for b in report.iter().skip(i + 1) {
            assert_ne!(a.domain, b.domain);
        }
    }
}

#[test]
fn counts_match_details_and_signals_name_cookies() {
    let report = analyze_cookie_rows(&sample(), Family::Chromium);
    for d in &report {
        assert_eq!(d.cookie_count as usize, d.cookies.len());
        for s in &d.signals {
            assert!(d.cookies.iter().any(|c| &c.name == s));
        }
        for w in d.cookies.windows(2) {
            assert!(w[0].name <= w[1].name);
        }
        for w in d.signals.windows(2) {
            assert!(w[0] < w[1]);
        }
    }
}

#[test]
fn likely_login_means_known_cookie_or_two_hints() {
    let report = analyze_cookie_rows(&sample(), Family::Chromium);
    let get = |name: &str| report.iter().find(|d| d.domain == name).unwrap();
    // one known login cookie
    assert!(get("facebook.com").likely_logged_in);
    // two hinted cookies
    assert!(get("example.co.uk").likely_logged_in);
    // one hinted cookie only
    assert!(!get("example.com").likely_logged_in);
    assert!(!get("google.com").likely_logged_in);
    // likely logins come first
    let first_other = report.iter().position(|d| !d.likely_logged_in).unwrap();
    assert!(report[first_other..].iter().all(|d| !d.likely_logged_in));
}

#[test]
fn last_access_is_the_latest_of_the_domain() {
    let report = analyze_cookie_rows(&sample(), Family::Firefox);
    let ex = report.iter().find(|d| d.domain == "example.com").unwrap();
    assert_eq!(ex.last_access_unix, Some(1_700_000_000));
    let g = report.iter().find(|d| d.domain == "google.com").unwrap();
    assert_eq!(g.last_access_unix, None);
}

#[test]
fn registrable_domain_ends_the_host() {
    for h in ["www.example.com", ".example.com", "a.b.co.uk", "localhost", "a..com", "x.y.z.w", ""] {
        let d = registrable_domain(h);
        assert!(h.ends_with(d.as_str()), "{} / {}", h, d);
    }
}

#[test]
fn cookie_counts_add_up_to_the_rows_with_a_host() {
    let rows = sample();
    let report = analyze_cookie_rows(&rows, Family::Chromium);
    let total: u32 = report.iter().map(|d| d.cookie_count).sum();
    assert_eq!(total, 8);
    assert_eq!(total as usize, rows.iter().filter(|r| r.host.as_deref().is_some_and(|h| !h.is_empty())).count());
}

#[test]
fn registrable_domains_are_whole_trailing_labels() {
    for (host, want) in [
        ("a.b.example.co.uk", "example.co.uk"),
        ("x.y.z.com", "z.com"),
        ("..www.github.com", "github.com"),
        ("localhost", "localhost"),
        ("example.com", "example.com"),
        ("a.b.com.br", "b.com.br"),
        ("shop.example.co.jp", "example.co.jp"),
    ] {
        let r = registrable_domain(host);
        assert_eq!(r, want, "host {host}");
        let t = host.trim_start_matches('.');
        assert!(r == t || t.ends_with(&format!(".{r}")));
        assert!(r.split('.').count() <= 3);
        assert_eq!(registrable_domain(&r), r, "taking it twice, host {host}");
    }
}

#[test]
fn reached_hosts_depend_only_on_the_set_of_domains() {
    let hosts: Vec<Result<Option<String>, ()>> = sample().iter().map(|r| Ok(r.host.clone())).collect();
    let a = vec!["example.com".to_string(), "google.com".to_string()];
    let b = vec!["google.com".to_string(), "example.com".to_string(), "google.com".to_string()];
    assert_eq!(hosts_in_domains(&hosts, &a), hosts_in_domains(&hosts, &b));
    assert_eq!(hosts_in_domains(&hosts, &a).len(), 4);
}

#[test]
fn split_report_rejoins_in_order() {
    let report = analyze_cookie_rows(&sample(), Family::Chromium);
    let order: Vec<String> = report.iter().map(|d| d.domain.clone()).collect();
    let (likely, other) = partition_by_login(report);
    assert!(likely.iter().all(|d| d.likely_logged_in));
    assert!(other.iter().all(|d| !d.likely_logged_in));
    let rejoined: Vec<String> = likely.iter().chain(other.iter()).map(|d| d.domain.clone()).collect();
    assert_eq!(rejoined, order);
    assert!(!likely.is_empty() && !other.is_empty());
}
