use aletheia::heuristics::{has_session_hint_name, is_known_login_name, is_tracker_domain, registrable_domain};
use aletheia::text::{compare_text, same_text, strip_leading_dots, text_contains, trim, TextOrder};

#[test]
fn registrable_domain_of_plain_hosts() {
    assert_eq!(registrable_domain("www.example.com"), "example.com");
    assert_eq!(registrable_domain(".example.com"), "example.com");
    assert_eq!(registrable_domain("sub.example.com"), "example.com");
    assert_eq!(registrable_domain("example.com"), "example.com");
    assert_eq!(registrable_domain("localhost"), "localhost");
    assert_eq!(registrable_domain(""), "");
    assert_eq!(registrable_domain("...a.b.c"), "b.c");
}

#[test]
fn registrable_domain_of_country_second_level() {
    assert_eq!(registrable_domain("www.example.co.uk"), "example.co.uk");
    assert_eq!(registrable_domain("a.b.com.au"), "b.com.au");
    assert_eq!(registrable_domain("co.uk"), "co.uk");
    assert_eq!(registrable_domain("x.co.uk"), "x.co.uk");
    // second-level label not in the list
    assert_eq!(registrable_domain("a.b.foo.uk"), "foo.uk");
    // top-level label longer than two bytes
    assert_eq!(registrable_domain("a.b.co.xyz"), "co.xyz");
    // a two-byte character counts as two bytes
    assert_eq!(registrable_domain("a.b.co.\u{e9}"), "b.co.\u{e9}");
    // an empty label
    assert_eq!(registrable_domain("a..com"), ".com");
}

#[test]
fn tracker_domains_are_recognised() {
    assert!(is_tracker_domain("doubleclick.net"));
    assert!(is_tracker_domain("cookielaw.org"));
    assert!(is_tracker_domain("facebook.com"));
    assert!(!is_tracker_domain("example.com"));
    assert!(!is_tracker_domain("www.doubleclick.net"));
}

#[test]
fn session_hints_and_known_cookies() {
    assert!(has_session_hint_name("wikia_session_id"));
    assert!(has_session_hint_name("__host-x"));
    assert!(has_session_hint_name("authtoken"));
    assert!(!has_session_hint_name("sidebar"));
    assert!(!has_session_hint_name("_ga"));
    assert!(is_known_login_name("user_session"));
    assert!(is_known_login_name("xs"));
    assert!(!is_known_login_name("xss"));
}

#[test]
fn text_helpers() {
    assert_eq!(trim("  Path=a \r"), "Path=a");
    assert_eq!(trim("\u{3000}x\u{a0}"), "x");
    assert_eq!(trim("   "), "");
    assert_eq!(strip_leading_dots("..a.b"), "a.b");
    assert_eq!(strip_leading_dots("a.b"), "a.b");
    assert!(text_contains("sessionid", "session"));
    assert!(text_contains("abc", ""));
    assert!(!text_contains("ab", "abc"));
    assert!(same_text("abc", "abc"));
    assert!(!same_text("abc", "abd"));
    assert_eq!(compare_text("a", "b"), TextOrder::Before);
    assert_eq!(compare_text("ab", "a"), TextOrder::After);
    assert_eq!(compare_text("", ""), TextOrder::Same);
    assert_eq!(compare_text("_octo", "user_session"), TextOrder::Before);
}
