use aletheia::browser::{
    browser_needle, browser_running_among, browser_running_in_task_list, comm_mentions_needle,
    is_pid_dir_name, ProcEntry,
};
use aletheia::logins::{
    firefox_logins_text_without, json_member, saved_logins_from_json_text, login_entry_has_origin, saved_login_from_row, saved_logins_from_json, JsonValue,
    LoginRow,
};
use aletheia::model::{CacheInfo, DomainCookie, Family, Profile, SavedLogin};
use aletheia::profiles::{
    chromium_browser_dirs, chromium_cache_candidates, firefox_cache_candidates, firefox_browser_dirs, is_chromium_profile_dir,
    firefox_profile_entries, looks_like_firefox_profile, parse_profiles_ini, pick_first_present,
    sort_names, ListedEntry, Platform,
};
use aletheia::report::{analyze_cache, build_report, partition_by_login, scan_all};

fn text(s: &str) -> JsonValue {
    JsonValue::Text(s.to_string())
}

fn object(entries: Vec<(&str, JsonValue)>) -> JsonValue {
    JsonValue::Object(entries.into_iter().map(|(k, v)| (k.to_string(), v)).collect())
}

#[test]
fn firefox_logins_list_sites_with_encrypted_users() {
    let doc = object(vec![
        ("nextId", JsonValue::Number(Some(3), "3".to_string())),
        (
            "logins",
            JsonValue::Array(vec![
                object(vec![
                    ("hostname", text("https://a.com")),
                    ("timesUsed", JsonValue::Number(Some(7), "7".to_string())),
                    ("encryptedUsername", text("MDoEEPgA")),
                ]),
                object(vec![("timesUsed", JsonValue::Number(None, "2.5".to_string()))]),
                JsonValue::Null,
                object(vec![("hostname", JsonValue::Number(Some(1), "1".to_string()))]),
            ]),
        ),
    ]);
    let logins = saved_logins_from_json(&doc);
    assert_eq!(logins.len(), 4);
    assert_eq!(logins[0].origin, "https://a.com");
    assert_eq!(logins[0].username, "(encrypted)");
    assert_eq!(logins[0].times_used, Some(7));
    assert_eq!(logins[1].origin, "");
    assert_eq!(logins[1].times_used, None);
    assert_eq!(logins[2].origin, "");
    assert_eq!(logins[3].origin, "");
}

#[test]
fn documents_without_a_logins_array_list_nothing() {
    assert!(saved_logins_from_json(&JsonValue::Null).is_empty());
    assert!(saved_logins_from_json(&object(vec![("logins", text("x"))])).is_empty());
    assert!(saved_logins_from_json(&object(vec![])).is_empty());
    assert!(saved_logins_from_json(&JsonValue::Array(vec![])).is_empty());
}

#[test]
fn json_members_and_origin_matching() {
    let e = object(vec![("hostname", text("https://a.com")), ("x", JsonValue::Bool(true))]);
    assert!(matches!(json_member(&e, "x"), Some(JsonValue::Bool(true))));
    assert!(json_member(&e, "y").is_none());
    assert!(json_member(&text("a"), "x").is_none());
    assert!(login_entry_has_origin(&e, "https://a.com"));
    assert!(!login_entry_has_origin(&e, "https://b.com"));
    assert!(!login_entry_has_origin(&JsonValue::Null, ""));
}

#[test]
fn chromium_login_rows_default_null_text_to_empty() {
    let l = saved_login_from_row(LoginRow { origin: None, username: Some("bob".to_string()), times_used: None });
    assert_eq!(l.origin, "");
    assert_eq!(l.username, "bob");
    assert_eq!(l.times_used, None);
}

#[test]
fn profiles_ini_sections_give_profiles() {
    let ini = "[General]\nStartWithLastProfile=1\n\n[Profile1]\nName=work\nIsRelative=1\nPath=Profiles/abc.work\n\n[Profile0]\r\nName=default\r\nIsRelative=0\r\nPath = x\r\nPath= /home/u/ff/xyz.default \r\nDefault=1\r\n[Install4F96]\nDefault=Profiles/abc.work\n";
    let out = parse_profiles_ini(ini);
    assert_eq!(out.len(), 2);
    assert_eq!(out[0].path, "Profiles/abc.work");
    assert!(out[0].is_relative);
    assert_eq!(out[1].path, "/home/u/ff/xyz.default");
    assert!(!out[1].is_relative);
}

#[test]
fn profiles_ini_edge_cases() {
    assert!(parse_profiles_ini("").is_empty());
    let out = parse_profiles_ini("Path=top");
    assert_eq!(out.len(), 1);
    assert_eq!(out[0].path, "top");
    assert!(out[0].is_relative);
    let out = parse_profiles_ini("[P]\nIsRelative=yes\nPath=a\n[Q]\nPath=b\nIsRelative= 0 ");
    assert_eq!(out.len(), 2);
    assert!(out[0].is_relative);
    assert!(!out[1].is_relative);
}

#[test]
fn browser_locations_per_platform() {
    let linux = chromium_browser_dirs(Platform::Linux);
    assert_eq!(linux.len(), 5);
    assert_eq!(linux[0], ("Brave", "BraveSoftware/Brave-Browser"));
    assert_eq!(linux[4], ("Edge", "microsoft-edge"));
    assert_eq!(chromium_browser_dirs(Platform::MacOs)[1], ("Chrome", "Google/Chrome"));
    assert_eq!(chromium_browser_dirs(Platform::Windows)[3], ("Edge", "Microsoft Edge/User Data"));
    assert_eq!(firefox_browser_dirs(Platform::Linux), vec![("Firefox", ".mozilla/firefox"), ("LibreWolf", ".librewolf")]);
    assert_eq!(firefox_browser_dirs(Platform::Windows)[0], ("Firefox", "Mozilla/Firefox"));
    assert!(is_chromium_profile_dir(true, false, true));
    assert!(!is_chromium_profile_dir(false, true, true));
    assert!(!is_chromium_profile_dir(true, false, false));
    assert!(looks_like_firefox_profile("abc.default"));
    assert!(!looks_like_firefox_profile("Crash Reports"));
}

#[test]
fn browser_process_detection() {
    assert_eq!(browser_needle("Brave"), "brave");
    assert_eq!(browser_needle("LibreWolf"), "librewolf");
    assert_eq!(browser_needle("Safari"), "");
    assert!(is_pid_dir_name("1234"));
    assert!(!is_pid_dir_name("self"));
    assert!(comm_mentions_needle("  Firefox-bin\n", "firefox"));
    let procs = vec![
        ProcEntry { name: "self".to_string(), comm: Some("firefox".to_string()) },
        ProcEntry { name: "12".to_string(), comm: None },
        ProcEntry { name: "40".to_string(), comm: Some("bash\n".to_string()) },
    ];
    assert!(!browser_running_among("Firefox", &procs));
    let mut more = procs;
    more.push(ProcEntry { name: "77".to_string(), comm: Some("GeckoMain-Firefox\n".to_string()) });
    assert!(browser_running_among("Firefox", &more));
    assert!(!browser_running_among("Chrome", &more));
    assert!(!browser_running_among("Unknown", &more));
    assert!(browser_running_in_task_list("Edge", Some("\"MSEDGE.EXE\",\"1\"")));
    assert!(!browser_running_in_task_list("Edge", None));
    assert!(!browser_running_in_task_list("Safari", Some("safari")));
}

fn domain(name: &str, likely: bool) -> DomainCookie {
    DomainCookie {
        domain: name.to_string(),
        cookie_count: 1,
        signals: Vec::new(),
        cookies: Vec::new(),
        likely_logged_in: likely,
        is_tracker: false,
        last_access_unix: None,
    }
}

#[test]
fn reports_split_domains_in_order() {
    let (yes, no) = partition_by_login(vec![domain("a", true), domain("b", false), domain("c", true), domain("d", false)]);
    assert_eq!(yes.iter().map(|d| d.domain.as_str()).collect::<Vec<_>>(), vec!["a", "c"]);
    assert_eq!(no.iter().map(|d| d.domain.as_str()).collect::<Vec<_>>(), vec!["b", "d"]);

    let profile = Profile {
        browser: "Firefox".to_string(),
        family: Family::Firefox,
        name: "abc.default".to_string(),
        path: "/home/u/.mozilla/firefox/abc.default".to_string(),
        cache_path: None,
    };
    let saved = vec![SavedLogin { origin: "https://a.com".to_string(), username: "(encrypted)".to_string(), times_used: None }];
    let r = build_report(&profile, vec![domain("x", false), domain("y", true)], true, saved, CacheInfo { path: None, size_bytes: 0 });
    assert_eq!(r.family, "firefox");
    assert_eq!(r.browser, "Firefox");
    assert_eq!(r.profile, "abc.default");
    assert_eq!(r.path, "/home/u/.mozilla/firefox/abc.default");
    assert!(r.browser_running);
    assert_eq!(r.logged_in_sites.len(), 1);
    assert_eq!(r.logged_in_sites[0].domain, "y");
    assert_eq!(r.other_cookie_domains[0].domain, "x");
    assert_eq!(r.saved_credential_sites.len(), 1);

    let s = scan_all(None, vec![r]);
    assert_eq!(s.generated_at, 0);
    assert_eq!(s.profiles.len(), 1);
    assert_eq!(scan_all(Some(1_700_000_000), Vec::new()).generated_at, 1_700_000_000);
}

#[test]
fn cache_summary() {
    let c = analyze_cache(Some("/home/u/.cache/x/Cache".to_string()), true, 4096);
    assert_eq!(c.path.as_deref(), Some("/home/u/.cache/x/Cache"));
    assert_eq!(c.size_bytes, 4096);
    let c = analyze_cache(Some("/gone".to_string()), false, 4096);
    assert_eq!(c.path, None);
    assert_eq!(c.size_bytes, 0);
    let c = analyze_cache(None, true, 4096);
    assert_eq!(c.path, None);
    assert_eq!(c.size_bytes, 0);
}

fn comps(v: &[&str]) -> Vec<String> {
    v.iter().map(|s| s.to_string()).collect()
}

#[test]
fn chromium_cache_places() {
    let home = comps(&["/", "home", "u"]);
    let root = comps(&["/", "home", "u", ".config", "google-chrome"]);
    let c = chromium_cache_candidates(Platform::Linux, &home, &root, "Default");
    assert_eq!(c, vec![
        comps(&["/", "home", "u", ".cache", "google-chrome", "Default", "Cache"]),
        comps(&["/", "home", "u", ".config", "google-chrome", "Default", "Cache"]),
    ]);
    let elsewhere = comps(&["/", "opt", "chrome"]);
    let c = chromium_cache_candidates(Platform::Linux, &home, &elsewhere, "Default");
    assert_eq!(c, vec![comps(&["/", "opt", "chrome", "Default", "Cache"])]);
    let c = chromium_cache_candidates(Platform::Windows, &home, &root, "Profile 1");
    assert_eq!(c.len(), 1);
}

#[test]
fn firefox_cache_places() {
    let home = comps(&["/", "home", "u"]);
    let root = comps(&["/", "home", "u", ".mozilla", "firefox"]);
    let dir = comps(&["/", "home", "u", ".mozilla", "firefox", "abc.default"]);
    let c = firefox_cache_candidates(Platform::Linux, &home, None, None, &root, &dir, Some("abc.default"));
    assert_eq!(c, vec![
        comps(&["/", "home", "u", ".cache", "mozilla", "firefox", "abc.default", "cache2"]),
        comps(&["/", "home", "u", ".cache", "firefox", "abc.default", "cache2"]),
        comps(&["/", "home", "u", ".mozilla", "firefox", "abc.default", "cache2"]),
    ]);
    assert!(firefox_cache_candidates(Platform::Linux, &home, None, None, &root, &dir, None).is_empty());
    assert_eq!(
        firefox_cache_candidates(Platform::Other, &home, None, None, &root, &dir, None),
        vec![comps(&["/", "home", "u", ".mozilla", "firefox", "abc.default", "cache2"])]
    );
    assert!(chromium_browser_dirs(Platform::Other).is_empty());
    assert!(firefox_browser_dirs(Platform::Other).is_empty());
    let roaming = comps(&["C:", "\\", "Users", "u", "AppData", "Roaming"]);
    let local = comps(&["C:", "\\", "Users", "u", "AppData", "Local"]);
    let wdir = comps(&["C:", "\\", "Users", "u", "AppData", "Roaming", "Mozilla", "Firefox", "Profiles", "p"]);
    let c = firefox_cache_candidates(Platform::Windows, &home, Some(&roaming), Some(&local), &root, &wdir, Some("p"));
    assert_eq!(c[0], comps(&["C:", "\\", "Users", "u", "AppData", "Local", "Mozilla", "Firefox", "Profiles", "p", "cache2"]));
    assert_eq!(c.len(), 2);
    let c = firefox_cache_candidates(Platform::MacOs, &home, None, None, &root, &dir, Some("abc.default"));
    assert_eq!(c, vec![comps(&["/", "home", "u", ".mozilla", "firefox", "abc.default", "cache2"])]);
}

#[test]
fn directory_entries_are_visited_in_name_order() {
    let names: Vec<String> = ["Profile 2", "Default", "Crashpad", "Profile 10", "Default", "System Profile"]
        .iter()
        .map(|s| s.to_string())
        .collect();
    let sorted = sort_names(&names);
    let want: Vec<String> = ["Crashpad", "Default", "Default", "Profile 10", "Profile 2", "System Profile"]
        .iter()
        .map(|s| s.to_string())
        .collect();
    assert_eq!(sorted, want);
    assert!(sort_names(&Vec::new()).is_empty());
}

#[test]
fn logins_json_text_is_parsed_and_listed() {
    let text = r#"{"nextId":3,"logins":[{"hostname":"https://a.com","timesUsed":7,"encryptedUsername":"MDoE"},{"hostname":"https://b.com","timesUsed":2.5},{"timesUsed":1}]}"#;
    let logins = saved_logins_from_json_text(text);
    assert_eq!(logins.len(), 3);
    assert_eq!(logins[0].origin, "https://a.com");
    assert_eq!(logins[0].username, "(encrypted)");
    assert_eq!(logins[0].times_used, Some(7));
    assert_eq!(logins[1].origin, "https://b.com");
    assert_eq!(logins[1].times_used, None);
    assert_eq!(logins[2].origin, "");
    assert!(saved_logins_from_json_text("not json").is_empty());
    assert!(saved_logins_from_json_text(r#"{"logins":{}}"#).is_empty());
}

#[test]
fn firefox_password_deletion_rewrites_logins_json() {
    let text = r#"{"nextId":4,"logins":[{"hostname":"https://a.com","timesUsed":7},{"hostname":"https://b.com","timePasswordChanged":1.5,"timesUsed":18446744073709551615},{"hostname":"https://a.com","timesUsed":1}],"version":3}"#;
    let (after, n) = firefox_logins_text_without(text, "https://a.com").unwrap();
    assert_eq!(n, 2);
    assert_eq!(
        after,
        r#"{"logins":[{"hostname":"https://b.com","timePasswordChanged":1.5,"timesUsed":18446744073709551615}],"nextId":4,"version":3}"#
    );
    let (same, none) = firefox_logins_text_without(text, "https://c.com").unwrap();
    assert_eq!(none, 0);
    assert_eq!(same, text);
    let (kept, zero) = firefox_logins_text_without(r#"{"logins":"x"}"#, "https://a.com").unwrap();
    assert_eq!((kept.as_str(), zero), (r#"{"logins":"x"}"#, 0));
    assert!(firefox_logins_text_without("{", "https://a.com").is_err());
    let (rest, one) = firefox_logins_text_without(r#"{"logins":[{"hostname":"https://a.com"}]}"#, "https://a.com").unwrap();
    assert_eq!((rest.as_str(), one), (r#"{"logins":[]}"#, 1));
}

#[test]
fn the_cache_is_the_first_candidate_present() {
    let home = comps(&["/", "home", "u"]);
    let root = comps(&["/", "home", "u", ".config", "google-chrome"]);
    let c = chromium_cache_candidates(Platform::Linux, &home, &root, "Default");
    assert_eq!(
        pick_first_present(c.clone(), &vec![false, true]),
        Some(comps(&["/", "home", "u", ".config", "google-chrome", "Default", "Cache"]))
    );
    assert_eq!(
        pick_first_present(c.clone(), &vec![true, true]),
        Some(comps(&["/", "home", "u", ".cache", "google-chrome", "Default", "Cache"]))
    );
    assert_eq!(pick_first_present(c.clone(), &vec![false, false]), None);
    assert_eq!(pick_first_present(c, &vec![false]), None);
}

#[test]
fn firefox_profiles_come_from_profiles_ini_or_the_listing() {
    let listing = vec![
        ListedEntry { name: "abc.default".to_string(), is_dir: true },
        ListedEntry { name: "Crash Reports".to_string(), is_dir: true },
        ListedEntry { name: "installs.ini".to_string(), is_dir: false },
        ListedEntry { name: "xyz.dev-edition".to_string(), is_dir: true },
    ];
    let ini = "[Profile0]\nName=default\nIsRelative=1\nPath=Profiles/q.default\n";
    let from_ini = firefox_profile_entries(Some(ini), &listing);
    assert_eq!(from_ini.len(), 1);
    assert_eq!(from_ini[0].path, "Profiles/q.default");
    assert!(from_ini[0].is_relative);
    let listed = firefox_profile_entries(None, &listing);
    let names: Vec<&str> = listed.iter().map(|e| e.path.as_str()).collect();
    assert_eq!(names, vec!["abc.default", "xyz.dev-edition"]);
    assert!(listed.iter().all(|e| e.is_relative));
    let empty_ini = firefox_profile_entries(Some("[General]\nStartWithLastProfile=1\n"), &listing);
    assert_eq!(empty_ini.len(), 2);
}
