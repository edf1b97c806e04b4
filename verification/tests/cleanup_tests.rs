use aletheia::cleanup::{
    check_cache_clear, cookie_database_file, delete_chromium_saved_password, delete_cookies_bulk,
    delete_cookies_for_domain, delete_login, delete_reached_hosts, family_label, hosts_in_domains,
    is_inside_home, parse_family, unknown_family_error,
};
use aletheia::stores::{open_cookie_store, open_login_store};
use aletheia::model::Family;
use rusqlite::Connection;

/// A directory that exists on the machine that runs the tests; each test
/// uses a database file of its own name there and rebuilds its table.
const DIR: &str = "/tmp";

#[test]
fn deletes_cookies_by_registrable_domain() {
    let db = format!("{DIR}/Cookies");
    {
        let c = Connection::open(&db).unwrap();
        c.execute("DROP TABLE IF EXISTS cookies", []).unwrap();
        c.execute("CREATE TABLE cookies (host_key TEXT, name TEXT)", [])
            .unwrap();
        for (h, n) in [
            (".example.com", "sid"),
            ("www.example.com", "a"),
            ("sub.example.com", "b"),
            ("otherexample.com", "keep"),
            ("google.com", "keep2"),
        ] {
            c.execute("INSERT INTO cookies VALUES (?1, ?2)", [h, n]).unwrap();
        }
    }
    let n = delete_cookies_for_domain(DIR, "chromium", "example.com").unwrap();
    assert_eq!(n, 3, "should delete the three example.com host_keys only");
    let c = Connection::open(&db).unwrap();
    let remaining: i64 = c
        .query_row("SELECT COUNT(*) FROM cookies", [], |r| r.get(0))
        .unwrap();
    assert_eq!(remaining, 2, "otherexample.com and google.com must survive");
    c.execute("DROP TABLE cookies", []).unwrap();
}

#[test]
fn deletes_chromium_password_by_origin_and_user() {
    let db = format!("{DIR}/Login Data");
    {
        let c = Connection::open(&db).unwrap();
        c.execute("DROP TABLE IF EXISTS logins", []).unwrap();
        c.execute(
            "CREATE TABLE logins (origin_url TEXT, username_value TEXT)",
            [],
        )
        .unwrap();
        c.execute("INSERT INTO logins VALUES ('https://a.com/', 'alice')", [])
            .unwrap();
        c.execute("INSERT INTO logins VALUES ('https://a.com/', 'bob')", [])
            .unwrap();
    }
    let n = delete_chromium_saved_password(DIR, "https://a.com/", "alice")
        .unwrap();
    assert_eq!(n, 1);
    let c = Connection::open(&db).unwrap();
    let remaining: i64 = c
        .query_row("SELECT COUNT(*) FROM logins", [], |r| r.get(0))
        .unwrap();
    assert_eq!(remaining, 1, "only alice removed, bob stays");
    c.execute("DROP TABLE logins", []).unwrap();
}

#[test]
fn bulk_deletion_reaches_every_listed_domain_in_firefox_store() {
    let db = format!("{DIR}/cookies.sqlite");
    {
        let c = Connection::open(&db).unwrap();
        c.execute("DROP TABLE IF EXISTS moz_cookies", []).unwrap();
        c.execute("CREATE TABLE moz_cookies (host TEXT, name TEXT)", []).unwrap();
        for (h, n) in [
            (".a.com", "1"),
            ("x.a.com", "2"),
            ("b.org", "3"),
            ("c.net", "4"),
            ("", "5"),
        ] {
            c.execute("INSERT INTO moz_cookies VALUES (?1, ?2)", [h, n]).unwrap();
        }
    }
    let wanted = vec!["a.com".to_string(), "b.org".to_string()];
    let n = delete_cookies_bulk(DIR, "firefox", &wanted).unwrap();
    assert_eq!(n, 3);
    let c = Connection::open(&db).unwrap();
    let remaining: i64 = c
        .query_row("SELECT COUNT(*) FROM moz_cookies", [], |r| r.get(0))
        .unwrap();
    assert_eq!(remaining, 2);
    c.execute("DROP TABLE moz_cookies", []).unwrap();
}

#[test]
fn missing_database_is_reported() {
    let r = delete_cookies_for_domain("/tmp/aletheia_no_such_profile", "chromium", "a.com");
    assert_eq!(r, Err("database not found: /tmp/aletheia_no_such_profile/Cookies".to_string()));
}

#[test]
fn unknown_family_is_refused() {
    assert_eq!(
        delete_cookies_for_domain("/nowhere", "safari", "a.com"),
        Err("unknown browser family: safari".to_string())
    );
    let some = vec!["a.com".to_string()];
    assert_eq!(
        delete_cookies_bulk("/nowhere", "opera", &some),
        Err("unknown browser family: opera".to_string())
    );
    assert_eq!(unknown_family_error("x"), "unknown browser family: x");
}

#[test]
fn bulk_deletion_of_nothing_touches_nothing() {
    assert_eq!(delete_cookies_bulk("/nowhere", "safari", &[]), Ok(0));
}

#[test]
fn families_and_their_stores() {
    assert_eq!(parse_family("chromium"), Some(Family::Chromium));
    assert_eq!(parse_family("firefox"), Some(Family::Firefox));
    assert_eq!(parse_family("Firefox"), None);
    assert_eq!(family_label(Family::Chromium), "chromium");
    assert_eq!(family_label(Family::Firefox), "firefox");
    assert_eq!(cookie_database_file(Family::Chromium), "Cookies");
    assert_eq!(cookie_database_file(Family::Firefox), "cookies.sqlite");
}

#[test]
fn hosts_are_selected_by_registrable_domain() {
    let rows: Vec<Result<Option<String>, ()>> = vec![
        Ok(Some(".example.com".to_string())),
        Ok(Some("www.example.com".to_string())),
        Err(()),
        Ok(None),
        Ok(Some("sub.example.com".to_string())),
        Ok(Some("otherexample.com".to_string())),
        Ok(Some("google.com".to_string())),
        Ok(Some("".to_string())),
    ];
    let wanted = vec!["example.com".to_string()];
    let hosts = hosts_in_domains(&rows, &wanted);
    assert_eq!(
        hosts,
        vec![".example.com".to_string(), "www.example.com".to_string(), "sub.example.com".to_string()]
    );
    assert!(hosts_in_domains(&rows, &[]).is_empty());
}

#[test]
fn cache_clearing_is_guarded() {
    assert_eq!(
        check_cache_clear("Documents", true, true, true),
        Err("refusing: not a recognized cache directory".to_string())
    );
    assert_eq!(
        check_cache_clear("Cache", false, true, true),
        Err("cannot resolve home directory".to_string())
    );
    assert_eq!(
        check_cache_clear("cache2", true, false, true),
        Err("refusing: cache path is outside your home directory".to_string())
    );
    assert_eq!(
        check_cache_clear("Cache", true, true, false),
        Err("cache directory not found".to_string())
    );
    assert_eq!(check_cache_clear("cache2", true, true, true), Ok(()));
    assert_eq!(check_cache_clear("cache", true, true, true), Err("refusing: not a recognized cache directory".to_string()));
}

fn parts(p: &[&str]) -> Vec<String> {
    p.iter().map(|s| s.to_string()).collect()
}

#[test]
fn cache_paths_must_stay_inside_home() {
    let home = parts(&["/", "home", "u"]);
    assert!(is_inside_home(&parts(&["/", "home", "u", ".cache", "chromium", "Default", "Cache"]), &home));
    assert!(!is_inside_home(&parts(&["/", "home", "u", "..", "..", "tmp", "Cache"]), &home));
    assert!(!is_inside_home(&parts(&["/", "home", "uv", "Cache"]), &home));
    assert!(!is_inside_home(&parts(&["/", "tmp", "Cache"]), &home));
    assert!(!is_inside_home(&parts(&["/", "home"]), &home));
    assert!(is_inside_home(&parts(&["/", "home", "u", "x", "..", "Cache"]), &home));
    assert!(is_inside_home(&parts(&["/", "home", "u", ".", "Cache"]), &home));
    assert!(!is_inside_home(&parts(&["/", "..", "..", "tmp", "Cache"]), &home));
    assert!(is_inside_home(&parts(&["/", "..", "home", "u", "Cache"]), &home));
}

#[test]
fn stores_open_the_family_file_of_the_profile() {
    let missing = "/tmp/aletheia_no_such_profile";
    assert_eq!(
        open_cookie_store(missing, Family::Firefox).err(),
        Some("database not found: /tmp/aletheia_no_such_profile/cookies.sqlite".to_string())
    );
    assert_eq!(
        open_login_store(missing).err(),
        Some("database not found: /tmp/aletheia_no_such_profile/Login Data".to_string())
    );
    assert_eq!(
        delete_chromium_saved_password(missing, "https://a.com/", "alice"),
        Err("database not found: /tmp/aletheia_no_such_profile/Login Data".to_string())
    );
}

#[test]
fn deletion_follows_the_hosts_read() {
    let db = format!("{DIR}/cookies.sqlite");
    {
        let c = Connection::open(&db).unwrap();
        c.execute("DROP TABLE IF EXISTS moz_cookies", []).unwrap();
        c.execute("CREATE TABLE moz_cookies (host TEXT, name TEXT)", []).unwrap();
        for (h, n) in [("a.example.com", "x"), ("a.example.com", "y"), ("b.example.com", "z"), ("other.org", "w")] {
            c.execute("INSERT INTO moz_cookies VALUES (?1, ?2)", [h, n]).unwrap();
        }
    }
    let mut store = open_cookie_store(DIR, Family::Firefox).unwrap();
    assert_eq!(store.family(), Family::Firefox);
    let wanted = vec!["example.com".to_string()];
    assert!(delete_reached_hosts(&mut store, Err(rusqlite::Error::QueryReturnedNoRows), &wanted).is_err());
    let none = vec![Ok(Some("other.org".to_string())), Ok(None)];
    assert_eq!(delete_reached_hosts(&mut store, Ok(none), &wanted), Ok(0));
    let read = vec![
        Ok(Some("a.example.com".to_string())),
        Ok(None),
        Err(rusqlite::Error::InvalidQuery),
        Ok(Some("other.org".to_string())),
    ];
    assert_eq!(delete_reached_hosts(&mut store, Ok(read), &wanted), Ok(2));
    drop(store);
    let c = Connection::open(&db).unwrap();
    let remaining: i64 = c.query_row("SELECT COUNT(*) FROM moz_cookies", [], |r| r.get(0)).unwrap();
    assert_eq!(remaining, 2, "b.example.com was not among the hosts read, other.org is elsewhere");
    c.execute("DROP TABLE moz_cookies", []).unwrap();
}

#[test]
fn login_store_deletes_by_site_and_user() {
    let db = format!("{DIR}/Login Data");
    {
        let c = Connection::open(&db).unwrap();
        c.execute("DROP TABLE IF EXISTS logins", []).unwrap();
        c.execute("CREATE TABLE logins (origin_url TEXT, username_value TEXT)", []).unwrap();
        for (o, u) in [("https://a.com/", "alice"), ("https://a.com/", "bob"), ("https://b.com/", "alice")] {
            c.execute("INSERT INTO logins VALUES (?1, ?2)", [o, u]).unwrap();
        }
    }
    let mut store = open_login_store(DIR).unwrap();
    assert_eq!(delete_login(&mut store, "https://b.com/", "alice"), Ok(1));
    assert_eq!(delete_login(&mut store, "alice", "https://a.com/"), Ok(0));
    assert_eq!(delete_login(&mut store, "https://b.com/", "alice"), Ok(0));
    drop(store);
    let c = Connection::open(&db).unwrap();
    let remaining: i64 = c.query_row("SELECT COUNT(*) FROM logins", [], |r| r.get(0)).unwrap();
    assert_eq!(remaining, 2);
    c.execute("DROP TABLE logins", []).unwrap();
}

#[test]
fn second_deletion_of_a_domain_finds_nothing() {
    let db = format!("{DIR}/Cookies");
    {
        let c = Connection::open(&db).unwrap();
        c.execute("DROP TABLE IF EXISTS cookies", []).unwrap();
        c.execute("CREATE TABLE cookies (host_key TEXT, name TEXT)", []).unwrap();
        for (h, n) in [(".example.com", "sid"), ("www.example.com", "a"), ("otherexample.com", "keep"), ("google.com", "g")] {
            c.execute("INSERT INTO cookies VALUES (?1, ?2)", [h, n]).unwrap();
        }
    }
    let both = vec!["example.com".to_string(), "google.com".to_string()];
    assert_eq!(delete_cookies_bulk(DIR, "chromium", &both), Ok(3));
    assert_eq!(delete_cookies_bulk(DIR, "chromium", &both), Ok(0));
    assert_eq!(delete_cookies_for_domain(DIR, "chromium", "example.com"), Ok(0));
    let c = Connection::open(&db).unwrap();
    let remaining: i64 = c.query_row("SELECT COUNT(*) FROM cookies", [], |r| r.get(0)).unwrap();
    assert_eq!(remaining, 1);
    c.execute("DROP TABLE cookies", []).unwrap();
}
