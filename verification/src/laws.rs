//! Properties of the audit as a whole, each stated over the specifications
//! that the functions' contracts use and proved from them.
use vstd::prelude::*;

use crate::cleanup::{
    cache_clear_verdict, cookie_db_file, cookie_rows_sql, delete_host_sql, family_named,
    family_text, delete_login_sql, distinct_hosts_sql,
    host_in_domains, host_in_domains_pred, is_cache_dir_name, reached_hosts,
};
use crate::cookies::{
    any_known_login, cookie_report, domain_rows, in_domain, in_domain_pred, latest_access, named, reports_domain,
    row_accessed, row_counts, row_domain, row_host, row_name, row_score, signal_names,
    stably_sorted_by_name, total_score, row_details, row_detail, unix_from_chromium, int_or_zero,
    row_expires,
};
use crate::heuristics::{
    has_session_hint, is_known_login_cookie, known_login_cookies, last_dot_before,
    lemma_last_dot_before_bounds, listed, registrable_domain_of, second_level_labels, session_hints,
    tracker_domains,
};
use vstd::utf8::encode_utf8;
use crate::profiles::{
    chromium_cache_places, chromium_locations, firefox_cache_places, firefox_locations,
    first_present, Platform,
};
use crate::browser::needle_of;
use crate::logins::{login_of_entry, login_rows_sql};
use crate::logins::JsonValue;
use crate::report::{likely_pred, other_pred};
use crate::model::{CookieDetailView, CookieRowView, DomainCookie, DomainCookieView, Family};
use crate::text::{lemma_lex_irreflexive, without_leading_dots};

verus! {

/// How many of the rows have a name with a session hint.
pub open spec fn hint_count(rs: Seq<CookieRowView>) -> int
    decreases rs.len(),
{
    if rs.len() == 0 {
        0
    } else {
        hint_count(rs.drop_last()) + if has_session_hint(row_name(rs.last())) {
            1int
        } else {
            0int
        }
    }
}

/// How many of the rows are known login cookies.
pub open spec fn known_count(rs: Seq<CookieRowView>) -> int
    decreases rs.len(),
{
    if rs.len() == 0 {
        0
    } else {
        known_count(rs.drop_last()) + if is_known_login_cookie(row_name(rs.last())) {
            1int
        } else {
            0int
        }
    }
}

proof fn lemma_score_counts(rs: Seq<CookieRowView>)
    ensures
        total_score(rs) == hint_count(rs) + 2 * known_count(rs),
        0 <= hint_count(rs),
        0 <= known_count(rs),
        known_count(rs) > 0 <==> any_known_login(rs),
    decreases rs.len(),
{
    if rs.len() > 0 {
        let rest = rs.drop_last();
        lemma_score_counts(rest);
        if any_known_login(rest) {
            let i = choose|i: int| 0 <= i < rest.len() && is_known_login_cookie(row_name(rest[i]));
            assert(rs[i] == rest[i]);
        }
        if any_known_login(rs) {
            let i = choose|i: int| 0 <= i < rs.len() && is_known_login_cookie(row_name(rs[i]));
            if i < rest.len() {
                assert(rs[i] == rest[i]);
            }
        }
        if is_known_login_cookie(row_name(rs.last())) {
            assert(is_known_login_cookie(row_name(rs[rs.len() - 1])));
        }
    }
}

/// A domain is reported as likely logged in exactly when one of its cookies
/// is a well-known login cookie, or at least two of its cookies have names
/// that match session patterns.
pub proof fn law_likely_login(dc: DomainCookieView, rows: Seq<CookieRowView>, chromium: bool)
    requires
        reports_domain(dc, rows, chromium),
    ensures
        dc.likely_logged_in == (any_known_login(domain_rows(rows, dc.domain)) || hint_count(
            domain_rows(rows, dc.domain),
        ) >= 2),
{
    lemma_score_counts(domain_rows(rows, dc.domain));
}

/// Deleting a reported domain reaches exactly the cookies that the scan
/// counted under it: a row belongs to domain `d` exactly when its host is one
/// that a deletion for `d` removes.
pub proof fn law_deletion_matches_scan(r: CookieRowView, d: Seq<char>)
    ensures
        in_domain(r, d) == host_in_domains(row_host(r), seq![d]),
{
    if row_counts(r) && row_domain(r) == d {
        assert(seq![d][0] == registrable_domain_of(row_host(r)));
    }
    if host_in_domains(row_host(r), seq![d]) {
        let i = choose|i: int| 0 <= i < 1 && seq![d][i] == registrable_domain_of(row_host(r));
    }
}

/// Each row with a host is counted under exactly one reported domain.
pub proof fn law_each_row_in_one_report(
    out: Seq<DomainCookie>,
    rows: Seq<CookieRowView>,
    chromium: bool,
    k: int,
)
    requires
        cookie_report(out, rows, chromium),
        0 <= k < rows.len(),
        row_counts(rows[k]),
    ensures
        exists|i: int| 0 <= i < out.len() && out[i]@.domain == row_domain(rows[k]),
        forall|i: int, j: int|
            0 <= i < out.len() && 0 <= j < out.len() && out[i]@.domain == row_domain(rows[k])
                && out[j]@.domain == row_domain(rows[k]) ==> i == j,
{
    assert forall|i: int, j: int|
        0 <= i < out.len() && 0 <= j < out.len() && out[i]@.domain == row_domain(rows[k])
            && out[j]@.domain == row_domain(rows[k]) implies i == j by {
        if i != j {
            law_domains_reported_once(out, rows, chromium, i, j);
        }
    }
}

/// No domain is reported twice.
pub proof fn law_domains_reported_once(
    out: Seq<DomainCookie>,
    rows: Seq<CookieRowView>,
    chromium: bool,
    i: int,
    j: int,
)
    requires
        cookie_report(out, rows, chromium),
        0 <= i < out.len(),
        0 <= j < out.len(),
        i != j,
    ensures
        out[i]@.domain != out[j]@.domain,
{
    assert(reports_domain(out[i]@, rows, chromium));
    assert(reports_domain(out[j]@, rows, chromium));
    lemma_lex_irreflexive(out[i]@.domain);
    if i > j {
        assert(crate::cookies::ranks_before(out[j]@, out[i]@));
    } else {
        assert(crate::cookies::ranks_before(out[i]@, out[j]@));
    }
}

/// A domain's cookie count is the number of cookies it lists.
pub proof fn law_count_matches_details(dc: DomainCookieView, rows: Seq<CookieRowView>, chromium: bool)
    requires
        reports_domain(dc, rows, chromium),
    ensures
        dc.cookie_count == dc.cookies.len(),
{
}

/// The reported last access is the latest access of any of the domain's
/// cookies, and there is none exactly when no cookie records an access.
pub proof fn law_last_access_is_latest(rs: Seq<CookieRowView>, chromium: bool)
    ensures
        match latest_access(rs, chromium) {
            Some(t) => (exists|k: int| 0 <= k < rs.len() && row_accessed(rs[k], chromium) == Some(t))
                && forall|k: int|
                0 <= k < rs.len() ==> match #[trigger] row_accessed(rs[k], chromium) {
                    Some(a) => a <= t,
                    None => true,
                },
            None => forall|k: int| 0 <= k < rs.len() ==> row_accessed(rs[k], chromium) is None,
        },
    decreases rs.len(),
{
    if rs.len() > 0 {
        let rest = rs.drop_last();
        law_last_access_is_latest(rest, chromium);
        assert forall|k: int| 0 <= k < rest.len() implies rs[k] == rest[k] by {}
        let last = rs.last();
        assert(rs[rs.len() - 1] == last);
        match latest_access(rest, chromium) {
            Some(t) => {
                let w = choose|k: int|
                    0 <= k < rest.len() && row_accessed(rest[k], chromium) == Some(t);
                assert(rs[w] == rest[w]);
            },
            None => {},
        }
    }
}

/// Every signal of a domain is the (lower-case) name of one of the cookies
/// it lists.
pub proof fn law_signals_name_listed_cookies(
    dc: DomainCookieView,
    rows: Seq<CookieRowView>,
    chromium: bool,
    s: Seq<char>,
)
    requires
        reports_domain(dc, rows, chromium),
        dc.signals.contains(s),
    ensures
        exists|c: int| 0 <= c < dc.cookies.len() && dc.cookies[c].name == s,
{
    let rs = domain_rows(rows, dc.domain);
    assert(dc.signals.to_set().contains(s));
    assert(signal_names(rs).contains(s));
    let i = choose|i: int| 0 <= i < rs.len() && row_name(rs[i]) == s;
    let inp = row_details(rs, chromium);
    assert(inp[i] == row_detail(rs[i], chromium));
    let pred = crate::cookies::has_name(s);
    inp.lemma_filter_contains(pred, i);
    assert(named(inp, s).contains(inp[i]));
    assert(named(dc.cookies, s) == named(inp, s));
    let w = choose|w: int| 0 <= w < named(inp, s).len() && named(inp, s)[w] == inp[i];
    dc.cookies.lemma_filter_pred(pred, w);
    assert(named(dc.cookies, s)[w].name == s);
    reveal(Seq::filter);
    lemma_filter_member(dc.cookies, pred, w);
}

proof fn lemma_filter_member<A>(s: Seq<A>, pred: spec_fn(A) -> bool, w: int)
    requires
        0 <= w < s.filter(pred).len(),
    ensures
        exists|c: int| 0 <= c < s.len() && s[c] == s.filter(pred)[w],
    decreases s.len(),
{
    reveal(Seq::filter);
    let rest = s.drop_last();
    if w < rest.filter(pred).len() {
        lemma_filter_member(rest, pred, w);
        let c = choose|c: int| 0 <= c < rest.len() && rest[c] == rest.filter(pred)[w];
        assert(s[c] == rest[c]);
    } else {
        assert(s[s.len() - 1] == s.filter(pred)[w]);
    }
}

/// A cache directory is cleared only when it is named `Cache` or `cache2`,
/// the home directory is known, the directory lies inside it, and it exists.
pub proof fn law_cache_clear_guard(name: Seq<char>, home_found: bool, inside_home: bool, is_dir: bool)
    ensures
        cache_clear_verdict(name, home_found, inside_home, is_dir) is Ok <==> (is_cache_dir_name(
            name,
        ) && home_found && inside_home && is_dir),
{
}

/// A saved login read from Firefox's `logins.json` never carries a user
/// name: it only says that the name is encrypted.
pub proof fn law_firefox_logins_hide_user(e: JsonValue)
    ensures
        login_of_entry(e).username == "(encrypted)"@,
{
}

proof fn lemma_without_leading_dots_suffix(s: Seq<char>)
    ensures
        exists|k: int| 0 <= k <= s.len() && without_leading_dots(s) == s.skip(k),
    decreases s.len(),
{
    if s.len() > 0 && s[0] == '.' {
        lemma_without_leading_dots_suffix(s.drop_first());
        let k = choose|k: int|
            0 <= k <= s.drop_first().len() && without_leading_dots(s.drop_first())
                == s.drop_first().skip(k);
        assert(s.drop_first().skip(k) =~= s.skip(k + 1));
    } else {
        assert(s.skip(0) =~= s);
    }
}

/// A host's registrable domain is the end of the host name.
pub proof fn law_registrable_domain_is_suffix(host: Seq<char>)
    ensures
        exists|k: int| 0 <= k <= host.len() && registrable_domain_of(host) == host.skip(k),
{
    lemma_without_leading_dots_suffix(host);
    let k = choose|k: int| 0 <= k <= host.len() && without_leading_dots(host) == host.skip(k);
    let t = without_leading_dots(host);
    let p1 = crate::heuristics::last_dot_before(t, t.len() as int);
    let p2 = crate::heuristics::last_dot_before(t, p1);
    crate::heuristics::lemma_last_dot_before_bounds(t, t.len() as int);
    crate::heuristics::lemma_last_dot_before_bounds(t, p1);
    if p1 < 0 || p2 < 0 {
    } else {
        let p3 = crate::heuristics::last_dot_before(t, p2);
        crate::heuristics::lemma_last_dot_before_bounds(t, p2);
        assert(t.subrange(p3 + 1, t.len() as int) =~= host.skip(k + p3 + 1));
        assert(t.subrange(p2 + 1, t.len() as int) =~= host.skip(k + p2 + 1));
    }
}

/// A profile report splits its domains without losing or repeating any:
/// the likely logins and the others together are as many as the domains
/// reported, each part holds only domains of its kind, and each domain is
/// in the part of its kind.
pub proof fn law_report_split(cookies: Seq<DomainCookie>)
    ensures
        cookies.filter(likely_pred()).len() + cookies.filter(other_pred()).len() == cookies.len(),
        forall|i: int|
            0 <= i < cookies.filter(likely_pred()).len() ==> (#[trigger] cookies.filter(likely_pred())[i]).likely_logged_in,
        forall|i: int|
            0 <= i < cookies.filter(other_pred()).len()
                ==> !(#[trigger] cookies.filter(other_pred())[i]).likely_logged_in,
        forall|i: int|
            0 <= i < cookies.len() ==> if cookies[i].likely_logged_in {
                cookies.filter(likely_pred()).contains(cookies[i])
            } else {
                cookies.filter(other_pred()).contains(cookies[i])
            },
    decreases cookies.len(),
{
    let p = likely_pred();
    let q = other_pred();
    reveal(Seq::filter);
    if cookies.len() > 0 {
        law_report_split(cookies.drop_last());
    }
    assert forall|i: int| 0 <= i < cookies.filter(p).len() implies (#[trigger] cookies.filter(p)[i]).likely_logged_in by {
        cookies.lemma_filter_pred(p, i);
    }
    assert forall|i: int| 0 <= i < cookies.filter(q).len() implies !(#[trigger] cookies.filter(q)[i]).likely_logged_in by {
        cookies.lemma_filter_pred(q, i);
    }
    assert forall|i: int| 0 <= i < cookies.len() implies if cookies[i].likely_logged_in {
        cookies.filter(p).contains(cookies[i])
    } else {
        cookies.filter(q).contains(cookies[i])
    } by {
        if cookies[i].likely_logged_in {
            cookies.lemma_filter_contains(p, i);
        } else {
            cookies.lemma_filter_contains(q, i);
        }
    }
}


/// The rows that are counted at all: those with a host.
pub open spec fn counted_rows(rows: Seq<CookieRowView>) -> Seq<CookieRowView> {
    rows.filter(|r: CookieRowView| row_counts(r))
}

/// The sum of the reported domains' cookie counts.
pub open spec fn count_sum(out: Seq<DomainCookie>) -> int
    decreases out.len(),
{
    if out.len() == 0 {
        0
    } else {
        count_sum(out.drop_last()) + out.last()@.cookie_count
    }
}

/// How many rows belong to each of the domains `ds`, added up.
pub open spec fn domains_total(ds: Seq<Seq<char>>, rows: Seq<CookieRowView>) -> int
    decreases ds.len(),
{
    if ds.len() == 0 {
        0
    } else {
        domains_total(ds.drop_last(), rows) + domain_rows(rows, ds.last()).len()
    }
}

proof fn lemma_domains_total_empty(ds: Seq<Seq<char>>)
    ensures
        domains_total(ds, Seq::empty()) == 0,
    decreases ds.len(),
{
    if ds.len() > 0 {
        lemma_domains_total_empty(ds.drop_last());
        assert(Seq::<CookieRowView>::empty().filter(in_domain_pred(ds.last())).len() == 0) by {
            Seq::<CookieRowView>::empty().lemma_filter_len(in_domain_pred(ds.last()));
        }
    }
}

proof fn lemma_domains_total_push(ds: Seq<Seq<char>>, rows: Seq<CookieRowView>, r: CookieRowView)
    requires
        ds.no_duplicates(),
    ensures
        domains_total(ds, rows.push(r)) == domains_total(ds, rows) + (if row_counts(r)
            && ds.contains(row_domain(r)) {
            1int
        } else {
            0int
        }),
    decreases ds.len(),
{
    if ds.len() > 0 {
        let dl = ds.drop_last();
        let last = ds.last();
        assert(dl.no_duplicates()) by {
            assert forall|i: int, j: int| 0 <= i < dl.len() && 0 <= j < dl.len() && i != j implies dl[i]
                != dl[j] by {
                assert(dl[i] == ds[i] && dl[j] == ds[j]);
            }
        }
        lemma_domains_total_push(dl, rows, r);
        rows.lemma_filter_push(r, in_domain_pred(last));
        assert(!dl.contains(last)) by {
            if dl.contains(last) {
                let i = choose|i: int| 0 <= i < dl.len() && dl[i] == last;
                assert(ds[i] == ds[ds.len() - 1]);
            }
        }
        let x = row_domain(r);
        if ds.contains(x) {
            let i = choose|i: int| 0 <= i < ds.len() && ds[i] == x;
            if i < ds.len() - 1 {
                assert(dl[i] == x);
            }
        }
        if dl.contains(x) {
            let i = choose|i: int| 0 <= i < dl.len() && dl[i] == x;
            assert(ds[i] == x);
        }
        if x == last {
            assert(ds[ds.len() - 1] == x);
        }
    }
}

proof fn lemma_domains_total_counts(ds: Seq<Seq<char>>, rows: Seq<CookieRowView>)
    requires
        ds.no_duplicates(),
        forall|k: int| 0 <= k < rows.len() && row_counts(rows[k]) ==> ds.contains(row_domain(rows[k])),
    ensures
        domains_total(ds, rows) == counted_rows(rows).len(),
    decreases rows.len(),
{
    if rows.len() == 0 {
        lemma_domains_total_empty(ds);
        assert(rows =~= Seq::<CookieRowView>::empty());
        rows.lemma_filter_len(|r: CookieRowView| row_counts(r));
    } else {
        let rs = rows.drop_last();
        let r = rows.last();
        assert(rows =~= rs.push(r));
        assert forall|k: int| 0 <= k < rs.len() && row_counts(rs[k]) implies ds.contains(row_domain(rs[k])) by {
            assert(rs[k] == rows[k]);
        }
        lemma_domains_total_counts(ds, rs);
        lemma_domains_total_push(ds, rs, r);
        rs.lemma_filter_push(r, |r: CookieRowView| row_counts(r));
        if row_counts(r) {
            assert(rows[rows.len() - 1] == r);
        }
    }
}

proof fn lemma_count_sum_totals(out: Seq<DomainCookie>, rows: Seq<CookieRowView>)
    requires
        forall|i: int| 0 <= i < out.len() ==> out[i]@.cookie_count == domain_rows(rows, out[i]@.domain).len(),
    ensures
        count_sum(out) == domains_total(out.map_values(|d: DomainCookie| d@.domain), rows),
    decreases out.len(),
{
    if out.len() > 0 {
        let ol = out.drop_last();
        assert forall|i: int| 0 <= i < ol.len() implies ol[i]@.cookie_count == domain_rows(rows, ol[i]@.domain).len() by {
            assert(ol[i] == out[i]);
        }
        lemma_count_sum_totals(ol, rows);
        assert(out.map_values(|d: DomainCookie| d@.domain).drop_last() =~= ol.map_values(
            |d: DomainCookie| d@.domain,
        ));
        assert(out[out.len() - 1] == out.last());
    }
}

/// The domains' cookie counts add up to the number of rows with a host:
/// every such cookie is counted once, under one domain.
pub proof fn law_counts_add_up(out: Seq<DomainCookie>, rows: Seq<CookieRowView>, chromium: bool)
    requires
        cookie_report(out, rows, chromium),
    ensures
        count_sum(out) == counted_rows(rows).len(),
{
    let ds = out.map_values(|d: DomainCookie| d@.domain);
    assert forall|i: int| 0 <= i < out.len() implies out[i]@.cookie_count == domain_rows(rows, out[i]@.domain).len() by {
        assert(reports_domain(out[i]@, rows, chromium));
    }
    lemma_count_sum_totals(out, rows);
    assert forall|i: int, j: int| 0 <= i < ds.len() && 0 <= j < ds.len() && i != j implies ds[i] != ds[j] by {
        law_domains_reported_once(out, rows, chromium, i, j);
    }
    assert forall|k: int| 0 <= k < rows.len() && row_counts(rows[k]) implies ds.contains(row_domain(rows[k])) by {
        let i = choose|i: int| 0 <= i < out.len() && out[i]@.domain == row_domain(rows[k]);
        assert(ds[i] == row_domain(rows[k]));
    }
    lemma_domains_total_counts(ds, rows);
}


/// `s` holds no dot from `from` up to (not including) `to`.
pub open spec fn dot_free(s: Seq<char>, from: int, to: int) -> bool {
    forall|i: int| from <= i < to ==> s[i] != '.'
}

proof fn lemma_no_dot_after_last(t: Seq<char>, end: int)
    requires
        end <= t.len(),
    ensures
        dot_free(t, last_dot_before(t, end) + 1, end),
    decreases end,
{
    if end > 0 && t[end - 1] != '.' {
        lemma_no_dot_after_last(t, end - 1);
    }
}

/// `r` has at most three labels, and three only when the middle one is a
/// common second-level label and the last is two bytes long in UTF-8.
pub open spec fn at_most_three_labels(r: Seq<char>) -> bool {
    &&& forall|i: int, j: int, k: int|
        0 <= i < j < k < r.len() ==> !(r[i] == '.' && r[j] == '.' && r[k] == '.')
    &&& forall|i: int, j: int|
        0 <= i < j < r.len() && r[i] == '.' && r[j] == '.' ==> listed(
            second_level_labels(),
            r.subrange(i + 1, j),
        ) && encode_utf8(r.skip(j + 1)).len() == 2
}

/// A host's registrable domain is made of whole labels at the end of the
/// host (once its leading dots are dropped), and has at most three labels:
/// three only when the middle one is a common second-level label and the
/// last is two bytes long. A host with at most two labels is its own
/// registrable domain.
pub proof fn law_registrable_domain_labels(host: Seq<char>)
    ensures
        registrable_domain_of(host) == without_leading_dots(host) || exists|p: int|
            0 <= p < without_leading_dots(host).len() && without_leading_dots(host)[p] == '.'
                && registrable_domain_of(host) == without_leading_dots(host).skip(p + 1),
        at_most_three_labels(registrable_domain_of(host)),
        (forall|i: int, j: int|
            0 <= i < j < without_leading_dots(host).len() ==> !(without_leading_dots(host)[i] == '.'
                && without_leading_dots(host)[j] == '.')) ==> registrable_domain_of(host)
            == without_leading_dots(host),
{
    let t = without_leading_dots(host);
    let n = t.len() as int;
    let r = registrable_domain_of(host);
    let p1 = last_dot_before(t, n);
    lemma_last_dot_before_bounds(t, n);
    lemma_no_dot_after_last(t, n);
    if p1 < 0 {
        assert(r == t);
        assert(dot_free(t, 0, n));
    } else {
        let p2 = last_dot_before(t, p1);
        lemma_last_dot_before_bounds(t, p1);
        lemma_no_dot_after_last(t, p1);
        if p2 < 0 {
            assert(r == t);
            assert forall|i: int, j: int| 0 <= i < j < r.len() implies !(r[i] == '.' && r[j] == '.') by {
                if r[i] == '.' && r[j] == '.' {
                    assert(i == p1 && j == p1);
                }
            }
        } else {
            assert(t[p1] == '.' && t[p2] == '.');
            let p3 = last_dot_before(t, p2);
            lemma_last_dot_before_bounds(t, p2);
            lemma_no_dot_after_last(t, p2);
            let top = t.subrange(p1 + 1, n);
            let second = t.subrange(p2 + 1, p1);
            if listed(second_level_labels(), second) && encode_utf8(top).len() == 2 {
                let b = p3 + 1;
                assert(r == t.subrange(b, n));
                assert(r == t.skip(b));
                if p3 >= 0 {
                    assert(t[p3] == '.');
                } else {
                    assert(t.skip(0) =~= t);
                }
                assert forall|i: int| 0 <= i < r.len() && r[i] == '.' implies i == p2 - b || i == p1 - b by {
                    assert(r[i] == t[b + i]);
                }
                assert forall|i: int, j: int|
                    0 <= i < j < r.len() && r[i] == '.' && r[j] == '.' implies listed(
                    second_level_labels(),
                    r.subrange(i + 1, j),
                ) && encode_utf8(r.skip(j + 1)).len() == 2 by {
                    assert(i == p2 - b && j == p1 - b);
                    assert(r.subrange(i + 1, j) =~= second);
                    assert(r.skip(j + 1) =~= top);
                }
            } else {
                let b = p2 + 1;
                assert(r == t.subrange(b, n));
                assert(r == t.skip(b));
                assert forall|i: int| 0 <= i < r.len() && r[i] == '.' implies i == p1 - b by {
                    assert(r[i] == t[b + i]);
                }
            }
        }
    }
}


proof fn lemma_last_dot_is(s: Seq<char>, e: int, p: int)
    requires
        -1 <= p < e <= s.len(),
        p >= 0 ==> s[p] == '.',
        dot_free(s, p + 1, e),
    ensures
        last_dot_before(s, e) == p,
    decreases e,
{
    if e - 1 != p {
        assert(s[e - 1] != '.');
        lemma_last_dot_is(s, e - 1, p);
    }
}

proof fn lemma_leading_dots_gone(s: Seq<char>)
    ensures
        without_leading_dots(s).len() > 0 ==> without_leading_dots(s)[0] != '.',
        s.len() > 0 && s[0] != '.' ==> without_leading_dots(s) == s,
    decreases s.len(),
{
    if s.len() > 0 && s[0] == '.' {
        lemma_leading_dots_gone(s.drop_first());
    }
}

/// Every label of `t` is non-empty: it is not empty, does not end with a
/// dot, and has no two dots in a row (it cannot start with one, once its
/// leading dots are dropped).
pub open spec fn whole_labels(t: Seq<char>) -> bool {
    &&& t.len() > 0
    &&& t[t.len() - 1] != '.'
    &&& forall|i: int| 0 <= i < t.len() - 1 ==> !(#[trigger] t[i] == '.' && t[i + 1] == '.')
}

/// Taking the registrable domain twice gives the same as taking it once, for
/// a host whose labels are all non-empty.
pub proof fn law_registrable_domain_idempotent(host: Seq<char>)
    requires
        whole_labels(without_leading_dots(host)),
    ensures
        registrable_domain_of(registrable_domain_of(host)) == registrable_domain_of(host),
{
    let t = without_leading_dots(host);
    let n = t.len() as int;
    let r = registrable_domain_of(host);
    lemma_leading_dots_gone(host);
    lemma_leading_dots_gone(t);
    let p1 = last_dot_before(t, n);
    lemma_last_dot_before_bounds(t, n);
    lemma_no_dot_after_last(t, n);
    if p1 < 0 {
    } else {
        let p2 = last_dot_before(t, p1);
        lemma_last_dot_before_bounds(t, p1);
        lemma_no_dot_after_last(t, p1);
        if p2 < 0 {
        } else {
            let p3 = last_dot_before(t, p2);
            lemma_last_dot_before_bounds(t, p2);
            lemma_no_dot_after_last(t, p2);
            assert(p1 < n - 1);
            assert(p2 + 1 != p1) by {
                assert(t[p2] == '.');
            }
            let top = t.subrange(p1 + 1, n);
            let second = t.subrange(p2 + 1, p1);
            if listed(second_level_labels(), second) && encode_utf8(top).len() == 2 {
                let b = p3 + 1;
                assert(r == t.subrange(b, n));
                if p3 < 0 {
                    assert(r =~= t);
                } else {
                    assert(b != p2) by {
                        assert(t[p3] == '.');
                    }
                    let m = n - b;
                    assert(r.len() == m && r[0] == t[b]);
                    lemma_leading_dots_gone(r);
                    assert forall|i: int| 0 <= i < m implies r[i] == t[b + i] by {}
                    lemma_last_dot_is(r, m, p1 - b);
                    lemma_last_dot_is(r, p1 - b, p2 - b);
                    lemma_last_dot_is(r, p2 - b, -1);
                    assert(r.subrange(p2 - b + 1, p1 - b) =~= second);
                    assert(r.subrange(p1 - b + 1, m) =~= top);
                    assert(r.subrange(0, m) =~= r);
                }
            } else {
                let b = p2 + 1;
                assert(r == t.subrange(b, n));
                let m = n - b;
                assert(r.len() == m && r[0] == t[b]);
                lemma_leading_dots_gone(r);
                assert forall|i: int| 0 <= i < m implies r[i] == t[b + i] by {}
                lemma_last_dot_is(r, m, p1 - b);
                lemma_last_dot_is(r, p1 - b, -1);
            }
        }
    }
}


/// Which hosts a cookie deletion reaches depends only on the set of domains
/// asked for: neither their order nor repeats change it.
pub proof fn law_deletion_depends_on_domain_set(
    rows: Seq<Result<Option<String>, rusqlite::Error>>,
    d1: Seq<Seq<char>>,
    d2: Seq<Seq<char>>,
)
    requires
        d1.to_set() == d2.to_set(),
    ensures
        reached_hosts(rows, d1) == reached_hosts(rows, d2),
{
    assert forall|x: Seq<char>| d1.contains(x) == d2.contains(x) by {
        assert(d1.to_set().contains(x) == d1.contains(x));
        assert(d2.to_set().contains(x) == d2.contains(x));
    }
    assert(host_in_domains_pred(d1) =~= host_in_domains_pred(d2));
}


/// The likely logins among `s` all come before the other domains.
#[verifier::opaque]
pub open spec fn likely_first(s: Seq<DomainCookie>) -> bool {
    forall|i: int, j: int|
        0 <= i < j < s.len() && (#[trigger] s[j]).likely_logged_in ==> (#[trigger] s[i]).likely_logged_in
}

/// The likely logins among `s` followed by its other domains are `s` itself.
#[verifier::opaque]
pub open spec fn rejoins(s: Seq<DomainCookie>) -> bool {
    s.filter(likely_pred()) + s.filter(other_pred()) == s
}

proof fn lemma_rejoins_push(t: Seq<DomainCookie>, x: DomainCookie)
    requires
        rejoins(t),
        x.likely_logged_in ==> t.filter(other_pred()).len() == 0,
    ensures
        rejoins(t.push(x)),
{
    reveal(rejoins);
    let a = t.filter(likely_pred());
    let b = t.filter(other_pred());
    t.lemma_filter_push(x, likely_pred());
    t.lemma_filter_push(x, other_pred());
    if x.likely_logged_in {
        assert(b =~= Seq::<DomainCookie>::empty());
        assert(a + b =~= a);
        assert(a.push(x) + b =~= (a + b).push(x));
    } else {
        assert(a + b.push(x) =~= (a + b).push(x));
    }
}

proof fn lemma_likely_first_prefix(s: Seq<DomainCookie>)
    requires
        likely_first(s),
        s.len() > 0,
    ensures
        likely_first(s.drop_last()),
{
    reveal(likely_first);
    let t = s.drop_last();
    assert forall|i: int, j: int|
        0 <= i < j < t.len() && (#[trigger] t[j]).likely_logged_in implies (#[trigger] t[i]).likely_logged_in by {
        assert(t[i] == s[i] && t[j] == s[j]);
    }
}

proof fn lemma_likely_first_last(s: Seq<DomainCookie>)
    requires
        likely_first(s),
        s.len() > 0,
        s.last().likely_logged_in,
    ensures
        s.drop_last().filter(other_pred()).len() == 0,
{
    reveal(likely_first);
    let t = s.drop_last();
    let b = t.filter(other_pred());
    if b.len() > 0 {
        t.lemma_filter_pred(other_pred(), 0);
        assert(b.contains(b[0]));
        t.lemma_filter_contains_rev(other_pred(), b[0]);
        let k = choose|k: int| 0 <= k < t.len() && t[k] == b[0];
        assert(s[k] == t[k]);
        assert(s[s.len() - 1].likely_logged_in);
    }
}

proof fn lemma_rejoins_empty(s: Seq<DomainCookie>)
    requires
        s.len() == 0,
    ensures
        rejoins(s),
{
    reveal(rejoins);
    s.lemma_filter_len(likely_pred());
    s.lemma_filter_len(other_pred());
    assert(s.filter(likely_pred()) + s.filter(other_pred()) =~= s);
}

proof fn lemma_likely_first_rejoins(s: Seq<DomainCookie>)
    requires
        likely_first(s),
    ensures
        rejoins(s),
    decreases s.len(),
{
    if s.len() == 0 {
        lemma_rejoins_empty(s);
    } else {
        let t = s.drop_last();
        let x = s.last();
        lemma_likely_first_prefix(s);
        lemma_likely_first_rejoins(t);
        if x.likely_logged_in {
            lemma_likely_first_last(s);
        }
        lemma_rejoins_push(t, x);
        assert(s =~= t.push(x));
    }
}

/// The likely logins of a cookie report followed by its other domains are
/// the report itself: the likely logins come first, so splitting the report
/// in two loses, repeats and reorders nothing.
pub proof fn law_report_split_rejoins(out: Seq<DomainCookie>, rows: Seq<CookieRowView>, chromium: bool)
    requires
        cookie_report(out, rows, chromium),
    ensures
        out.filter(likely_pred()) + out.filter(other_pred()) == out,
{
    assert(likely_first(out)) by {
        reveal(likely_first);
        assert forall|i: int, j: int|
            0 <= i < j < out.len() && (#[trigger] out[j]).likely_logged_in implies (#[trigger] out[i]).likely_logged_in by {
            assert(crate::cookies::ranks_before(out[i]@, out[j]@));
        }
    }
    lemma_likely_first_rejoins(out);
    reveal(rejoins);
}


/// The place `first_present` picks is a present one, and none before it is.
proof fn lemma_first_present_picks(places: Seq<Seq<Seq<char>>>, present: Seq<bool>)
    ensures
        match first_present(places, present) {
            Some(c) => exists|i: int|
                0 <= i < places.len() && i < present.len() && present[i] && places[i] == c
                    && forall|j: int| 0 <= j < i ==> !(#[trigger] present[j]),
            None => forall|i: int| 0 <= i < places.len() && i < present.len() ==> !present[i],
        },
    decreases places.len(),
{
    if places.len() > 0 && !(present.len() > 0 && present[0]) {
        let rest = if present.len() > 0 {
            present.drop_first()
        } else {
            present
        };
        lemma_first_present_picks(places.drop_first(), rest);
        match first_present(places, present) {
            Some(c) => {
                let i = choose|i: int|
                    0 <= i < places.drop_first().len() && i < rest.len() && rest[i]
                        && places.drop_first()[i] == c && forall|j: int|
                        0 <= j < i ==> !(#[trigger] rest[j]);
                assert(present.len() > 0);
                assert(present[i + 1] == rest[i]);
                assert forall|j: int| 0 <= j < i + 1 implies !(#[trigger] present[j]) by {
                    if j > 0 {
                        assert(present[j] == rest[j - 1]);
                    }
                }
            },
            None => {
                assert forall|i: int| 0 <= i < places.len() && i < present.len() implies !present[i] by {
                    if i > 0 {
                        assert(present[i] == rest[i - 1]);
                    }
                }
            },
        }
    }
}

/// A Chromium profile's cache, as picked among its candidate places, is a
/// place that is present and ends with the profile's name and `Cache`; no
/// place before it is present; and there is none only when no candidate is
/// present.
pub proof fn law_chromium_cache_dir(
    p: crate::profiles::Platform,
    home: Seq<Seq<char>>,
    root: Seq<Seq<char>>,
    profile: Seq<char>,
    present: Seq<bool>,
)
    ensures
        match first_present(chromium_cache_places(p, home, root, profile), present) {
            Some(c) => c.len() >= 2 && c[c.len() - 2] == profile && c[c.len() - 1] == "Cache"@
                && exists|i: int|
                0 <= i < present.len() && present[i] && chromium_cache_places(p, home, root, profile)[i] == c
                    && forall|j: int| 0 <= j < i ==> !(#[trigger] present[j]),
            None => forall|i: int|
                0 <= i < chromium_cache_places(p, home, root, profile).len() && i < present.len()
                    ==> !present[i],
        },
{
    let places = chromium_cache_places(p, home, root, profile);
    lemma_first_present_picks(places, present);
    assert forall|i: int| 0 <= i < places.len() implies places[i].len() >= 2 && places[i][places[i].len()
        - 2] == profile && places[i][places[i].len() - 1] == "Cache"@ by {
        let tail = seq![profile, "Cache"@];
        let local = root + tail;
        assert(local[local.len() - 2] == profile && local[local.len() - 1] == "Cache"@);
        if p == crate::profiles::Platform::Linux {
            match crate::profiles::strip_components(root, home.push(".config"@)) {
                Some(rel) => {
                    let first = home.push(".cache"@) + rel + tail;
                    assert(first[first.len() - 2] == profile && first[first.len() - 1] == "Cache"@);
                },
                None => {},
            }
        }
    }
}


// ---------------------------------------------------------------------------
// The statements, against the browsers' database schemas
// ---------------------------------------------------------------------------

/// What a column of a cookie table holds.
pub enum CookieColumn {
    Name,
    Host,
    Expiry,
    LastAccess,
    Secure,
    HttpOnly,
}

/// The cookie table of each browser family: Chromium's `cookies` in the
/// `Cookies` database, Firefox's `moz_cookies` in `cookies.sqlite`.
pub open spec fn cookie_table(f: Family) -> Seq<char> {
    match f {
        Family::Chromium => "cookies"@,
        Family::Firefox => "moz_cookies"@,
    }
}

/// The column of the family's cookie table that holds each meaning.
pub open spec fn cookie_column(f: Family, c: CookieColumn) -> Seq<char> {
    match f {
        Family::Chromium => match c {
            CookieColumn::Name => "name"@,
            CookieColumn::Host => "host_key"@,
            CookieColumn::Expiry => "expires_utc"@,
            CookieColumn::LastAccess => "last_access_utc"@,
            CookieColumn::Secure => "is_secure"@,
            CookieColumn::HttpOnly => "is_httponly"@,
        },
        Family::Firefox => match c {
            CookieColumn::Name => "name"@,
            CookieColumn::Host => "host"@,
            CookieColumn::Expiry => "expiry"@,
            CookieColumn::LastAccess => "lastAccessed"@,
            CookieColumn::Secure => "isSecure"@,
            CookieColumn::HttpOnly => "isHttpOnly"@,
        },
    }
}

/// The meanings of the columns a cookie row is read from, in the order
/// they are read into a `CookieRow`: name, host, expiry, last access,
/// secure, http-only.
pub open spec fn cookie_row_meanings() -> Seq<CookieColumn> {
    seq![
        CookieColumn::Name,
        CookieColumn::Host,
        CookieColumn::Expiry,
        CookieColumn::LastAccess,
        CookieColumn::Secure,
        CookieColumn::HttpOnly,
    ]
}

/// Column names separated by `, `.
pub open spec fn column_list(cols: Seq<Seq<char>>) -> Seq<char>
    decreases cols.len(),
{
    if cols.len() == 0 {
        Seq::empty()
    } else if cols.len() == 1 {
        cols[0]
    } else {
        column_list(cols.drop_last()) + ", "@ + cols.last()
    }
}

/// The statement that reads the columns `cols`, in that order, of every row
/// of `table`.
pub open spec fn select_all(cols: Seq<Seq<char>>, table: Seq<char>) -> Seq<char> {
    "SELECT "@ + column_list(cols) + " FROM "@ + table
}

/// The query that reads cookie rows selects, in the order a `CookieRow` is
/// filled, the columns of the family's cookie table that hold the cookie's
/// name, host, expiry, last access, secure flag and http-only flag: so the
/// expiry reported is the stored expiry, the last access the stored last
/// access, and no other column (such as a cookie's value) is read.
pub proof fn law_cookie_query_reads_each_meaning(f: Family)
    ensures
        cookie_rows_sql(f) == select_all(
            cookie_row_meanings().map_values(|c: CookieColumn| cookie_column(f, c)),
            cookie_table(f),
        ),
{
    let cols = cookie_row_meanings().map_values(|c: CookieColumn| cookie_column(f, c));
    reveal_with_fuel(column_list, 7);
    reveal_strlit("SELECT ");
    reveal_strlit(" FROM ");
    reveal_strlit(", ");
    match f {
        Family::Chromium => {
            reveal_strlit("SELECT name, host_key, expires_utc, last_access_utc, is_secure, is_httponly FROM cookies");
            reveal_strlit("cookies");
            reveal_strlit("name");
            reveal_strlit("host_key");
            reveal_strlit("expires_utc");
            reveal_strlit("last_access_utc");
            reveal_strlit("is_secure");
            reveal_strlit("is_httponly");
        },
        Family::Firefox => {
            reveal_strlit("SELECT name, host, expiry, lastAccessed, isSecure, isHttpOnly FROM moz_cookies");
            reveal_strlit("moz_cookies");
            reveal_strlit("name");
            reveal_strlit("host");
            reveal_strlit("expiry");
            reveal_strlit("lastAccessed");
            reveal_strlit("isSecure");
            reveal_strlit("isHttpOnly");
        },
    }
    assert(cookie_rows_sql(f) =~= select_all(cols, cookie_table(f)));
}


/// The statement that deletes one host's cookies removes every row of the
/// family's cookie table whose host column is the host bound to `?1`: all
/// of that host's cookies, not some of them.
pub proof fn law_cookie_deletion_takes_every_row_of_the_host(f: Family)
    ensures
        delete_host_sql(f) == "DELETE FROM "@ + cookie_table(f) + " WHERE "@ + cookie_column(
            f,
            CookieColumn::Host,
        ) + " = ?1"@,
{
    reveal_strlit("DELETE FROM ");
    reveal_strlit(" WHERE ");
    reveal_strlit(" = ?1");
    match f {
        Family::Chromium => {
            reveal_strlit("DELETE FROM cookies WHERE host_key = ?1");
            reveal_strlit("cookies");
            reveal_strlit("host_key");
        },
        Family::Firefox => {
            reveal_strlit("DELETE FROM moz_cookies WHERE host = ?1");
            reveal_strlit("moz_cookies");
            reveal_strlit("host");
        },
    }
    assert(delete_host_sql(f) =~= "DELETE FROM "@ + cookie_table(f) + " WHERE "@ + cookie_column(
        f,
        CookieColumn::Host,
    ) + " = ?1"@);
}

/// The statement that lists the hosts a deletion may reach reads each
/// distinct value of the family's host column.
pub proof fn law_host_listing_reads_the_host_column(f: Family)
    ensures
        distinct_hosts_sql(f) == "SELECT DISTINCT "@ + cookie_column(f, CookieColumn::Host) + " FROM "@
            + cookie_table(f),
{
    reveal_strlit("SELECT DISTINCT ");
    reveal_strlit(" FROM ");
    match f {
        Family::Chromium => {
            reveal_strlit("SELECT DISTINCT host_key FROM cookies");
            reveal_strlit("cookies");
            reveal_strlit("host_key");
        },
        Family::Firefox => {
            reveal_strlit("SELECT DISTINCT host FROM moz_cookies");
            reveal_strlit("moz_cookies");
            reveal_strlit("host");
        },
    }
    assert(distinct_hosts_sql(f) =~= "SELECT DISTINCT "@ + cookie_column(f, CookieColumn::Host)
        + " FROM "@ + cookie_table(f));
}

/// What a column of Chromium's `logins` table holds.
pub enum LoginColumn {
    Origin,
    UserName,
    TimesUsed,
}

/// The column of Chromium's `logins` table that holds each meaning.
pub open spec fn login_column(c: LoginColumn) -> Seq<char> {
    match c {
        LoginColumn::Origin => "origin_url"@,
        LoginColumn::UserName => "username_value"@,
        LoginColumn::TimesUsed => "times_used"@,
    }
}

/// The meanings of the columns a login row is read from, in the order they
/// are read into a `LoginRow`: site, user name, times used.
pub open spec fn login_row_meanings() -> Seq<LoginColumn> {
    seq![LoginColumn::Origin, LoginColumn::UserName, LoginColumn::TimesUsed]
}

/// The query that reads saved logins selects, in the order a `LoginRow` is
/// filled, the columns of Chromium's `logins` table that hold the site, the
/// user name and the use count: so a login's site is its stored site and
/// its user its stored user, and no password is read.
pub proof fn law_login_query_reads_each_meaning()
    ensures
        login_rows_sql() == select_all(
            login_row_meanings().map_values(|c: LoginColumn| login_column(c)),
            "logins"@,
        ),
{
    let cols = login_row_meanings().map_values(|c: LoginColumn| login_column(c));
    reveal_with_fuel(column_list, 4);
    reveal_strlit("SELECT ");
    reveal_strlit(" FROM ");
    reveal_strlit(", ");
    reveal_strlit("SELECT origin_url, username_value, times_used FROM logins");
    reveal_strlit("logins");
    reveal_strlit("origin_url");
    reveal_strlit("username_value");
    reveal_strlit("times_used");
    assert(login_rows_sql() =~= select_all(cols, "logins"@));
}

/// The statement that deletes a saved password removes the rows of
/// Chromium's `logins` table whose site is the one bound to `?1` and whose
/// user name is the one bound to `?2`.
pub proof fn law_login_deletion_matches_site_and_user()
    ensures
        delete_login_sql() == "DELETE FROM logins WHERE "@ + login_column(LoginColumn::Origin)
            + " = ?1 AND "@ + login_column(LoginColumn::UserName) + " = ?2"@,
{
    reveal_strlit("DELETE FROM logins WHERE ");
    reveal_strlit(" = ?1 AND ");
    reveal_strlit(" = ?2");
    reveal_strlit("DELETE FROM logins WHERE origin_url = ?1 AND username_value = ?2");
    reveal_strlit("origin_url");
    reveal_strlit("username_value");
    assert(delete_login_sql() =~= "DELETE FROM logins WHERE "@ + login_column(LoginColumn::Origin)
        + " = ?1 AND "@ + login_column(LoginColumn::UserName) + " = ?2"@);
}


// ---------------------------------------------------------------------------
// Browsers, their processes and their places
// ---------------------------------------------------------------------------

/// `b` is `a` with its ASCII capital letters in lower case.
pub open spec fn ascii_lower_of(a: Seq<char>, b: Seq<char>) -> bool {
    &&& a.len() == b.len()
    &&& forall|i: int|
        0 <= i < a.len() ==> (#[trigger] b[i]) as int == if 'A' <= a[i] && a[i] <= 'Z' {
            a[i] as int + 32
        } else {
            a[i] as int
        }
}

proof fn lemma_needles_of_known_browsers()
    ensures
        ascii_lower_of("Brave"@, needle_of("Brave"@)),
        ascii_lower_of("Chrome"@, needle_of("Chrome"@)),
        ascii_lower_of("Chromium"@, needle_of("Chromium"@)),
        ascii_lower_of("Vivaldi"@, needle_of("Vivaldi"@)),
        ascii_lower_of("Edge"@, needle_of("Edge"@)),
        ascii_lower_of("Firefox"@, needle_of("Firefox"@)),
        ascii_lower_of("LibreWolf"@, needle_of("LibreWolf"@)),
{
    reveal_strlit("Brave");
    reveal_strlit("brave");
    reveal_strlit("Chrome");
    reveal_strlit("chrome");
    reveal_strlit("Chromium");
    reveal_strlit("chromium");
    reveal_strlit("Vivaldi");
    reveal_strlit("vivaldi");
    reveal_strlit("Edge");
    reveal_strlit("edge");
    reveal_strlit("Firefox");
    reveal_strlit("firefox");
    reveal_strlit("LibreWolf");
    reveal_strlit("librewolf");
}

/// Every browser that the audit looks for on disk is watched for under its
/// own name in lower case: a process whose name holds that text makes the
/// browser count as running.
pub proof fn law_browser_process_is_its_name(p: Platform, i: int)
    ensures
        0 <= i < chromium_locations(p).len() ==> ascii_lower_of(
            chromium_locations(p)[i].0@,
            needle_of(chromium_locations(p)[i].0@),
        ),
        0 <= i < firefox_locations(p).len() ==> ascii_lower_of(
            firefox_locations(p)[i].0@,
            needle_of(firefox_locations(p)[i].0@),
        ),
{
    lemma_needles_of_known_browsers();
}

/// A browser that no location table names is never taken for running.
pub proof fn law_unknown_browser_is_never_running(b: Seq<char>)
    requires
        forall|p: Platform, i: int|
            0 <= i < chromium_locations(p).len() ==> b != (#[trigger] chromium_locations(p)[i]).0@,
        forall|p: Platform, i: int|
            0 <= i < firefox_locations(p).len() ==> b != (#[trigger] firefox_locations(p)[i]).0@,
    ensures
        needle_of(b).len() == 0,
{
    assert(b != chromium_locations(Platform::Linux)[0].0@);
    assert(b != chromium_locations(Platform::Linux)[1].0@);
    assert(b != chromium_locations(Platform::Linux)[2].0@);
    assert(b != chromium_locations(Platform::Linux)[3].0@);
    assert(b != chromium_locations(Platform::Linux)[4].0@);
    assert(b != firefox_locations(Platform::Linux)[0].0@);
    assert(b != firefox_locations(Platform::Linux)[1].0@);
    reveal_strlit("");
}

/// Where each platform keeps the configuration of each Chromium-family
/// browser, relative to its base directory (`~/.config` on Linux,
/// `~/Library/Application Support` on macOS, the local application data
/// directory on Windows).
pub proof fn law_chromium_browser_places(p: Platform)
    ensures
        chromium_locations(p) == match p {
            Platform::Linux => seq![
                ("Brave", "BraveSoftware/Brave-Browser"),
                ("Chrome", "google-chrome"),
                ("Chromium", "chromium"),
                ("Vivaldi", "vivaldi"),
                ("Edge", "microsoft-edge"),
            ],
            Platform::MacOs => seq![
                ("Brave", "BraveSoftware/Brave-Browser"),
                ("Chrome", "Google/Chrome"),
                ("Chromium", "Chromium"),
                ("Edge", "Microsoft Edge"),
            ],
            Platform::Windows => seq![
                ("Brave", "BraveSoftware/Brave-Browser/User Data"),
                ("Chrome", "Google/Chrome/User Data"),
                ("Chromium", "Chromium/User Data"),
                ("Edge", "Microsoft Edge/User Data"),
            ],
            Platform::Other => Seq::<(&'static str, &'static str)>::empty(),
        },
{
    assert(chromium_locations(Platform::Other) =~= Seq::<(&'static str, &'static str)>::empty());
}

/// Where each platform keeps the profiles of each Firefox-family browser,
/// relative to its base directory (the home directory on Linux,
/// `~/Library/Application Support` on macOS, the roaming application data
/// directory on Windows).
pub proof fn law_firefox_browser_places(p: Platform)
    ensures
        firefox_locations(p) == match p {
            Platform::Linux => seq![("Firefox", ".mozilla/firefox"), ("LibreWolf", ".librewolf")],
            Platform::MacOs => seq![("Firefox", "Firefox"), ("LibreWolf", "LibreWolf")],
            Platform::Windows => seq![("Firefox", "Mozilla/Firefox"), ("LibreWolf", "librewolf")],
            Platform::Other => Seq::<(&'static str, &'static str)>::empty(),
        },
{
    assert(firefox_locations(Platform::Other) =~= Seq::<(&'static str, &'static str)>::empty());
}

/// The file of each family's cookie database inside a profile.
pub proof fn law_cookie_database_files(f: Family)
    ensures
        cookie_db_file(f) == match f {
            Family::Chromium => "Cookies"@,
            Family::Firefox => "cookies.sqlite"@,
        },
{
}


// ---------------------------------------------------------------------------
// Time, names and lists
// ---------------------------------------------------------------------------

/// A Chromium timestamp counts microseconds from 1601-01-01, which is 369
/// years (89 of them leap years) before the unix epoch: a positive one is
/// that many whole seconds, less the seconds between the two epochs; zero
/// or a negative one means no time. Later timestamps never give earlier
/// instants.
pub proof fn law_chromium_time_is_unix_time(v: i64, w: i64)
    ensures
        v <= 0 ==> unix_from_chromium(v) is None,
        v > 0 ==> unix_from_chromium(v) == Some((v / 1_000_000 - (369 * 365 + 89) * 86_400) as i64),
        0 < v <= w ==> unix_from_chromium(v)->Some_0 <= unix_from_chromium(w)->Some_0,
{
    if 0 < v && v <= w {
        assert(v / 1_000_000 <= w / 1_000_000) by (nonlinear_arith)
            requires
                0 < v <= w,
        ;
    }
}

/// A family's name, as reports spell it, is read back as that family.
pub proof fn law_family_names_read_back(f: Family)
    ensures
        family_named(family_text(f)) == Some(f),
{
    reveal_strlit("chromium");
    reveal_strlit("firefox");
    assert("firefox"@.len() != "chromium"@.len());
}

/// Every place where a profile's cache is looked for is a directory that
/// clearing a cache accepts by name (`Cache` for Chromium, `cache2` for
/// Firefox): a cache the audit reports can be cleared.
pub proof fn law_found_caches_can_be_cleared(
    p: Platform,
    home: Seq<Seq<char>>,
    roaming: Option<Seq<Seq<char>>>,
    local: Option<Seq<Seq<char>>>,
    root: Seq<Seq<char>>,
    profile_dir: Seq<Seq<char>>,
    profile: Seq<char>,
    name: Option<Seq<char>>,
)
    ensures
        forall|i: int|
            0 <= i < chromium_cache_places(p, home, root, profile).len() ==> {
                let c = #[trigger] chromium_cache_places(p, home, root, profile)[i];
                c.len() > 0 && is_cache_dir_name(c.last())
            },
        forall|i: int|
            0 <= i < firefox_cache_places(p, home, roaming, local, root, profile_dir, name).len() ==> {
                let c = #[trigger] firefox_cache_places(p, home, roaming, local, root, profile_dir, name)[i];
                c.len() > 0 && is_cache_dir_name(c.last())
            },
{
    let tail = seq![profile, "Cache"@];
    assert((root + tail).last() == "Cache"@);
    if p == Platform::Linux {
        match crate::profiles::strip_components(root, home.push(".config"@)) {
            Some(rel) => {
                assert((home.push(".cache"@) + rel + tail).last() == "Cache"@);
            },
            None => {},
        }
    }
    let own = profile_dir.push("cache2"@);
    assert(own.last() == "cache2"@);
    if p == Platform::Linux {
        match name {
            Some(n) => match crate::profiles::strip_components(root, home) {
                Some(rel) => {
                    if rel.len() > 0 {
                        let comps = crate::profiles::undotted(rel);
                        let t = seq![n, "cache2"@];
                        assert((home.push(".cache"@) + comps + t).last() == "cache2"@);
                        assert((home.push(".cache"@).push(comps.last()) + t).last() == "cache2"@);
                    }
                },
                None => {},
            },
            None => {},
        }
    } else if p == Platform::Windows {
        match (roaming, local) {
            (Some(r), Some(l)) => match crate::profiles::strip_components(profile_dir, r) {
                Some(rel) => {
                    assert((l + rel).push("cache2"@).last() == "cache2"@);
                },
                None => {},
            },
            _ => {},
        }
    }
}

/// The substrings of a lower-case cookie name taken as a sign of a session.
pub proof fn law_session_hint_list()
    ensures
        session_hints() == seq![
            "session",
            "auth",
            "token",
            "login",
            "logged",
            "jwt",
            "sso",
            "remember",
            "__host-",
            "__secure-",
        ],
{
}

/// The cookie names that well-known sites use for their login session.
pub proof fn law_known_login_cookie_list()
    ensures
        known_login_cookies() == seq![
            "li_at",
            "sessionid",
            "phpsessid",
            "jsessionid",
            "__secure-1psid",
            "sapisid",
            "c_user",
            "xs",
            "ds_user_id",
            "reddit_session",
            "twid",
            "auth_token",
            "user_session",
            "_gh_sess",
        ],
{
}

/// The second-level labels under which a two-letter country code makes a
/// three-label registrable domain.
pub proof fn law_second_level_label_list()
    ensures
        second_level_labels() == seq!["co", "com", "org", "net", "gov", "edu", "ac"],
{
}

/// The registrable domains taken for trackers.
pub proof fn law_tracker_list()
    ensures
        tracker_domains() == seq![
            "doubleclick.net",
            "google-analytics.com",
            "googletagmanager.com",
            "googlesyndication.com",
            "googleadservices.com",
            "adnxs.com",
            "scorecardresearch.com",
            "quantserve.com",
            "criteo.com",
            "criteo.net",
            "taboola.com",
            "outbrain.com",
            "hotjar.com",
            "segment.com",
            "segment.io",
            "mixpanel.com",
            "amplitude.com",
            "branch.io",
            "adsrvr.org",
            "rubiconproject.com",
            "pubmatic.com",
            "openx.net",
            "casalemedia.com",
            "bluekai.com",
            "demdex.net",
            "everesttech.net",
            "mathtag.com",
            "bidswitch.net",
            "yieldmo.com",
            "facebook.com",
            "fbcdn.net",
            "ads-twitter.com",
            "bing.com",
            "clarity.ms",
            "newrelic.com",
            "nr-data.net",
            "optimizely.com",
            "fullstory.com",
            "cloudflareinsights.com",
            "sentry.io",
            "chartbeat.com",
            "sharethis.com",
            "addthis.com",
            "onetrust.com",
            "cookielaw.org",
        ],
{
}


/// The only directories a cache clearing accepts by name are Chromium's
/// `Cache` and Firefox's `cache2`.
pub proof fn law_cache_directory_names(name: Seq<char>)
    ensures
        is_cache_dir_name(name) <==> (name == "Cache"@ || name == "cache2"@),
{
}


/// How a browser stores a time column: whether in microseconds (else in
/// seconds), and whether counted from 1601-01-01 (else from the unix epoch).
/// Chromium stores both of its times as microseconds since 1601; Firefox
/// stores a cookie's expiry in unix seconds and its last access in unix
/// microseconds.
pub open spec fn stored_unit(f: Family, c: CookieColumn) -> (bool, bool) {
    match f {
        Family::Chromium => (true, true),
        Family::Firefox => match c {
            CookieColumn::LastAccess => (true, false),
            _ => (false, false),
        },
    }
}

/// A stored time, in whole unix seconds, given its unit; zero or a negative
/// value means none.
pub open spec fn unix_seconds(v: i64, unit: (bool, bool)) -> Option<i64> {
    if v <= 0 {
        None
    } else {
        let secs = if unit.0 {
            v / 1_000_000
        } else {
            v as int
        };
        Some((secs - if unit.1 {
            (369 * 365 + 89) * 86_400
        } else {
            0
        }) as i64)
    }
}

/// A reported cookie's expiry is its row's stored expiry, and a domain's
/// last access is built from its rows' stored last accesses, each read in
/// the unit and from the epoch the browser stores it in.
pub proof fn law_cookie_times_are_stored_times(r: CookieRowView, f: Family)
    ensures
        row_expires(r, f == Family::Chromium) == unix_seconds(
            int_or_zero(r.expiry),
            stored_unit(f, CookieColumn::Expiry),
        ),
        row_accessed(r, f == Family::Chromium) == unix_seconds(
            int_or_zero(r.last_access),
            stored_unit(f, CookieColumn::LastAccess),
        ),
{
}

} // verus!
