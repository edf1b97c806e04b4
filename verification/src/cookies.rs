//! Cookie analysis: from the rows of a browser's cookie database to one
//! report per registrable domain.
use vstd::prelude::*;

use crate::heuristics::{
    has_session_hint, has_session_hint_name, is_known_login_cookie, is_known_login_name,
    is_tracker, is_tracker_domain, registrable_domain, registrable_domain_of,
};
use crate::model::{
    details, rows_view, texts, CookieDetail, CookieDetailView, CookieRow, CookieRowView,
    DomainCookie, DomainCookieView, Family,
};
use crate::text::{
    compare_text, lemma_lex_asymmetric, lemma_lex_irreflexive, lemma_lex_total,
    lemma_lex_transitive, lex_lt, lowercase, to_lowercase, TextOrder,
};

verus! {

// ---------------------------------------------------------------------------
// Timestamps
// ---------------------------------------------------------------------------

/// Chromium counts microseconds since 1601-01-01; this is the same instant in
/// unix seconds, or `None` for zero or negative (absent) values.
pub open spec fn unix_from_chromium(v: i64) -> Option<i64> {
    if v <= 0 {
        None
    } else {
        Some((v / 1_000_000 - 11_644_473_600) as i64)
    }
}

/// Converts a Chromium timestamp to unix seconds; zero or negative means absent.
pub fn chromium_micros_to_unix(v: i64) -> (r: Option<i64>)
    ensures
        r == unix_from_chromium(v),
{
    if v <= 0 {
        None
    } else {
        Some(v / 1_000_000 - 11_644_473_600)
    }
}

// ---------------------------------------------------------------------------
// One row
// ---------------------------------------------------------------------------

/// The text of a column, or the empty text for NULL.
pub open spec fn text_or_empty(o: Option<Seq<char>>) -> Seq<char> {
    match o {
        Some(s) => s,
        None => Seq::empty(),
    }
}

/// The value of an integer column, or zero for NULL.
pub open spec fn int_or_zero(o: Option<i64>) -> i64 {
    match o {
        Some(v) => v,
        None => 0,
    }
}

pub open spec fn row_host(r: CookieRowView) -> Seq<char> {
    text_or_empty(r.host)
}

/// A row with an empty host belongs to no domain and is not counted.
pub open spec fn row_counts(r: CookieRowView) -> bool {
    row_host(r).len() > 0
}

pub open spec fn row_domain(r: CookieRowView) -> Seq<char> {
    registrable_domain_of(row_host(r))
}

/// The cookie's name in lower case.
pub open spec fn row_name(r: CookieRowView) -> Seq<char> {
    lowercase(text_or_empty(r.name))
}

/// Expiry in unix seconds. Chromium stores microseconds since 1601; Firefox
/// stores unix seconds. Zero or negative means a session cookie.
pub open spec fn row_expires(r: CookieRowView, chromium: bool) -> Option<i64> {
    let v = int_or_zero(r.expiry);
    if chromium {
        unix_from_chromium(v)
    } else if v > 0 {
        Some(v)
    } else {
        None
    }
}

/// Last access in unix seconds. Chromium stores microseconds since 1601;
/// Firefox stores unix microseconds.
pub open spec fn row_accessed(r: CookieRowView, chromium: bool) -> Option<i64> {
    let v = int_or_zero(r.last_access);
    if chromium {
        unix_from_chromium(v)
    } else if v > 0 {
        Some((v / 1_000_000) as i64)
    } else {
        None
    }
}

/// The metadata reported for one row.
pub open spec fn row_detail(r: CookieRowView, chromium: bool) -> CookieDetailView {
    CookieDetailView {
        name: row_name(r),
        expires_unix: row_expires(r, chromium),
        secure: int_or_zero(r.secure) != 0,
        http_only: int_or_zero(r.http_only) != 0,
    }
}

/// One point for a name with a session hint, two for a known login cookie.
pub open spec fn row_score(r: CookieRowView) -> int {
    (if has_session_hint(row_name(r)) {
        1int
    } else {
        0int
    }) + (if is_known_login_cookie(row_name(r)) {
        2int
    } else {
        0int
    })
}

// ---------------------------------------------------------------------------
// One domain
// ---------------------------------------------------------------------------

pub open spec fn in_domain(r: CookieRowView, d: Seq<char>) -> bool {
    row_counts(r) && row_domain(r) == d
}

pub open spec fn in_domain_pred(d: Seq<char>) -> spec_fn(CookieRowView) -> bool {
    |r: CookieRowView| in_domain(r, d)
}

/// The rows that belong to domain `d`, in their order.
pub open spec fn domain_rows(rows: Seq<CookieRowView>, d: Seq<char>) -> Seq<CookieRowView> {
    rows.filter(in_domain_pred(d))
}

pub open spec fn total_score(rs: Seq<CookieRowView>) -> int
    decreases rs.len(),
{
    if rs.len() == 0 {
        0
    } else {
        total_score(rs.drop_last()) + row_score(rs.last())
    }
}

pub open spec fn any_known_login(rs: Seq<CookieRowView>) -> bool {
    exists|i: int| 0 <= i < rs.len() && is_known_login_cookie(row_name(rs[i]))
}

/// The later of two optional instants.
pub open spec fn later(a: Option<i64>, b: Option<i64>) -> Option<i64> {
    match (a, b) {
        (Some(x), Some(y)) => Some(
            if x >= y {
                x
            } else {
                y
            },
        ),
        (Some(x), None) => Some(x),
        (None, y) => y,
    }
}

/// The latest access among the rows, if any row records one.
pub open spec fn latest_access(rs: Seq<CookieRowView>, chromium: bool) -> Option<i64>
    decreases rs.len(),
{
    if rs.len() == 0 {
        None
    } else {
        later(latest_access(rs.drop_last(), chromium), row_accessed(rs.last(), chromium))
    }
}

/// The lower-case names among the rows that hold a session hint.
pub open spec fn signal_names(rs: Seq<CookieRowView>) -> Set<Seq<char>> {
    Set::new(
        |n: Seq<char>|
            has_session_hint(n) && exists|i: int| 0 <= i < rs.len() && row_name(rs[i]) == n,
    )
}

pub open spec fn strictly_ascending(s: Seq<Seq<char>>) -> bool {
    forall|i: int, j: int| 0 <= i < j < s.len() ==> lex_lt(s[i], s[j])
}

pub open spec fn names_ascending(s: Seq<CookieDetailView>) -> bool {
    forall|i: int, j: int| 0 <= i < j < s.len() ==> !lex_lt(s[j].name, s[i].name)
}

pub open spec fn has_name(n: Seq<char>) -> spec_fn(CookieDetailView) -> bool {
    |c: CookieDetailView| c.name == n
}

/// The details in `s` named `n`, in their order.
pub open spec fn named(s: Seq<CookieDetailView>, n: Seq<char>) -> Seq<CookieDetailView> {
    s.filter(has_name(n))
}

/// `out` is `inp` sorted by name, keeping the order of equal names (a stable sort).
pub open spec fn stably_sorted_by_name(
    out: Seq<CookieDetailView>,
    inp: Seq<CookieDetailView>,
) -> bool {
    names_ascending(out) && forall|n: Seq<char>| #[trigger] named(out, n) == named(inp, n)
}

pub open spec fn row_details(rs: Seq<CookieRowView>, chromium: bool) -> Seq<CookieDetailView> {
    rs.map_values(|r: CookieRowView| row_detail(r, chromium))
}

/// `dc` is the report of its domain among `rows`: the domain occurs, and
/// every field is what the domain's rows give.
pub open spec fn reports_domain(
    dc: DomainCookieView,
    rows: Seq<CookieRowView>,
    chromium: bool,
) -> bool {
    let rs = domain_rows(rows, dc.domain);
    &&& rs.len() > 0
    &&& dc.cookie_count == rs.len()
    &&& dc.cookies.len() == rs.len()
    &&& dc.likely_logged_in == (total_score(rs) >= 2 || any_known_login(rs))
    &&& dc.is_tracker == is_tracker(dc.domain)
    &&& dc.last_access_unix == latest_access(rs, chromium)
    &&& strictly_ascending(dc.signals)
    &&& dc.signals.to_set() == signal_names(rs)
    &&& stably_sorted_by_name(dc.cookies, row_details(rs, chromium))
}

/// `out` is the cookie report of `rows`: one report per domain that a
/// counted row belongs to, each as `reports_domain` says, in report order.
pub open spec fn cookie_report(out: Seq<DomainCookie>, rows: Seq<CookieRowView>, chromium: bool) -> bool {
    &&& forall|i: int| 0 <= i < out.len() ==> reports_domain(out[i]@, rows, chromium)
    &&& forall|k: int|
        0 <= k < rows.len() && row_counts(rows[k]) ==> exists|i: int|
            0 <= i < out.len() && out[i]@.domain == row_domain(rows[k])
    &&& forall|i: int, j: int| 0 <= i < j < out.len() ==> ranks_before(out[i]@, out[j]@)
}

/// Report order: likely logins first, then more cookies first, then by domain.
pub open spec fn ranks_before(a: DomainCookieView, b: DomainCookieView) -> bool {
    ||| a.likely_logged_in && !b.likely_logged_in
    ||| a.likely_logged_in == b.likely_logged_in && a.cookie_count > b.cookie_count
    ||| a.likely_logged_in == b.likely_logged_in && a.cookie_count == b.cookie_count && lex_lt(
        a.domain,
        b.domain,
    )
}

/// The counters of every domain fit in a `u32`: its number of cookies and
/// its score.
pub open spec fn counters_fit(rows: Seq<CookieRowView>) -> bool {
    forall|d: Seq<char>|
        #![trigger domain_rows(rows, d)]
        domain_rows(rows, d).len() <= u32::MAX && total_score(domain_rows(rows, d)) <= u32::MAX
}

// ---------------------------------------------------------------------------
// Lemmas
// ---------------------------------------------------------------------------

proof fn lemma_filter_none<A>(s: Seq<A>, pred: spec_fn(A) -> bool)
    requires
        forall|k: int| 0 <= k < s.len() ==> !pred(s[k]),
    ensures
        s.filter(pred) == Seq::<A>::empty(),
    decreases s.len(),
{
    reveal(Seq::filter);
    if s.len() > 0 {
        lemma_filter_none(s.drop_last(), pred);
    }
}

proof fn lemma_domain_rows_push(rows: Seq<CookieRowView>, r: CookieRowView, d: Seq<char>)
    ensures
        domain_rows(rows.push(r), d) == if in_domain(r, d) {
            domain_rows(rows, d).push(r)
        } else {
            domain_rows(rows, d)
        },
{
    rows.lemma_filter_push(r, in_domain_pred(d));
}

pub proof fn lemma_total_score_bound(rs: Seq<CookieRowView>)
    ensures
        0 <= total_score(rs) <= 3 * rs.len(),
    decreases rs.len(),
{
    if rs.len() > 0 {
        lemma_total_score_bound(rs.drop_last());
    }
}

/// The rows of a domain among a prefix of `rows` are no more, and score no
/// more, than among all of `rows`.
proof fn lemma_prefix_counters(rows: Seq<CookieRowView>, i: int, d: Seq<char>)
    requires
        0 <= i <= rows.len(),
    ensures
        domain_rows(rows.take(i), d).len() <= domain_rows(rows, d).len(),
        total_score(domain_rows(rows.take(i), d)) <= total_score(domain_rows(rows, d)),
    decreases rows.len() - i,
{
    if i < rows.len() {
        lemma_prefix_counters(rows, i + 1, d);
        assert(rows.take(i + 1) =~= rows.take(i).push(rows[i]));
        lemma_domain_rows_push(rows.take(i), rows[i], d);
        let rs = domain_rows(rows.take(i), d);
        assert(rs.push(rows[i]).drop_last() =~= rs);
        lemma_total_score_bound(seq![rows[i]]);
        assert(seq![rows[i]].drop_last() =~= Seq::<CookieRowView>::empty());
    } else {
        assert(rows.take(i) =~= rows);
    }
}

proof fn lemma_ranks_total(a: DomainCookieView, b: DomainCookieView)
    ensures
        a.domain != b.domain ==> ranks_before(a, b) || ranks_before(b, a),
        ranks_before(a, b) ==> !ranks_before(b, a),
        !ranks_before(a, a),
{
    lemma_lex_total(a.domain, b.domain);
    lemma_lex_asymmetric(a.domain, b.domain);
    lemma_lex_irreflexive(a.domain);
}

proof fn lemma_ranks_transitive(a: DomainCookieView, b: DomainCookieView, c: DomainCookieView)
    ensures
        ranks_before(a, b) && ranks_before(b, c) ==> ranks_before(a, c),
{
    lemma_lex_transitive(a.domain, b.domain, c.domain);
}

// ---------------------------------------------------------------------------
// Sorted insertion
// ---------------------------------------------------------------------------

/// Adds `name` to an ascending list of distinct names, unless it is there.
fn insert_signal(signals: &mut Vec<String>, name: String)
    requires
        strictly_ascending(texts(old(signals)@)),
    ensures
        strictly_ascending(texts(final(signals)@)),
        texts(final(signals)@).to_set() == texts(old(signals)@).to_set().insert(name@),
{
    let ghost s0 = texts(signals@);
    let mut p: usize = 0;
    while p < signals.len() && compare_text(signals[p].as_str(), name.as_str()) == TextOrder::Before
        invariant
            p <= signals@.len(),
            s0 == texts(signals@),
            forall|k: int| 0 <= k < p ==> lex_lt(s0[k], name@),
        decreases signals@.len() - p,
    {
        p = p + 1;
    }
    if p < signals.len() && compare_text(signals[p].as_str(), name.as_str()) == TextOrder::Same {
        assert(s0[p as int] == name@);
        assert(s0.to_set() =~= s0.to_set().insert(name@));
        return;
    }
    proof {
        if p < s0.len() {
            lemma_lex_total(s0[p as int], name@);
        }
    }
    signals.insert(p, name);
    let ghost s1 = texts(signals@);
    assert(s1 =~= s0.insert(p as int, name@));
    assert forall|i: int, j: int| 0 <= i < j < s1.len() implies lex_lt(s1[i], s1[j]) by {
        if j < p {
        } else if j == p {
        } else if i < p {
            // s1[i] < name < s0[p] <= s0[j - 1]
            lemma_lex_transitive(s1[i], name@, s0[p as int]);
            if j - 1 > p {
                lemma_lex_transitive(s1[i], s0[p as int], s0[j - 1]);
                lemma_lex_transitive(name@, s0[p as int], s0[j - 1]);
            }
        } else if i == p {
            if j - 1 > p {
                lemma_lex_transitive(name@, s0[p as int], s0[j - 1]);
            }
        } else {
        }
    }
    assert(s1.to_set() =~= s0.to_set().insert(name@)) by {
        assert forall|x: Seq<char>| s1.to_set().contains(x) implies s0.to_set().insert(
            name@,
        ).contains(x) by {
            let k = choose|k: int| 0 <= k < s1.len() && s1[k] == x;
            if k < p {
                assert(s0[k] == x);
            } else if k > p {
                assert(s0[k - 1] == x);
            }
        }
        assert forall|x: Seq<char>| s0.to_set().insert(name@).contains(x) implies s1.to_set().contains(
            x,
        ) by {
            if x == name@ {
                assert(s1[p as int] == x);
            } else {
                let k = choose|k: int| 0 <= k < s0.len() && s0[k] == x;
                if k < p {
                    assert(s1[k] == x);
                } else {
                    assert(s1[k + 1] == x);
                }
            }
        }
    }
}

/// Inserts `d` after every detail whose name is not greater than its own.
fn insert_detail(cookies: &mut Vec<CookieDetail>, d: CookieDetail)
    requires
        names_ascending(details(old(cookies)@)),
    ensures
        final(cookies)@.len() == old(cookies)@.len() + 1,
        names_ascending(details(final(cookies)@)),
        forall|n: Seq<char>| #[trigger]
            named(details(final(cookies)@), n) == named(details(old(cookies)@).push(d@), n),
{
    let ghost s0 = details(cookies@);
    let ghost x = d@;
    let mut p: usize = 0;
    while p < cookies.len() && compare_text(d.name.as_str(), cookies[p].name.as_str())
        != TextOrder::Before
        invariant
            p <= cookies@.len(),
            s0 == details(cookies@),
            x == d@,
            forall|k: int| 0 <= k < p ==> !lex_lt(x.name, s0[k].name),
        decreases cookies@.len() - p,
    {
        p = p + 1;
    }
    // every detail from position p on has a name greater than x's
    assert forall|k: int| p <= k < s0.len() implies lex_lt(x.name, s0[k].name) by {
        if k > p {
            if lex_lt(s0[k].name, x.name) {
                lemma_lex_transitive(s0[k].name, x.name, s0[p as int].name);
            }
            lemma_lex_total(x.name, s0[k].name);
            lemma_lex_irreflexive(s0[p as int].name);
        }
    }
    cookies.insert(p, d);
    let ghost s1 = details(cookies@);
    let ghost a = s0.subrange(0, p as int);
    let ghost b = s0.subrange(p as int, s0.len() as int);
    assert(s1 =~= a + seq![x] + b);
    assert(s0 =~= a + b);
    assert forall|i: int, j: int| 0 <= i < j < s1.len() implies !lex_lt(s1[j].name, s1[i].name) by {
        if j < p {
        } else if j == p {
        } else if i < p {
            if lex_lt(s1[j].name, s1[i].name) {
                lemma_lex_transitive(s1[j].name, s1[i].name, x.name);
                lemma_lex_asymmetric(x.name, s0[j - 1].name);
                lemma_lex_total(s1[i].name, x.name);
            }
        } else if i == p {
            lemma_lex_asymmetric(x.name, s0[j - 1].name);
        } else {
        }
    }
    assert forall|n: Seq<char>| #[trigger] named(s1, n) == named(s0.push(x), n) by {
        let pred = has_name(n);
        Seq::filter_distributes_over_add(a + seq![x], b, pred);
        Seq::filter_distributes_over_add(a, seq![x], pred);
        Seq::filter_distributes_over_add(a, b, pred);
        s0.lemma_filter_push(x, pred);
        Seq::<CookieDetailView>::empty().lemma_filter_push(x, pred);
        lemma_filter_none(Seq::<CookieDetailView>::empty(), pred);
        assert(Seq::<CookieDetailView>::empty().push(x) =~= seq![x]);
        if x.name == n {
            assert forall|k: int| 0 <= k < b.len() implies !pred(b[k]) by {
                lemma_lex_irreflexive(x.name);
                assert(b[k] == s0[p + k]);
            }
            lemma_filter_none(b, pred);
            assert(seq![x].filter(pred) =~= seq![x]);
            assert(named(s1, n) =~= named(s0, n).push(x));
        } else {
            assert(seq![x].filter(pred) =~= Seq::<CookieDetailView>::empty());
            assert(named(s1, n) =~= named(s0, n));
        }
    }
}

// ---------------------------------------------------------------------------
// Accumulating one domain
// ---------------------------------------------------------------------------

struct DomainTally {
    domain: String,
    count: u32,
    score: u32,
    signals: Vec<String>,
    cookies: Vec<CookieDetail>,
    known_hit: bool,
    last_access: Option<i64>,
}

spec fn tally_matches(t: DomainTally, rs: Seq<CookieRowView>, chromium: bool) -> bool {
    &&& t.count == rs.len()
    &&& t.cookies@.len() == rs.len()
    &&& t.score == total_score(rs)
    &&& t.known_hit == any_known_login(rs)
    &&& t.last_access == latest_access(rs, chromium)
    &&& strictly_ascending(texts(t.signals@))
    &&& texts(t.signals@).to_set() == signal_names(rs)
    &&& stably_sorted_by_name(details(t.cookies@), row_details(rs, chromium))
}

fn new_tally(domain: String) -> (t: DomainTally)
    ensures
        t.domain@ == domain@,
        t.count == 0,
        forall|chromium: bool| tally_matches(t, Seq::<CookieRowView>::empty(), chromium),
{
    let t = DomainTally {
        domain,
        count: 0,
        score: 0,
        signals: Vec::new(),
        cookies: Vec::new(),
        known_hit: false,
        last_access: None,
    };
    assert(texts(t.signals@).to_set() =~= signal_names(Seq::<CookieRowView>::empty()));
    assert forall|chromium: bool| tally_matches(t, Seq::<CookieRowView>::empty(), chromium) by {
        assert forall|n: Seq<char>| #[trigger]
            named(details(t.cookies@), n) == named(
                row_details(Seq::<CookieRowView>::empty(), chromium),
                n,
            ) by {
            reveal(Seq::filter);
            assert(details(t.cookies@) =~= Seq::<CookieDetailView>::empty());
            assert(row_details(Seq::<CookieRowView>::empty(), chromium)
                =~= Seq::<CookieDetailView>::empty());
        }
    }
    t
}

/// The text of an optional column, or the empty text.
fn column_text(o: &Option<String>) -> (r: &str)
    ensures
        r@ == text_or_empty(opt_view(o)),
{
    match o {
        Some(s) => s.as_str(),
        None => {
            proof {
                reveal_strlit("");
            }
            ""
        },
    }
}

pub open spec fn opt_view(o: &Option<String>) -> Option<Seq<char>> {
    match o {
        Some(s) => Some(s@),
        None => None,
    }
}

fn column_int(o: Option<i64>) -> (r: i64)
    ensures
        r == int_or_zero(o),
{
    match o {
        Some(v) => v,
        None => 0,
    }
}

fn detail_of_row(r: &CookieRow, chromium: bool) -> (d: CookieDetail)
    ensures
        d@ == row_detail(r@, chromium),
{
    let name = to_lowercase(column_text(&r.name));
    let expiry = column_int(r.expiry);
    let expires_unix = if chromium {
        chromium_micros_to_unix(expiry)
    } else if expiry > 0 {
        Some(expiry)
    } else {
        None
    };
    CookieDetail {
        name,
        expires_unix,
        secure: column_int(r.secure) != 0,
        http_only: column_int(r.http_only) != 0,
    }
}

fn accessed_of_row(r: &CookieRow, chromium: bool) -> (a: Option<i64>)
    ensures
        a == row_accessed(r@, chromium),
{
    let v = column_int(r.last_access);
    if chromium {
        chromium_micros_to_unix(v)
    } else if v > 0 {
        Some((v / 1_000_000) as i64)
    } else {
        None
    }
}

fn later_of(a: Option<i64>, b: Option<i64>) -> (r: Option<i64>)
    ensures
        r == later(a, b),
{
    match (a, b) {
        (Some(x), Some(y)) => Some(
            if x >= y {
                x
            } else {
                y
            },
        ),
        (Some(x), None) => Some(x),
        (None, y) => y,
    }
}

/// Adds one row of the tally's domain.
fn record_row(
    t: &mut DomainTally,
    r: &CookieRow,
    chromium: bool,
    Ghost(rs): Ghost<Seq<CookieRowView>>,
)
    requires
        tally_matches(*old(t), rs, chromium),
        rs.len() + 1 <= u32::MAX,
        total_score(rs.push(r@)) <= u32::MAX,
    ensures
        tally_matches(*final(t), rs.push(r@), chromium),
        final(t).domain == old(t).domain,
{
    let ghost rv = r@;
    let ghost rs1 = rs.push(rv);
    assert(rs1.drop_last() =~= rs);
    t.count = t.count + 1;
    let access = accessed_of_row(r, chromium);
    t.last_access = later_of(t.last_access, access);
    let detail = detail_of_row(r, chromium);
    let lname = String::from_str(detail.name.as_str());
    let hint = has_session_hint_name(lname.as_str());
    let known = is_known_login_name(lname.as_str());
    let ghost old_cookies = details(t.cookies@);
    let ghost dv = detail@;
    insert_detail(&mut t.cookies, detail);
    let mut add: u32 = 0;
    if hint {
        add = add + 1;
        insert_signal(&mut t.signals, lname);
    }
    if known {
        add = add + 2;
        t.known_hit = true;
    }
    t.score = t.score + add;
    proof {
        assert(row_details(rs1, chromium) =~= row_details(rs, chromium).push(row_detail(rv, chromium)));
        assert forall|n: Seq<char>| #[trigger] named(details(t.cookies@), n) == named(
            row_details(rs1, chromium),
            n,
        ) by {
            old_cookies.lemma_filter_push(dv, has_name(n));
            row_details(rs, chromium).lemma_filter_push(dv, has_name(n));
            assert(named(old_cookies, n) == named(row_details(rs, chromium), n));
        }
        assert(t.count == rs1.len());
        assert(t.score == total_score(rs1));
        assert(t.last_access == latest_access(rs1, chromium));
        assert forall|i: int| 0 <= i < rs.len() implies rs1[i] == rs[i] by {}
        assert(rs1[rs.len() as int] == rv);
        if known {
            assert(is_known_login_cookie(row_name(rs1[rs.len() as int])));
        }
        if any_known_login(rs) {
            let i = choose|i: int| 0 <= i < rs.len() && is_known_login_cookie(row_name(rs[i]));
            assert(is_known_login_cookie(row_name(rs1[i])));
        }
        if any_known_login(rs1) {
            let i = choose|i: int| 0 <= i < rs1.len() && is_known_login_cookie(row_name(rs1[i]));
            if i < rs.len() {
                assert(rs[i] == rs1[i]);
            }
        }
        assert(texts(t.signals@).to_set() =~= signal_names(rs1)) by {
            assert forall|n: Seq<char>| signal_names(rs1).contains(n) implies texts(
                t.signals@,
            ).to_set().contains(n) by {
                let i = choose|i: int| 0 <= i < rs1.len() && row_name(rs1[i]) == n;
                if i < rs.len() {
                    assert(rs[i] == rs1[i]);
                    assert(signal_names(rs).contains(n));
                }
            }
            assert forall|n: Seq<char>| texts(t.signals@).to_set().contains(n) implies signal_names(
                rs1,
            ).contains(n) by {
                if n != row_name(rv) || !hint {
                    assert(signal_names(rs).contains(n));
                    let i = choose|i: int| 0 <= i < rs.len() && row_name(rs[i]) == n;
                    assert(rs1[i] == rs[i]);
                } else {
                    assert(rs1[rs.len() as int] == rv);
                }
            }
        }
    }
}

fn finish_tally(t: DomainTally, Ghost(rs): Ghost<Seq<CookieRowView>>, chromium: bool) -> (dc:
    DomainCookie)
    requires
        tally_matches(t, rs, chromium),
    ensures
        dc@.domain == t.domain@,
        dc@.cookie_count == rs.len(),
        dc@.cookies.len() == rs.len(),
        dc@.likely_logged_in == (total_score(rs) >= 2 || any_known_login(rs)),
        dc@.is_tracker == is_tracker(t.domain@),
        dc@.last_access_unix == latest_access(rs, chromium),
        strictly_ascending(dc@.signals),
        dc@.signals.to_set() == signal_names(rs),
        stably_sorted_by_name(dc@.cookies, row_details(rs, chromium)),
{
    let likely = t.score >= 2 || t.known_hit;
    let tracker = is_tracker_domain(t.domain.as_str());
    DomainCookie {
        domain: t.domain,
        cookie_count: t.count,
        signals: t.signals,
        cookies: t.cookies,
        likely_logged_in: likely,
        is_tracker: tracker,
        last_access_unix: t.last_access,
    }
}

fn ranks_before_exec(a: &DomainCookie, b: &DomainCookie) -> (r: bool)
    ensures
        r == ranks_before(a@, b@),
{
    if a.likely_logged_in != b.likely_logged_in {
        a.likely_logged_in
    } else if a.cookie_count != b.cookie_count {
        a.cookie_count > b.cookie_count
    } else {
        compare_text(a.domain.as_str(), b.domain.as_str()) == TextOrder::Before
    }
}

/// Inserts `x` at its place in a list kept in report order.
fn insert_ranked(out: &mut Vec<DomainCookie>, x: DomainCookie)
    requires
        forall|i: int, j: int|
            0 <= i < j < old(out)@.len() ==> ranks_before(old(out)@[i]@, old(out)@[j]@),
        forall|k: int| 0 <= k < old(out)@.len() ==> old(out)@[k]@.domain != x@.domain,
    ensures
        forall|i: int, j: int|
            0 <= i < j < final(out)@.len() ==> ranks_before(final(out)@[i]@, final(out)@[j]@),
        exists|p: int| 0 <= p <= old(out)@.len() && final(out)@ == old(out)@.insert(p, x),
{
    let ghost s0 = out@;
    let mut p: usize = 0;
    while p < out.len() && ranks_before_exec(&out[p], &x)
        invariant
            p <= out@.len(),
            s0 == out@,
            forall|k: int| 0 <= k < p ==> ranks_before(s0[k]@, x@),
        decreases out@.len() - p,
    {
        p = p + 1;
    }
    proof {
        if p < s0.len() {
            lemma_ranks_total(s0[p as int]@, x@);
        }
    }
    let ghost xv = x@;
    out.insert(p, x);
    let ghost s1 = out@;
    assert forall|i: int, j: int| 0 <= i < j < s1.len() implies ranks_before(s1[i]@, s1[j]@) by {
        if j < p {
        } else if j == p {
        } else if i < p {
            assert(s1[i] == s0[i]);
            assert(s1[j] == s0[j - 1]);
            lemma_ranks_transitive(s0[i]@, xv, s0[p as int]@);
            if j - 1 > p {
                lemma_ranks_transitive(s0[i]@, s0[p as int]@, s0[j - 1]@);
            }
        } else if i == p {
            assert(s1[j] == s0[j - 1]);
            if j - 1 > p {
                lemma_ranks_transitive(xv, s0[p as int]@, s0[j - 1]@);
            }
        } else {
            assert(s1[i] == s0[i - 1]);
            assert(s1[j] == s0[j - 1]);
        }
    }
}

// ---------------------------------------------------------------------------
// All domains
// ---------------------------------------------------------------------------

/// Finds the tally of `domain`, if there is one.
fn find_tally(tallies: &Vec<DomainTally>, domain: &str) -> (r: Option<usize>)
    ensures
        match r {
            Some(j) => j < tallies@.len() && tallies@[j as int].domain@ == domain@,
            None => forall|j: int| 0 <= j < tallies@.len() ==> tallies@[j].domain@ != domain@,
        },
{
    let mut j: usize = 0;
    while j < tallies.len()
        invariant
            j <= tallies@.len(),
            forall|k: int| 0 <= k < j ==> tallies@[k].domain@ != domain@,
        decreases tallies@.len() - j,
    {
        if crate::text::same_text(tallies[j].domain.as_str(), domain) {
            return Some(j);
        }
        j = j + 1;
    }
    None
}

/// The score of one row: one for a name with a session hint, two for a
/// known login cookie.
fn score_of_row(r: &CookieRow) -> (s: u32)
    ensures
        s == row_score(r@),
{
    let lname = to_lowercase(column_text(&r.name));
    let mut s: u32 = 0;
    if has_session_hint_name(lname.as_str()) {
        s = s + 1;
    }
    if is_known_login_name(lname.as_str()) {
        s = s + 2;
    }
    s
}

/// Groups cookie rows by registrable domain and reports each domain (see
/// `analyze_cookie_rows`), when every domain's counters fit in a `u32`;
/// nothing otherwise.
pub fn group_cookie_rows(rows: &Vec<CookieRow>, family: Family) -> (r: Option<Vec<DomainCookie>>)
    ensures
        r is Some <==> counters_fit(rows_view(rows@)),
        r matches Some(out) ==> cookie_report(out@, rows_view(rows@), family == Family::Chromium),
{
    let chromium = match family {
        Family::Chromium => true,
        Family::Firefox => false,
    };
    let ghost all = rows_view(rows@);
    let mut tallies: Vec<DomainTally> = Vec::new();
    let mut i: usize = 0;
    while i < rows.len()
        invariant
            i <= rows@.len(),
            all == rows_view(rows@),
            chromium == (family == Family::Chromium),
            forall|j: int|
                0 <= j < tallies@.len() ==> tally_matches(
                    tallies@[j],
                    domain_rows(all.take(i as int), tallies@[j].domain@),
                    chromium,
                ),
            forall|j: int|
                0 <= j < tallies@.len() ==> domain_rows(
                    all.take(i as int),
                    tallies@[j].domain@,
                ).len() > 0,
            forall|j: int, k: int|
                0 <= j < tallies@.len() && 0 <= k < tallies@.len() && j != k
                    ==> tallies@[j].domain@ != tallies@[k].domain@,
            forall|k: int|
                0 <= k < i && row_counts(all[k]) ==> exists|j: int|
                    0 <= j < tallies@.len() && tallies@[j].domain@ == row_domain(all[k]),
        decreases rows@.len() - i,
    {
        let r = &rows[i];
        let ghost rv = r@;
        let ghost prev = all.take(i as int);
        assert(all.take(i + 1) =~= prev.push(rv));
        assert(all[i as int] == rv);
        let host = column_text(&r.host);
        if !host.is_empty() {
            let domain = registrable_domain(host);
            let ghost d = domain@;
            assert(in_domain(rv, d));
            let j = match find_tally(&tallies, domain.as_str()) {
                Some(j) => j,
                None => {
                    proof {
                        // no earlier row belongs to this domain
                        assert forall|k: int| 0 <= k < prev.len() implies !in_domain(
                            prev[k],
                            d,
                        ) by {
                            if in_domain(prev[k], d) {
                                assert(all[k] == prev[k]);
                                let w = choose|w: int|
                                    0 <= w < tallies@.len() && tallies@[w].domain@ == row_domain(
                                        all[k],
                                    );
                            }
                        }
                        lemma_filter_none(prev, in_domain_pred(d));
                    }
                    let ghost old_tallies = tallies@;
                    tallies.push(new_tally(domain));
                    proof {
                        assert forall|k: int| 0 <= k < old_tallies.len() implies tallies@[k]
                            == old_tallies[k] by {}
                    }
                    tallies.len() - 1
                },
            };
            let ghost before = tallies@;
            let ghost rs = domain_rows(prev, d);
            proof {
                lemma_domain_rows_push(prev, rv, d);
                lemma_prefix_counters(all, i + 1, d);
                assert(rs.push(rv).drop_last() =~= rs);
            }
            assert(tally_matches(tallies@[j as int], rs, chromium));
            let add = score_of_row(r);
            if tallies[j].count == 4294967295u32 || tallies[j].score > 4294967295u32 - add {
                assert(domain_rows(all, d).len() > u32::MAX || total_score(domain_rows(all, d))
                    > u32::MAX);
                return None;
            }
            record_row(&mut tallies[j], r, chromium, Ghost(rs));
            proof {
                assert forall|k: int| 0 <= k < tallies@.len() implies tally_matches(
                    tallies@[k],
                    domain_rows(all.take(i + 1), tallies@[k].domain@),
                    chromium,
                ) && domain_rows(all.take(i + 1), tallies@[k].domain@).len() > 0 by {
                    lemma_domain_rows_push(prev, rv, tallies@[k].domain@);
                    if k != j {
                        assert(tallies@[k] == before[k]);
                    }
                }
                assert forall|k: int|
                    0 <= k < i + 1 && row_counts(all[k]) implies exists|w: int|
                    0 <= w < tallies@.len() && tallies@[w].domain@ == row_domain(all[k]) by {
                    if k == i {
                        assert(tallies@[j as int].domain@ == d);
                    } else {
                        let w = choose|w: int|
                            0 <= w < before.len() && before[w].domain@ == row_domain(all[k]);
                        assert(tallies@[w].domain@ == before[w].domain@);
                    }
                }
            }
        } else {
            proof {
                assert forall|k: int| 0 <= k < tallies@.len() implies domain_rows(
                    all.take(i + 1),
                    tallies@[k].domain@,
                ) == domain_rows(prev, tallies@[k].domain@) by {
                    lemma_domain_rows_push(prev, rv, tallies@[k].domain@);
                }
            }
        }
        i = i + 1;
    }
    assert(all.take(i as int) =~= all);
    proof {
        assert forall|d: Seq<char>| #[trigger] domain_rows(all, d).len() <= u32::MAX && total_score(
            domain_rows(all, d),
        ) <= u32::MAX by {
            let rs = domain_rows(all, d);
            if rs.len() > 0 {
                all.lemma_filter_pred(in_domain_pred(d), 0);
                assert(rs.contains(rs[0]));
                all.lemma_filter_contains_rev(in_domain_pred(d), rs[0]);
                assert(in_domain(rs[0], d) && all.contains(rs[0]));
                let k = choose|k: int| 0 <= k < all.len() && all[k] == rs[0];
                let w = choose|w: int|
                    0 <= w < tallies@.len() && tallies@[w].domain@ == row_domain(all[k]);
                assert(tally_matches(tallies@[w], rs, chromium));
            } else {
                assert(rs =~= Seq::<CookieRowView>::empty());
            }
        }
    }
    let mut out: Vec<DomainCookie> = Vec::new();
    while tallies.len() > 0
        invariant
            all == rows_view(rows@),
            chromium == (family == Family::Chromium),
            forall|j: int|
                0 <= j < tallies@.len() ==> tally_matches(
                    tallies@[j],
                    domain_rows(all, tallies@[j].domain@),
                    chromium,
                ),
            forall|j: int|
                0 <= j < tallies@.len() ==> domain_rows(all, tallies@[j].domain@).len() > 0,
            forall|j: int, k: int|
                0 <= j < tallies@.len() && 0 <= k < tallies@.len() && j != k
                    ==> tallies@[j].domain@ != tallies@[k].domain@,
            forall|j: int, k: int|
                0 <= j < tallies@.len() && 0 <= k < out@.len() ==> tallies@[j].domain@
                    != out@[k]@.domain,
            forall|k: int|
                0 <= k < rows@.len() && row_counts(all[k]) ==> (exists|j: int|
                    0 <= j < tallies@.len() && tallies@[j].domain@ == row_domain(all[k])) || (
                exists|w: int| 0 <= w < out@.len() && out@[w]@.domain == row_domain(all[k])),
            forall|w: int| 0 <= w < out@.len() ==> reports_domain(out@[w]@, all, chromium),
            forall|a: int, b: int| 0 <= a < b < out@.len() ==> ranks_before(out@[a]@, out@[b]@),
        decreases tallies@.len(),
    {
        let ghost before_t = tallies@;
        let ghost before_o = out@;
        let t = tallies.pop().unwrap();
        let ghost last = before_t.len() - 1;
        assert(t == before_t[last]);
        let ghost rs = domain_rows(all, t.domain@);
        let dc = finish_tally(t, Ghost(rs), chromium);
        assert(reports_domain(dc@, all, chromium));
        insert_ranked(&mut out, dc);
        proof {
            let p = choose|p: int| 0 <= p <= before_o.len() && out@ == before_o.insert(p, dc);
            assert forall|w: int| 0 <= w < out@.len() implies reports_domain(
                out@[w]@,
                all,
                chromium,
            ) by {
                if w < p {
                    assert(out@[w] == before_o[w]);
                } else if w > p {
                    assert(out@[w] == before_o[w - 1]);
                }
            }
            assert forall|j: int, k: int|
                0 <= j < tallies@.len() && 0 <= k < out@.len() implies tallies@[j].domain@
                != out@[k]@.domain by {
                assert(tallies@[j] == before_t[j]);
                if k < p {
                    assert(out@[k] == before_o[k]);
                } else if k > p {
                    assert(out@[k] == before_o[k - 1]);
                }
            }
            assert forall|k: int|
                0 <= k < rows@.len() && row_counts(all[k]) implies (exists|j: int|
                0 <= j < tallies@.len() && tallies@[j].domain@ == row_domain(all[k])) || (exists|
                w: int,
            |
                0 <= w < out@.len() && out@[w]@.domain == row_domain(all[k])) by {
                if exists|j: int|
                    0 <= j < before_t.len() && before_t[j].domain@ == row_domain(all[k]) {
                    let j = choose|j: int|
                        0 <= j < before_t.len() && before_t[j].domain@ == row_domain(all[k]);
                    if j == last {
                        assert(out@[p]@.domain == row_domain(all[k]));
                    } else {
                        assert(tallies@[j] == before_t[j]);
                    }
                } else {
                    let w = choose|w: int|
                        0 <= w < before_o.len() && before_o[w]@.domain == row_domain(all[k]);
                    if w < p {
                        assert(out@[w] == before_o[w]);
                    } else {
                        assert(out@[w + 1] == before_o[w]);
                    }
                }
            }
        }
    }
    Some(out)
}

/// Groups cookie rows by registrable domain and reports each domain: how many
/// cookies it holds, the names that suggest a session, each cookie's metadata
/// sorted by name, whether it is a tracker, when it was last used, and whether
/// it likely holds a login (a score of two or more, or a known login cookie).
/// Rows with an empty host are skipped. The reports come likely logins first,
/// then by cookie count, largest first, then by domain.
pub fn analyze_cookie_rows(rows: &Vec<CookieRow>, family: Family) -> (out: Vec<DomainCookie>)
    requires
        counters_fit(rows_view(rows@)),
    ensures
        cookie_report(out@, rows_view(rows@), family == Family::Chromium),
{
    match group_cookie_rows(rows, family) {
        Some(out) => out,
        None => {
            assert(false);
            Vec::new()
        },
    }
}

} // verus!

