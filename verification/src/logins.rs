//! Saved logins: the rows of Chromium's login database, and the entries of
//! Firefox's `logins.json` (whose user names are encrypted and so not read).
use vstd::prelude::*;

use rusqlite::Connection;

use crate::cookies::{int_or_zero, text_or_empty};
use crate::model::{logins_view, opt_text, readable, SavedLogin, SavedLoginView};
use crate::sqlite::query_login_rows;
use crate::text::same_text;

verus! {

/// One row of Chromium's `logins` table; a NULL column is `None`.
#[derive(Debug)]
pub struct LoginRow {
    pub origin: Option<String>,
    pub username: Option<String>,
    pub times_used: Option<i64>,
}

pub struct LoginRowView {
    pub origin: Option<Seq<char>>,
    pub username: Option<Seq<char>>,
    pub times_used: Option<i64>,
}

impl View for LoginRow {
    type V = LoginRowView;

    open spec fn view(&self) -> LoginRowView {
        LoginRowView {
            origin: opt_text(self.origin),
            username: opt_text(self.username),
            times_used: self.times_used,
        }
    }
}

/// The saved login a row reports: NULL text reads as empty.
pub open spec fn login_of_row(r: LoginRowView) -> SavedLoginView {
    SavedLoginView {
        origin: text_or_empty(r.origin),
        username: text_or_empty(r.username),
        times_used: r.times_used,
    }
}

fn text_of_column(o: Option<String>) -> (r: String)
    ensures
        r@ == text_or_empty(opt_text(o)),
{
    match o {
        Some(s) => s,
        None => String::new(),
    }
}

/// The saved login that one row of Chromium's login table reports.
pub fn saved_login_from_row(r: LoginRow) -> (l: SavedLogin)
    ensures
        l@ == login_of_row(r@),
{
    SavedLogin {
        origin: text_of_column(r.origin),
        username: text_of_column(r.username),
        times_used: r.times_used,
    }
}

/// The saved logins of the rows read without error, in order.
pub fn saved_logins_from_rows<E>(rows: Vec<Result<LoginRow, E>>) -> (out: Vec<SavedLogin>)
    ensures
        logins_view(out@) == readable(rows@).map_values(|r: LoginRow| login_of_row(r@)),
{
    let ghost all = rows@;
    let mut out: Vec<SavedLogin> = Vec::new();
    for item in it: rows
        invariant
            it.seq() == all,
            logins_view(out@) == readable(all.take(it.index() as int)).map_values(
                |r: LoginRow| login_of_row(r@),
            ),
    {
        let ghost k = it.index();
        let ghost itv = item;
        assert(item == all[k as int]);
        assert(all.take(k + 1).last() == itv);
        assert(all.take(k + 1).drop_last() =~= all.take(k as int));
        match item {
            Ok(r) => {
                let ghost rv = r;
                assert(itv == Ok::<LoginRow, E>(rv));
                assert(readable(all.take(k + 1)) == readable(all.take(k as int)).push(rv));
                let l = saved_login_from_row(r);
                let ghost lv = l@;
                let ghost o = out@;
                out.push(l);
                assert(logins_view(out@) =~= logins_view(o).push(lv));
                assert(readable(all.take(k as int)).push(rv).map_values(|r: LoginRow| login_of_row(r@))
                    =~= readable(all.take(k as int)).map_values(|r: LoginRow| login_of_row(r@)).push(login_of_row(rv@)));
                assert(logins_view(out@) =~= readable(all.take(k + 1)).map_values(
                    |r: LoginRow| login_of_row(r@),
                ));
            },
            Err(_) => {},
        }
    }
    assert(all.take(all.len() as int) =~= all);
    out
}

/// The statement that reads the site, user name and use count of every
/// saved login in Chromium's login table (never a password).
pub open spec fn login_rows_sql() -> Seq<char> {
    "SELECT origin_url, username_value, times_used FROM logins"@
}

fn login_rows_statement() -> (r: &'static str)
    ensures
        r@ == login_rows_sql(),
{
    "SELECT origin_url, username_value, times_used FROM logins"
}

/// The saved logins in Chromium's login database behind `conn`: one per row
/// that reads without error; none when the query fails.
pub fn analyze_saved_logins_chromium(conn: &Connection) -> (out: Vec<SavedLogin>)
    ensures
        exists|rows: Seq<Result<LoginRow, rusqlite::Error>>|
            logins_view(out@) == readable(rows).map_values(|r: LoginRow| login_of_row(r@)),
{
    match query_login_rows(conn, login_rows_statement()) {
        Ok(rows) => {
            let ghost all = rows@;
            let out = saved_logins_from_rows(rows);
            assert(logins_view(out@) == readable(all).map_values(|r: LoginRow| login_of_row(r@)));
            out
        },
        Err(_) => {
            let out: Vec<SavedLogin> = Vec::new();
            assert(logins_view(out@) =~= readable(Seq::<Result<LoginRow, rusqlite::Error>>::empty()).map_values(
                |r: LoginRow| login_of_row(r@),
            ));
            out
        },
    }
}

// ---------------------------------------------------------------------------
// logins.json
// ---------------------------------------------------------------------------

/// A JSON document as the audit reads it. A number is held as what
/// `as_i64` gives for it (the value when it is an integer that fits in
/// `i64`, else `None`) and as the text `serde_json` writes for it, so that
/// a document written back keeps every number. An object's keys are
/// distinct, in any order.
#[derive(Debug)]
pub enum JsonValue {
    Null,
    Bool(bool),
    Number(Option<i64>, String),
    Text(String),
    Array(Vec<JsonValue>),
    Object(Vec<(String, JsonValue)>),
}

/// Entry `i` is the first of `entries` with key `key`.
pub open spec fn first_with_key(entries: Seq<(String, JsonValue)>, key: Seq<char>, i: int) -> bool {
    &&& 0 <= i < entries.len()
    &&& entries[i].0@ == key
    &&& forall|j: int| 0 <= j < i ==> entries[j].0@ != key
}

/// The value under `key` in an object, if `v` is an object that has it.
pub open spec fn member(v: JsonValue, key: Seq<char>) -> Option<JsonValue> {
    match v {
        JsonValue::Object(entries) => if exists|i: int| first_with_key(entries@, key, i) {
            let i = choose|i: int| first_with_key(entries@, key, i);
            Some(entries@[i].1)
        } else {
            None
        },
        _ => None,
    }
}

/// The text of a value, if it is a string.
pub open spec fn as_text(v: Option<JsonValue>) -> Option<Seq<char>> {
    match v {
        Some(JsonValue::Text(s)) => Some(s@),
        _ => None,
    }
}

/// The integer of a value, if it is an integer that fits in `i64`.
pub open spec fn as_int(v: Option<JsonValue>) -> Option<i64> {
    match v {
        Some(JsonValue::Number(n, _)) => n,
        _ => None,
    }
}

/// The saved login one entry of `logins.json` reports: its `hostname` (empty
/// when absent or not a string), its `timesUsed`, and a user name that says
/// it is encrypted.
pub open spec fn login_of_entry(e: JsonValue) -> SavedLoginView {
    SavedLoginView {
        origin: text_or_empty(as_text(member(e, "hostname"@))),
        username: "(encrypted)"@,
        times_used: as_int(member(e, "timesUsed"@)),
    }
}

/// The entries of the document's `logins` array, if it has one.
pub open spec fn login_entries(doc: JsonValue) -> Option<Seq<JsonValue>> {
    match member(doc, "logins"@) {
        Some(JsonValue::Array(items)) => Some(items@),
        _ => None,
    }
}

/// The value under `key`, if `v` is an object that has it.
pub fn json_member<'a>(v: &'a JsonValue, key: &str) -> (r: Option<&'a JsonValue>)
    ensures
        match r {
            Some(x) => member(*v, key@) == Some(*x),
            None => member(*v, key@) is None,
        },
{
    match v {
        JsonValue::Object(entries) => {
            let mut i: usize = 0;
            while i < entries.len()
                invariant
                    *v == JsonValue::Object(*entries),
                    i <= entries@.len(),
                    forall|k: int| 0 <= k < i ==> entries@[k].0@ != key@,
                decreases entries@.len() - i,
            {
                if same_text(entries[i].0.as_str(), key) {
                    proof {
                        assert(first_with_key(entries@, key@, i as int));
                        assert(exists|c: int| first_with_key(entries@, key@, c));
                        let c = choose|c: int| first_with_key(entries@, key@, c);
                        if c < i {
                        } else if c > i {
                            assert(entries@[i as int].0@ == key@);
                        }
                        assert(c == i);
                        assert((*v)->Object_0 == *entries);
                        assert((*v)->Object_0@ == entries@);
                        assert(member(*v, key@) == Some(entries@[i as int].1));
                    }
                    return Some(&entries[i].1);
                }
                i = i + 1;
            }
            None
        },
        _ => None,
    }
}

/// The saved login that one entry of `logins.json` reports.
pub fn saved_login_from_entry(e: &JsonValue) -> (l: SavedLogin)
    ensures
        l@ == login_of_entry(*e),
{
    let origin = match json_member(e, "hostname") {
        Some(JsonValue::Text(s)) => s.clone(),
        _ => String::new(),
    };
    let times_used = match json_member(e, "timesUsed") {
        Some(JsonValue::Number(n, _)) => *n,
        _ => None,
    };
    SavedLogin { origin, username: String::from_str("(encrypted)"), times_used }
}

/// The saved logins that Firefox's `logins.json` lists: one per entry of its
/// `logins` array, none when the document has no such array.
pub fn saved_logins_from_json(doc: &JsonValue) -> (out: Vec<SavedLogin>)
    ensures
        match login_entries(*doc) {
            Some(items) => logins_view(out@) == items.map_values(|e: JsonValue| login_of_entry(e)),
            None => out@.len() == 0,
        },
{
    let mut out: Vec<SavedLogin> = Vec::new();
    match json_member(doc, "logins") {
        Some(JsonValue::Array(items)) => {
            let ghost all = items@;
            let mut i: usize = 0;
            while i < items.len()
                invariant
                    all == items@,
                    i <= all.len(),
                    logins_view(out@) == all.take(i as int).map_values(
                        |e: JsonValue| login_of_entry(e),
                    ),
                decreases all.len() - i,
            {
                let l = saved_login_from_entry(&items[i]);
                let ghost lv = l@;
                let ghost o = out@;
                assert(lv == login_of_entry(all[i as int]));
                out.push(l);
                assert(logins_view(out@) =~= logins_view(o).push(lv));
                assert(all.take(i + 1) =~= all.take(i as int).push(all[i as int]));
                assert(logins_view(out@) =~= all.take(i + 1).map_values(
                    |e: JsonValue| login_of_entry(e),
                ));
                i = i + 1;
            }
            assert(all.take(i as int) =~= all);
            out
        },
        _ => out,
    }
}

/// Whether an entry of `logins.json` is for the site `origin` (its
/// `hostname` is that string).
pub fn login_entry_has_origin(e: &JsonValue, origin: &str) -> (r: bool)
    ensures
        r == (as_text(member(*e, "hostname"@)) == Some(origin@)),
{
    match json_member(e, "hostname") {
        Some(JsonValue::Text(s)) => same_text(s.as_str(), origin),
        _ => false,
    }
}


/// The entry is for the site `origin`: its `hostname` is that string.
pub open spec fn entry_has_origin(e: JsonValue, origin: Seq<char>) -> bool {
    as_text(member(e, "hostname"@)) == Some(origin)
}

pub open spec fn has_origin_pred(origin: Seq<char>) -> spec_fn(JsonValue) -> bool {
    |e: JsonValue| entry_has_origin(e, origin)
}

/// The entries that deleting the saved passwords of `origin` keeps.
pub open spec fn other_origin_pred(origin: Seq<char>) -> spec_fn(JsonValue) -> bool {
    |e: JsonValue| !entry_has_origin(e, origin)
}

/// The entries of `items` that are not for the site `origin`, in order, and
/// how many are.
fn keep_other_origins(items: Vec<JsonValue>, origin: &str) -> (r: (Vec<JsonValue>, usize))
    ensures
        r.0@ == items@.filter(other_origin_pred(origin@)),
        r.1 == items@.filter(has_origin_pred(origin@)).len(),
{
    let ghost all = items@;
    let _len: usize = items.len();
    let mut kept: Vec<JsonValue> = Vec::new();
    let mut n: usize = 0;
    assert(all.take(0) =~= Seq::<JsonValue>::empty());
    proof {
        all.take(0).lemma_filter_len(other_origin_pred(origin@));
        all.take(0).lemma_filter_len(has_origin_pred(origin@));
    }
    assert(kept@ =~= all.take(0).filter(other_origin_pred(origin@)));
    for item in it: items
        invariant
            it.seq() == all,
            kept@ == all.take(it.index() as int).filter(other_origin_pred(origin@)),
            n == all.take(it.index() as int).filter(has_origin_pred(origin@)).len(),
            n <= it.index(),
            all.len() <= usize::MAX,
    {
        let ghost k = it.index();
        assert(k < all.len());
        assert(item == all[k as int]);
        assert(all.take(k + 1) =~= all.take(k as int).push(item));
        proof {
            all.take(k as int).lemma_filter_push(item, other_origin_pred(origin@));
            all.take(k as int).lemma_filter_push(item, has_origin_pred(origin@));
        }
        if login_entry_has_origin(&item, origin) {
            n = n + 1;
        } else {
            kept.push(item);
        }
    }
    assert(all.take(all.len() as int) =~= all);
    (kept, n)
}

proof fn lemma_first_with_key_unique(entries: Seq<(String, JsonValue)>, key: Seq<char>, i: int, c: int)
    requires
        first_with_key(entries, key, i),
        first_with_key(entries, key, c),
    ensures
        i == c,
{
    if c < i {
        assert(entries[c].0@ == key);
    } else if i < c {
        assert(entries[i].0@ == key);
    }
}

/// The position of the `logins` member among an object's entries.
fn logins_index(entries: &Vec<(String, JsonValue)>) -> (r: Option<usize>)
    ensures
        match r {
            Some(i) => first_with_key(entries@, "logins"@, i as int),
            None => forall|i: int| !first_with_key(entries@, "logins"@, i),
        },
{
    let mut i: usize = 0;
    while i < entries.len()
        invariant
            i <= entries@.len(),
            forall|k: int| 0 <= k < i ==> entries@[k].0@ != "logins"@,
        decreases entries@.len() - i,
    {
        if same_text(entries[i].0.as_str(), "logins") {
            return Some(i);
        }
        i = i + 1;
    }
    None
}

/// `after` is the document `before` with every entry of its `logins` array
/// that is for the site `origin` dropped, and nothing else changed.
pub open spec fn logins_removed(before: JsonValue, after: JsonValue, origin: Seq<char>) -> bool {
    match before {
        JsonValue::Object(b) => match after {
            JsonValue::Object(a) => exists|i: int|
                #![trigger first_with_key(b@, "logins"@, i)]
                first_with_key(b@, "logins"@, i) && a@.len() == b@.len() && (forall|j: int|
                    0 <= j < b@.len() && j != i ==> a@[j] == b@[j]) && a@[i].0 == b@[i].0 && (match b@[i].1 {
                    JsonValue::Array(x) => match a@[i].1 {
                        JsonValue::Array(y) => y@ == x@.filter(other_origin_pred(origin)),
                        _ => false,
                    },
                    _ => false,
                }),
            _ => false,
        },
        _ => false,
    }
}

/// The document without the entries of its `logins` array that are for the
/// site `origin`, and how many went; the document as it is, and zero, when
/// it has no such array.
fn without_origin_logins(doc: JsonValue, origin: &str) -> (r: (JsonValue, usize))
    ensures
        match login_entries(doc) {
            Some(items) => logins_removed(doc, r.0, origin@) && r.1 == items.filter(
                has_origin_pred(origin@),
            ).len(),
            None => r.0 == doc && r.1 == 0,
        },
{
    let ghost d = doc;
    match doc {
        JsonValue::Object(entries) => {
            let mut entries = entries;
            let ghost b = entries@;
            assert(d == JsonValue::Object(entries));
            match logins_index(&entries) {
                Some(i) => {
                    proof {
                        let c = choose|c: int| first_with_key(b, "logins"@, c);
                        lemma_first_with_key_unique(b, "logins"@, i as int, c);
                        assert(member(d, "logins"@) == Some(b[i as int].1));
                    }
                    let is_array = match &entries[i].1 {
                        JsonValue::Array(_) => true,
                        _ => false,
                    };
                    if !is_array {
                        return (JsonValue::Object(entries), 0);
                    }
                    let (key, value) = entries.remove(i);
                    match value {
                        JsonValue::Array(items) => {
                            let ghost x = items;
                            let (kept, n) = keep_other_origins(items, origin);
                            let ghost rest = entries@;
                            entries.insert(i, (key, JsonValue::Array(kept)));
                            proof {
                                assert(entries@ == rest.insert(i as int, entries@[i as int]));
                                assert forall|j: int| 0 <= j < b.len() && j != i implies entries@[j]
                                    == b[j] by {
                                    if j < i {
                                        assert(rest[j] == b[j]);
                                    } else {
                                        assert(rest[j - 1] == b[j]);
                                    }
                                }
                                assert(first_with_key(b, "logins"@, i as int));
                            }
                            (JsonValue::Object(entries), n)
                        },
                        _ => {
                            assert(false);
                            (JsonValue::Null, 0)
                        },
                    }
                },
                None => {
                    proof {
                        assert(!exists|c: int| first_with_key(b, "logins"@, c));
                    }
                    (JsonValue::Object(entries), 0)
                },
            }
        },
        other => (other, 0),
    }
}

// ---------------------------------------------------------------------------
// Reading and writing logins.json
// ---------------------------------------------------------------------------

/// A JSON value as `serde_json` holds it.
#[verifier::external_type_specification]
#[verifier::external_body]
pub struct ExJsonDocument(serde_json::Value);

/// What `serde_json::from_str` gives for a text, read into a `JsonValue`:
/// the document when the text is valid JSON, else the error's message.
pub uninterp spec fn json_document(text: Seq<char>) -> Result<JsonValue, Seq<char>>;

/// What `serde_json::to_string` gives for a document: its JSON text, or the
/// error's message (also when a number's text is not one that `serde_json`
/// reads as a number).
pub uninterp spec fn json_text(doc: JsonValue) -> Result<Seq<char>, Seq<char>>;

/// Turns `serde_json`'s value into a `JsonValue`, one for one: a number is
/// held as what `Number::as_i64` gives and as its text, an object's members
/// in the order its map gives them.
#[verifier::external_body]
fn json_model(v: &serde_json::Value) -> JsonValue {
    match v {
        serde_json::Value::Null => JsonValue::Null,
        serde_json::Value::Bool(b) => JsonValue::Bool(*b),
        serde_json::Value::Number(n) => JsonValue::Number(n.as_i64(), n.to_string()),
        serde_json::Value::String(t) => JsonValue::Text(t.clone()),
        serde_json::Value::Array(items) => JsonValue::Array(items.iter().map(json_model).collect()),
        serde_json::Value::Object(map) => JsonValue::Object(
            map.iter().map(|(k, x)| (k.clone(), json_model(x))).collect(),
        ),
    }
}

/// Turns a `JsonValue` back into `serde_json`'s value, one for one: a number
/// from its text (the error's message when that is not a number).
#[verifier::external_body]
fn serde_value(v: &JsonValue) -> Result<serde_json::Value, String> {
    match v {
        JsonValue::Null => Ok(serde_json::Value::Null),
        JsonValue::Bool(b) => Ok(serde_json::Value::Bool(*b)),
        JsonValue::Number(_, t) => serde_number(t),
        JsonValue::Text(t) => Ok(serde_json::Value::String(t.clone())),
        JsonValue::Array(items) => serde_array(items),
        JsonValue::Object(entries) => serde_object(entries),
    }
}

/// Reads a number's text as `serde_json`'s number (`Number::from_str`).
#[verifier::external_body]
fn serde_number(t: &String) -> Result<serde_json::Value, String> {
    t.parse::<serde_json::Number>().map(serde_json::Value::Number).map_err(|e| e.to_string())
}

/// Turns the items of an array back into `serde_json`'s array, in order.
#[verifier::external_body]
fn serde_array(items: &Vec<JsonValue>) -> Result<serde_json::Value, String> {
    items.iter().map(serde_value).collect::<Result<Vec<_>, String>>().map(serde_json::Value::Array)
}

/// Turns the members of an object back into `serde_json`'s object.
#[verifier::external_body]
fn serde_object(entries: &Vec<(String, JsonValue)>) -> Result<serde_json::Value, String> {
    entries
        .iter()
        .map(|(k, x)| serde_value(x).map(|y| (k.clone(), y)))
        .collect::<Result<serde_json::Map<String, serde_json::Value>, String>>()
        .map(serde_json::Value::Object)
}

/// Calls `serde_json::from_str` on the text and reads the value it gives
/// into a `JsonValue`; the error's message when the text is not valid JSON.
#[verifier::external_body]
fn parse_json_document(text: &str) -> (r: Result<JsonValue, String>)
    ensures
        match r {
            Ok(doc) => json_document(text@) == Ok::<JsonValue, Seq<char>>(doc),
            Err(m) => json_document(text@) == Err::<JsonValue, Seq<char>>(m@),
        },
{
    match serde_json::from_str::<serde_json::Value>(text) {
        Ok(v) => Ok(json_model(&v)),
        Err(e) => Err(e.to_string()),
    }
}

/// Calls `serde_json::to_string` on the document, turned back into
/// `serde_json`'s value.
#[verifier::external_body]
fn write_json_document(doc: &JsonValue) -> (r: Result<String, String>)
    ensures
        match r {
            Ok(t) => json_text(*doc) == Ok::<Seq<char>, Seq<char>>(t@),
            Err(m) => json_text(*doc) == Err::<Seq<char>, Seq<char>>(m@),
        },
{
    match serde_value(doc) {
        Ok(v) => serde_json::to_string(&v).map_err(|e| e.to_string()),
        Err(m) => Err(m),
    }
}

/// The saved logins that the text of Firefox's `logins.json` lists (see
/// `saved_logins_from_json`); none when it is not valid JSON.
pub fn saved_logins_from_json_text(text: &str) -> (out: Vec<SavedLogin>)
    ensures
        match json_document(text@) {
            Ok(doc) => match login_entries(doc) {
                Some(items) => logins_view(out@) == items.map_values(|e: JsonValue| login_of_entry(e)),
                None => out@.len() == 0,
            },
            Err(_) => out@.len() == 0,
        },
{
    match parse_json_document(text) {
        Ok(doc) => saved_logins_from_json(&doc),
        Err(_) => Vec::new(),
    }
}

/// `r` is what deleting the saved passwords of the site `origin` from the
/// text of `logins.json` gives: the error when the text is not valid JSON;
/// the text as it is and zero when its document has no `logins` array or no
/// entry for the site; otherwise the text of the document without those
/// entries (or the error of writing it) and how many went.
pub open spec fn logins_text_without(text: Seq<char>, origin: Seq<char>, r: Result<(String, usize), String>) -> bool {
    match json_document(text) {
        Err(m) => r matches Err(e) && e@ == m,
        Ok(doc) => match login_entries(doc) {
            None => r matches Ok((t, n)) && t@ == text && n == 0,
            Some(items) => {
                let n = items.filter(has_origin_pred(origin)).len();
                if n == 0 {
                    r matches Ok((t, k)) && t@ == text && k == 0
                } else {
                    exists|after: JsonValue|
                        #![trigger json_text(after)]
                        logins_removed(doc, after, origin) && match json_text(after) {
                            Ok(s) => r matches Ok((t, k)) && t@ == s && k == n,
                            Err(m) => r matches Err(e) && e@ == m,
                        }
                }
            },
        },
    }
}

/// Deletes the saved passwords of the site `origin` from the text of
/// Firefox's `logins.json`: the new text and how many entries went (see
/// `logins_text_without`). The text is to be written back only when some
/// entry went.
pub fn firefox_logins_text_without(text: &str, origin: &str) -> (r: Result<(String, usize), String>)
    ensures
        logins_text_without(text@, origin@, r),
{
    let doc = match parse_json_document(text) {
        Ok(doc) => doc,
        Err(m) => return Err(m),
    };
    let ghost d = doc;
    let (after, n) = without_origin_logins(doc, origin);
    if n == 0 {
        return Ok((String::from_str(text), 0));
    }
    let ghost a = after;
    match write_json_document(&after) {
        Ok(t) => {
            let r: Result<(String, usize), String> = Ok((t, n));
            assert(logins_removed(d, a, origin@));
            r
        },
        Err(m) => Err(m),
    }
}

} // verus!
