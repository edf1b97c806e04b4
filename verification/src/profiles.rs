//! Where browsers keep their profiles: the known locations per platform,
//! what marks a profile directory, and Firefox's `profiles.ini`.
use vstd::prelude::*;

use crate::model::texts;
use crate::text::{
    chars_of, compare_text, contains_text, lemma_lex_asymmetric, lemma_lex_total,
    lemma_lex_transitive, lex_lt, same_text, trim, trimmed, without_leading_dots, TextOrder,
};

verus! {

/// The platform the audit runs on: one of the desktop platforms whose
/// browser locations it knows, or another one, where it knows none.
#[derive(Clone, Copy, Debug, PartialEq, Eq, Structural)]
pub enum Platform {
    Linux,
    MacOs,
    Windows,
    Other,
}

/// The Chromium-family browsers and where their configuration lives,
/// relative to the platform's base directory: `~/.config` on Linux,
/// `~/Library/Application Support` on macOS, the local application data
/// directory on Windows.
pub open spec fn chromium_locations(p: Platform) -> Seq<(&'static str, &'static str)> {
    match p {
        Platform::Linux => seq![
            ("Brave", "BraveSoftware/Brave-Browser"),
            ("Chrome", "google-chrome"),
            ("Chromium", "chromium"),
            ("Vivaldi", "vivaldi"),
            ("Edge", "microsoft-edge"),
        ],
        Platform::MacOs => seq![
            ("Brave", "BraveSoftware/Brave-Browser"),
            ("Chrome", "Google/Chrome"),
            ("Chromium", "Chromium"),
            ("Edge", "Microsoft Edge"),
        ],
        Platform::Windows => seq![
            ("Brave", "BraveSoftware/Brave-Browser/User Data"),
            ("Chrome", "Google/Chrome/User Data"),
            ("Chromium", "Chromium/User Data"),
            ("Edge", "Microsoft Edge/User Data"),
        ],
        Platform::Other => seq![],
    }
}

/// The Firefox-family browsers and where their profiles live, relative to
/// the home directory on Linux, to `~/Library/Application Support` on
/// macOS, and to the roaming application data directory on Windows.
pub open spec fn firefox_locations(p: Platform) -> Seq<(&'static str, &'static str)> {
    match p {
        Platform::Linux => seq![("Firefox", ".mozilla/firefox"), ("LibreWolf", ".librewolf")],
        Platform::MacOs => seq![("Firefox", "Firefox"), ("LibreWolf", "LibreWolf")],
        Platform::Windows => seq![("Firefox", "Mozilla/Firefox"), ("LibreWolf", "librewolf")],
        Platform::Other => seq![],
    }
}

/// The Chromium-family browsers of the platform, each with the place of its
/// configuration relative to the platform's base directory.
pub fn chromium_browser_dirs(p: Platform) -> (v: Vec<(&'static str, &'static str)>)
    ensures
        v@ == chromium_locations(p),
{
    match p {
        Platform::Linux => vec![
            ("Brave", "BraveSoftware/Brave-Browser"),
            ("Chrome", "google-chrome"),
            ("Chromium", "chromium"),
            ("Vivaldi", "vivaldi"),
            ("Edge", "microsoft-edge"),
        ],
        Platform::MacOs => vec![
            ("Brave", "BraveSoftware/Brave-Browser"),
            ("Chrome", "Google/Chrome"),
            ("Chromium", "Chromium"),
            ("Edge", "Microsoft Edge"),
        ],
        Platform::Windows => vec![
            ("Brave", "BraveSoftware/Brave-Browser/User Data"),
            ("Chrome", "Google/Chrome/User Data"),
            ("Chromium", "Chromium/User Data"),
            ("Edge", "Microsoft Edge/User Data"),
        ],
        Platform::Other => vec![],
    }
}

/// The Firefox-family browsers of the platform, each with the place of its
/// profiles relative to the platform's base directory.
pub fn firefox_browser_dirs(p: Platform) -> (v: Vec<(&'static str, &'static str)>)
    ensures
        v@ == firefox_locations(p),
{
    match p {
        Platform::Linux => vec![("Firefox", ".mozilla/firefox"), ("LibreWolf", ".librewolf")],
        Platform::MacOs => vec![("Firefox", "Firefox"), ("LibreWolf", "LibreWolf")],
        Platform::Windows => vec![("Firefox", "Mozilla/Firefox"), ("LibreWolf", "librewolf")],
        Platform::Other => vec![],
    }
}

/// A directory inside a Chromium configuration is a profile when it holds a
/// `Preferences` or a `Cookies` file.
pub fn is_chromium_profile_dir(is_dir: bool, has_preferences: bool, has_cookies: bool) -> (r: bool)
    ensures
        r == (is_dir && (has_preferences || has_cookies)),
{
    is_dir && (has_preferences || has_cookies)
}

/// Without `profiles.ini`, a directory whose name holds a dot is taken for a
/// Firefox profile (profile directories are named `<salt>.<name>`).
pub fn looks_like_firefox_profile(name: &str) -> (r: bool)
    ensures
        r == contains_text(name@, "."@),
{
    crate::text::text_contains(name, ".")
}

// ---------------------------------------------------------------------------
// Cache directories
// ---------------------------------------------------------------------------
// A path is held as the sequence of its components, each as text.

/// `path` without its leading components `prefix`, when it starts with them.
pub open spec fn strip_components(path: Seq<Seq<char>>, prefix: Seq<Seq<char>>) -> Option<
    Seq<Seq<char>>,
> {
    if prefix.len() <= path.len() && path.subrange(0, prefix.len() as int) == prefix {
        Some(path.skip(prefix.len() as int))
    } else {
        None
    }
}

fn copy_components(v: &Vec<String>, from: usize) -> (out: Vec<String>)
    requires
        from <= v@.len(),
    ensures
        texts(out@) == texts(v@).skip(from as int),
{
    let mut out: Vec<String> = Vec::new();
    let mut i = from;
    while i < v.len()
        invariant
            from <= i <= v@.len(),
            texts(out@) == texts(v@).subrange(from as int, i as int),
        decreases v@.len() - i,
    {
        let ghost o = out@;
        out.push(v[i].clone());
        assert(texts(out@) =~= texts(o).push(v@[i as int]@));
        assert(texts(v@).subrange(from as int, i + 1) =~= texts(v@).subrange(from as int, i as int).push(v@[i as int]@));
        i = i + 1;
    }
    assert(texts(v@).subrange(from as int, v@.len() as int) =~= texts(v@).skip(from as int));
    out
}

fn append_components(a: &mut Vec<String>, b: &Vec<String>)
    ensures
        texts(final(a)@) == texts(old(a)@) + texts(b@),
{
    let ghost a0 = texts(a@);
    let mut i: usize = 0;
    while i < b.len()
        invariant
            i <= b@.len(),
            texts(a@) == a0 + texts(b@).subrange(0, i as int),
        decreases b@.len() - i,
    {
        let ghost o = texts(a@);
        a.push(b[i].clone());
        assert(texts(a@) =~= o.push(b@[i as int]@));
        assert(texts(b@).subrange(0, i + 1) =~= texts(b@).subrange(0, i as int).push(b@[i as int]@));
        i = i + 1;
    }
    assert(texts(b@).subrange(0, b@.len() as int) =~= texts(b@));
}

fn push_text(a: &mut Vec<String>, t: &str)
    ensures
        texts(final(a)@) == texts(old(a)@).push(t@),
{
    let ghost o = texts(a@);
    a.push(String::from_str(t));
    assert(texts(a@) =~= o.push(t@));
}

/// `path` without the leading components `prefix`, if it starts with them.
pub fn strip_path_prefix(path: &Vec<String>, prefix: &Vec<String>) -> (r: Option<Vec<String>>)
    ensures
        match r {
            Some(rest) => strip_components(texts(path@), texts(prefix@)) == Some(texts(rest@)),
            None => strip_components(texts(path@), texts(prefix@)) is None,
        },
{
    if prefix.len() > path.len() {
        return None;
    }
    let mut i: usize = 0;
    while i < prefix.len()
        invariant
            prefix@.len() <= path@.len(),
            i <= prefix@.len(),
            forall|j: int| 0 <= j < i ==> path@[j]@ == prefix@[j]@,
        decreases prefix@.len() - i,
    {
        if !same_text(path[i].as_str(), prefix[i].as_str()) {
            assert(texts(path@).subrange(0, prefix@.len() as int)[i as int] != texts(prefix@)[i as int]);
            return None;
        }
        i = i + 1;
    }
    assert(texts(path@).subrange(0, prefix@.len() as int) =~= texts(prefix@));
    Some(copy_components(path, prefix.len()))
}

/// The places where a Chromium profile's cache may be, best first: on Linux,
/// the same place under `~/.cache` as the configuration has under
/// `~/.config`; then `Cache` inside the profile's directory.
pub open spec fn chromium_cache_places(
    p: Platform,
    home: Seq<Seq<char>>,
    root: Seq<Seq<char>>,
    profile: Seq<char>,
) -> Seq<Seq<Seq<char>>> {
    let local = seq![root + seq![profile, "Cache"@]];
    if p == Platform::Linux {
        match strip_components(root, home.push(".config"@)) {
            Some(rel) => seq![home.push(".cache"@) + rel + seq![profile, "Cache"@]] + local,
            None => local,
        }
    } else {
        local
    }
}

/// The places where a Chromium profile's cache may be, best first (see
/// `chromium_cache_places`); the first that exists is the cache.
pub fn chromium_cache_candidates(
    p: Platform,
    home: &Vec<String>,
    root: &Vec<String>,
    profile: &str,
) -> (out: Vec<Vec<String>>)
    ensures
        out@.map_values(|c: Vec<String>| texts(c@)) == chromium_cache_places(
            p,
            texts(home@),
            texts(root@),
            profile@,
        ),
{
    let mut out: Vec<Vec<String>> = Vec::new();
    if p == Platform::Linux {
        let mut config = copy_components(home, 0);
        push_text(&mut config, ".config");
        assert(texts(home@).skip(0) =~= texts(home@));
        match strip_path_prefix(root, &config) {
            Some(rel) => {
                let mut c = copy_components(home, 0);
                push_text(&mut c, ".cache");
                append_components(&mut c, &rel);
                push_text(&mut c, profile);
                push_text(&mut c, "Cache");
                assert(texts(c@) =~= texts(home@).push(".cache"@) + texts(rel@) + seq![profile@, "Cache"@]);
                out.push(c);
            },
            None => {},
        }
    }
    let mut c = copy_components(root, 0);
    push_text(&mut c, profile);
    push_text(&mut c, "Cache");
    assert(texts(root@).skip(0) =~= texts(root@));
    assert(texts(c@) =~= texts(root@) + seq![profile@, "Cache"@]);
    let ghost o = out@;
    out.push(c);
    assert(out@.map_values(|c: Vec<String>| texts(c@)) =~= o.map_values(|c: Vec<String>| texts(c@)).push(texts(c@)));
    out
}

/// The components of a relative path with their leading dots dropped, as a
/// cache directory names them (`.mozilla/firefox` becomes `mozilla/firefox`).
pub open spec fn undotted(comps: Seq<Seq<char>>) -> Seq<Seq<char>> {
    comps.map_values(|c: Seq<char>| without_leading_dots(c))
}

/// The places where a Firefox profile's cache may be, best first. On Linux,
/// when the profile has a name and its root lies under home, under
/// `~/.cache` at the root's place with leading dots dropped, then directly
/// under `~/.cache` at the root's last component; on Windows, the same place
/// under the local data directory as the profile has under the roaming one;
/// then `cache2` inside the profile's directory. On Linux a profile directory
/// without a name has no cache.
pub open spec fn firefox_cache_places(
    p: Platform,
    home: Seq<Seq<char>>,
    roaming: Option<Seq<Seq<char>>>,
    local: Option<Seq<Seq<char>>>,
    root: Seq<Seq<char>>,
    profile_dir: Seq<Seq<char>>,
    profile_name: Option<Seq<char>>,
) -> Seq<Seq<Seq<char>>> {
    let own = seq![profile_dir.push("cache2"@)];
    if p == Platform::Linux {
        match profile_name {
            None => Seq::empty(),
            Some(name) => match strip_components(root, home) {
                Some(rel) if rel.len() > 0 => {
                    let comps = undotted(rel);
                    seq![
                        home.push(".cache"@) + comps + seq![name, "cache2"@],
                        home.push(".cache"@).push(comps.last()) + seq![name, "cache2"@],
                    ] + own
                },
                _ => own,
            },
        }
    } else if p == Platform::Windows {
        match (roaming, local) {
            (Some(r), Some(l)) => match strip_components(profile_dir, r) {
                Some(rel) => seq![(l + rel).push("cache2"@)] + own,
                None => own,
            },
            _ => own,
        }
    } else {
        own
    }
}

fn undot_components(v: &Vec<String>) -> (out: Vec<String>)
    ensures
        texts(out@) == undotted(texts(v@)),
{
    let mut out: Vec<String> = Vec::new();
    let mut i: usize = 0;
    while i < v.len()
        invariant
            i <= v@.len(),
            texts(out@) == undotted(texts(v@).subrange(0, i as int)),
        decreases v@.len() - i,
    {
        let ghost o = texts(out@);
        push_text(&mut out, crate::text::strip_leading_dots(v[i].as_str()));
        assert(undotted(texts(v@).subrange(0, i + 1)) =~= undotted(texts(v@).subrange(0, i as int)).push(
            without_leading_dots(v@[i as int]@),
        ));
        i = i + 1;
    }
    assert(texts(v@).subrange(0, v@.len() as int) =~= texts(v@));
    out
}

/// The places where a Firefox profile's cache may be, best first (see
/// `firefox_cache_places`); the first that exists is the cache.
pub fn firefox_cache_candidates(
    p: Platform,
    home: &Vec<String>,
    roaming: Option<&Vec<String>>,
    local: Option<&Vec<String>>,
    root: &Vec<String>,
    profile_dir: &Vec<String>,
    profile_name: Option<&str>,
) -> (out: Vec<Vec<String>>)
    ensures
        out@.map_values(|c: Vec<String>| texts(c@)) == firefox_cache_places(
            p,
            texts(home@),
            match roaming {
                Some(r) => Some(texts(r@)),
                None => None,
            },
            match local {
                Some(l) => Some(texts(l@)),
                None => None,
            },
            texts(root@),
            texts(profile_dir@),
            match profile_name {
                Some(n) => Some(n@),
                None => None,
            },
        ),
{
    let ghost view = |c: Vec<String>| texts(c@);
    let mut out: Vec<Vec<String>> = Vec::new();
    assert(texts(home@).skip(0) =~= texts(home@));
    assert(texts(profile_dir@).skip(0) =~= texts(profile_dir@));
    if p == Platform::Linux {
        let name = match profile_name {
            Some(n) => n,
            None => {
                assert(out@.map_values(view) =~= Seq::<Seq<Seq<char>>>::empty());
                return out;
            },
        };
        match strip_path_prefix(root, home) {
            Some(rel) => {
                if rel.len() > 0 {
                    let comps = undot_components(&rel);
                    let mut first = copy_components(home, 0);
                    push_text(&mut first, ".cache");
                    append_components(&mut first, &comps);
                    push_text(&mut first, name);
                    push_text(&mut first, "cache2");
                    let mut second = copy_components(home, 0);
                    push_text(&mut second, ".cache");
                    push_text(&mut second, comps[comps.len() - 1].as_str());
                    push_text(&mut second, name);
                    push_text(&mut second, "cache2");
                    assert(texts(comps@).last() == texts(comps@)[comps@.len() - 1]);
                    assert(texts(first@) =~= texts(home@).push(".cache"@) + texts(comps@) + seq![name@, "cache2"@]);
                    assert(texts(second@) =~= texts(home@).push(".cache"@).push(texts(comps@).last()) + seq![name@, "cache2"@]);
                    out.push(first);
                    out.push(second);
                }
            },
            None => {},
        }
    } else if p == Platform::Windows {
        match (roaming, local) {
            (Some(r), Some(l)) => match strip_path_prefix(profile_dir, r) {
                Some(rel) => {
                    let mut c = copy_components(l, 0);
                    append_components(&mut c, &rel);
                    push_text(&mut c, "cache2");
                    assert(texts(l@).skip(0) =~= texts(l@));
                    assert(texts(c@) =~= (texts(l@) + texts(rel@)).push("cache2"@));
                    out.push(c);
                },
                None => {},
            },
            _ => {},
        }
    }
    let ghost before = out@;
    let mut own = copy_components(profile_dir, 0);
    push_text(&mut own, "cache2");
    out.push(own);
    assert(out@.map_values(view) =~= before.map_values(view).push(texts(profile_dir@).push("cache2"@)));
    proof {
        if p == Platform::Linux {
            assert(before.len() == 0 || before.len() == 2);
        }
    }
    out
}

// ---------------------------------------------------------------------------
// profiles.ini
// ---------------------------------------------------------------------------

/// A profile that `profiles.ini` lists: its path, and whether that path is
/// relative to the directory that holds `profiles.ini`.
#[derive(Debug)]
pub struct IniProfile {
    pub path: String,
    pub is_relative: bool,
}

/// Position of the first line break in `s` at or after `k`, or -1.
pub open spec fn newline_from(s: Seq<char>, k: int) -> int
    decreases s.len() - k,
{
    if k < 0 || k >= s.len() {
        -1
    } else if s[k] == '\n' {
        k
    } else {
        newline_from(s, k + 1)
    }
}

/// The pieces of `s` between line breaks, in order (a text without a line
/// break is one piece).
pub open spec fn split_lines(s: Seq<char>) -> Seq<Seq<char>>
    decreases s.len(),
{
    let i = newline_from(s, 0);
    if i < 0 || i >= s.len() {
        seq![s]
    } else {
        seq![s.subrange(0, i)] + split_lines(s.subrange(i + 1, s.len() as int))
    }
}

/// `t` starts with `p`.
pub open spec fn starts_with(t: Seq<char>, p: Seq<char>) -> bool {
    t.len() >= p.len() && t.subrange(0, p.len() as int) == p
}

/// What the reader has gathered so far: the finished entries, and the path
/// and relative flag of the section being read.
pub struct IniState {
    pub entries: Seq<(Seq<char>, bool)>,
    pub path: Option<Seq<char>>,
    pub relative: bool,
}

pub open spec fn ini_start() -> IniState {
    IniState { entries: Seq::empty(), path: None, relative: true }
}

/// The entries once the current section is closed: a section with a path
/// adds one entry.
pub open spec fn close_section(st: IniState) -> Seq<(Seq<char>, bool)> {
    match st.path {
        Some(p) => st.entries.push((p, st.relative)),
        None => st.entries,
    }
}

/// Reads one line. Lines are trimmed; a line that starts with `[` opens a
/// new section; `Path=` gives the section's path (trimmed) and
/// `IsRelative=` its flag, which is false only for `0`; other lines do
/// nothing. A later line of either kind overrides an earlier one.
pub open spec fn ini_step(st: IniState, line: Seq<char>) -> IniState {
    let t = trimmed(line);
    if t.len() > 0 && t[0] == '[' {
        IniState { entries: close_section(st), path: None, relative: true }
    } else if starts_with(t, "Path="@) {
        IniState { path: Some(trimmed(t.skip("Path="@.len() as int))), ..st }
    } else if starts_with(t, "IsRelative="@) {
        IniState { relative: trimmed(t.skip("IsRelative="@.len() as int)) != "0"@, ..st }
    } else {
        st
    }
}

/// Reads the lines in order from state `st`.
pub open spec fn ini_feed(st: IniState, lines: Seq<Seq<char>>) -> IniState
    decreases lines.len(),
{
    if lines.len() == 0 {
        st
    } else {
        ini_feed(ini_step(st, lines[0]), lines.drop_first())
    }
}

/// The profiles that a `profiles.ini` text lists, in order.
pub open spec fn ini_profiles(text: Seq<char>) -> Seq<(Seq<char>, bool)> {
    close_section(ini_feed(ini_start(), split_lines(text)))
}

pub open spec fn ini_view(v: Seq<IniProfile>) -> Seq<(Seq<char>, bool)> {
    v.map_values(|e: IniProfile| (e.path@, e.is_relative))
}

proof fn lemma_newline_found(s: Seq<char>, k: int, i: int)
    requires
        0 <= k <= i < s.len(),
        s[i] == '\n',
        forall|j: int| k <= j < i ==> s[j] != '\n',
    ensures
        newline_from(s, k) == i,
    decreases i - k,
{
    if k < i {
        lemma_newline_found(s, k + 1, i);
    }
}

proof fn lemma_newline_none(s: Seq<char>, k: int)
    requires
        0 <= k,
        forall|j: int| k <= j < s.len() ==> s[j] != '\n',
    ensures
        newline_from(s, k) == -1,
    decreases s.len() - k,
{
    if k < s.len() {
        lemma_newline_none(s, k + 1);
    }
}

proof fn lemma_feed_front(st: IniState, line: Seq<char>, rest: Seq<Seq<char>>)
    ensures
        ini_feed(st, seq![line] + rest) == ini_feed(ini_step(st, line), rest),
{
    let l = seq![line] + rest;
    assert(l[0] == line);
    assert(l.drop_first() =~= rest);
}

/// The state of the reader, held in executable values.
struct IniReader {
    entries: Vec<IniProfile>,
    path: Option<String>,
    relative: bool,
}

spec fn reader_state(r: IniReader) -> IniState {
    IniState {
        entries: ini_view(r.entries@),
        path: match r.path {
            Some(p) => Some(p@),
            None => None,
        },
        relative: r.relative,
    }
}

fn close_reader_section(r: &mut IniReader)
    ensures
        ini_view(final(r).entries@) == close_section(reader_state(*old(r))),
        final(r).path is None,
{
    let p = r.path.take();
    match p {
        Some(path) => {
            let ghost e0 = ini_view(r.entries@);
            let ghost pv = path@;
            r.entries.push(IniProfile { path, is_relative: r.relative });
            assert(ini_view(r.entries@) =~= e0.push((pv, r.relative)));
        },
        None => {},
    }
}

/// The part of `t` after `prefix`, when `t` starts with it.
fn after_prefix<'a>(t: &'a str, prefix: &str) -> (r: Option<&'a str>)
    ensures
        match r {
            Some(rest) => starts_with(t@, prefix@) && rest@ == t@.skip(prefix@.len() as int),
            None => !starts_with(t@, prefix@),
        },
{
    let tc = chars_of(t);
    let pc = chars_of(prefix);
    if pc.len() > tc.len() {
        return None;
    }
    let mut k: usize = 0;
    while k < pc.len()
        invariant
            pc@ == prefix@,
            tc@ == t@,
            pc@.len() <= tc@.len(),
            k <= pc@.len(),
            forall|j: int| 0 <= j < k ==> tc@[j] == pc@[j],
        decreases pc@.len() - k,
    {
        if tc[k] != pc[k] {
            assert(t@.subrange(0, prefix@.len() as int)[k as int] != prefix@[k as int]);
            return None;
        }
        k = k + 1;
    }
    assert(t@.subrange(0, prefix@.len() as int) =~= prefix@);
    assert(t@.skip(prefix@.len() as int) =~= t@.subrange(pc@.len() as int, tc@.len() as int));
    Some(t.substring_char(pc.len(), tc.len()))
}

fn read_line(r: &mut IniReader, line: &str)
    ensures
        reader_state(*final(r)) == ini_step(reader_state(*old(r)), line@),
{
    let t = trim(line);
    let tc = chars_of(t);
    if tc.len() > 0 && tc[0] == '[' {
        close_reader_section(r);
        r.relative = true;
        return ;
    }
    match after_prefix(t, "Path=") {
        Some(v) => {
            r.path = Some(String::from_str(trim(v)));
            return ;
        },
        None => {},
    }
    match after_prefix(t, "IsRelative=") {
        Some(v) => {
            r.relative = !same_text(trim(v), "0");
        },
        None => {},
    }
}

/// Reads Firefox's `profiles.ini`: one entry for each section that gives a
/// `Path=`, with the section's last path and its `IsRelative=` flag (true
/// unless `0`, and true when absent), in the order of the sections.
pub fn parse_profiles_ini(text: &str) -> (out: Vec<IniProfile>)
    ensures
        ini_view(out@) == ini_profiles(text@),
{
    let c = chars_of(text);
    let n = c.len();
    let mut r = IniReader { entries: Vec::new(), path: None, relative: true };
    assert(ini_view(r.entries@) =~= Seq::<(Seq<char>, bool)>::empty());
    let mut start: usize = 0;
    let mut i: usize = 0;
    assert(c@.subrange(0, n as int) =~= c@);
    while i < n
        invariant
            c@ == text@,
            n == c@.len(),
            start <= i <= n,
            forall|j: int| start <= j < i ==> c@[j] != '\n',
            ini_feed(ini_start(), split_lines(text@)) == ini_feed(
                reader_state(r),
                split_lines(c@.subrange(start as int, n as int)),
            ),
        decreases n - i,
    {
        if c[i] == '\n' {
            let ghost s = c@.subrange(start as int, n as int);
            proof {
                lemma_newline_found(s, 0, i - start);
                assert(s.subrange(0, i - start) =~= c@.subrange(start as int, i as int));
                assert(s.subrange(i - start + 1, s.len() as int) =~= c@.subrange(
                    i + 1,
                    n as int,
                ));
                lemma_feed_front(
                    reader_state(r),
                    c@.subrange(start as int, i as int),
                    split_lines(c@.subrange(i + 1, n as int)),
                );
            }
            let line = text.substring_char(start, i);
            read_line(&mut r, line);
            start = i + 1;
        }
        i = i + 1;
    }
    let ghost s = c@.subrange(start as int, n as int);
    proof {
        lemma_newline_none(s, 0);
        lemma_feed_front(reader_state(r), s, Seq::empty());
        assert(seq![s] + Seq::<Seq<char>>::empty() =~= seq![s]);
    }
    let line = text.substring_char(start, n);
    read_line(&mut r, line);
    close_reader_section(&mut r);
    r.entries
}


// ---------------------------------------------------------------------------
// The order in which a directory's entries are visited
// ---------------------------------------------------------------------------

/// `s` is in ascending order: no text comes after one that it precedes.
pub open spec fn texts_ascending(s: Seq<Seq<char>>) -> bool {
    forall|i: int, j: int| 0 <= i < j < s.len() ==> !lex_lt(s[j], s[i])
}

/// The names in ascending order, each as often as it is given: the order in
/// which the entries of a directory are visited.
pub fn sort_names(names: &Vec<String>) -> (out: Vec<String>)
    ensures
        texts_ascending(texts(out@)),
        texts(out@).to_multiset() == texts(names@).to_multiset(),
{
    let mut out: Vec<String> = Vec::new();
    let mut k: usize = 0;
    assert(texts(names@.take(0)) =~= Seq::<Seq<char>>::empty());
    assert(texts(out@) =~= Seq::<Seq<char>>::empty());
    while k < names.len()
        invariant
            k <= names@.len(),
            texts_ascending(texts(out@)),
            texts(out@).to_multiset() == texts(names@.take(k as int)).to_multiset(),
        decreases names@.len() - k,
    {
        let name = names[k].clone();
        let ghost nv = name@;
        let mut p: usize = 0;
        while p < out.len() && compare_text(out[p].as_str(), name.as_str()) != TextOrder::After
            invariant
                p <= out@.len(),
                name@ == nv,
                forall|q: int| 0 <= q < p ==> !lex_lt(nv, #[trigger] out@[q]@),
            decreases out@.len() - p,
        {
            p = p + 1;
        }
        let ghost before = texts(out@);
        proof {
            if p < out@.len() {
                assert(lex_lt(nv, before[p as int]));
            }
        }
        out.insert(p, name);
        let ghost after = texts(out@);
        assert(after =~= before.insert(p as int, nv));
        proof {
            vstd::seq_lib::to_multiset_insert(before, p as int, nv);
            assert(names@.take(k + 1) =~= names@.take(k as int).push(names@[k as int]));
            assert(texts(names@.take(k + 1)) =~= texts(names@.take(k as int)).push(nv));
            vstd::seq_lib::to_multiset_build(texts(names@.take(k as int)), nv);
            assert forall|i: int, j: int| 0 <= i < j < after.len() implies !lex_lt(after[j], after[i]) by {
                if j < p {
                    assert(after[i] == before[i] && after[j] == before[j]);
                } else if j == p {
                    assert(after[j] == nv && after[i] == before[i]);
                } else if i == p {
                    assert(after[i] == nv && after[j] == before[j - 1]);
                    lemma_lex_total(before[p as int], before[j - 1]);
                    lemma_lex_transitive(nv, before[p as int], before[j - 1]);
                    lemma_lex_asymmetric(nv, before[j - 1]);
                } else if i < p {
                    assert(after[i] == before[i] && after[j] == before[j - 1]);
                } else {
                    assert(after[i] == before[i - 1] && after[j] == before[j - 1]);
                }
            }
        }
        k = k + 1;
    }
    assert(names@.take(names@.len() as int) =~= names@);
    out
}


// ---------------------------------------------------------------------------
// Choosing among candidate places
// ---------------------------------------------------------------------------

/// The first of `places` that is present (`present` holds one flag per
/// place, in order; a place without a flag counts as absent).
pub open spec fn first_present(places: Seq<Seq<Seq<char>>>, present: Seq<bool>) -> Option<
    Seq<Seq<char>>,
>
    decreases places.len(),
{
    if places.len() == 0 {
        None
    } else if present.len() > 0 && present[0] {
        Some(places[0])
    } else {
        first_present(
            places.drop_first(),
            if present.len() > 0 {
                present.drop_first()
            } else {
                present
            },
        )
    }
}

/// The first of the candidate places that is present (see `first_present`):
/// where a cache is, among the places it may be, best first.
pub fn pick_first_present(candidates: Vec<Vec<String>>, present: &Vec<bool>) -> (r: Option<
    Vec<String>,
>)
    ensures
        match r {
            Some(c) => first_present(
                candidates@.map_values(|v: Vec<String>| texts(v@)),
                present@,
            ) == Some(texts(c@)),
            None => first_present(
                candidates@.map_values(|v: Vec<String>| texts(v@)),
                present@,
            ) is None,
        },
{
    let mut places = candidates;
    let ghost all = places@.map_values(|v: Vec<String>| texts(v@));
    assert(all == candidates@.map_values(|v: Vec<String>| texts(v@)));
    let ghost flags = present@;
    let mut i: usize = 0;
    assert(all.skip(0) =~= all);
    assert(flags.skip(0) =~= flags);
    while i < places.len()
        invariant
            i <= places@.len(),
            all == places@.map_values(|v: Vec<String>| texts(v@)),
            all == candidates@.map_values(|v: Vec<String>| texts(v@)),
            flags == present@,
            first_present(all, flags) == first_present(
                all.skip(i as int),
                if i <= flags.len() {
                    flags.skip(i as int)
                } else {
                    Seq::<bool>::empty()
                },
            ),
        decreases places@.len() - i,
    {
        let ghost rest = all.skip(i as int);
        let ghost fl = if i <= flags.len() {
            flags.skip(i as int)
        } else {
            Seq::<bool>::empty()
        };
        assert(rest.len() > 0 && rest[0] == texts(places@[i as int]@));
        assert(rest.drop_first() =~= all.skip(i + 1));
        if i < present.len() && present[i] {
            assert(fl.len() > 0 && fl[0]);
            assert(first_present(rest, fl) == Some(rest[0]));
            let c = places.swap_remove(i);
            assert(texts(c@) == rest[0]);
            assert(first_present(all, flags) == Some(texts(c@)));
            return Some(c);
        }
        proof {
            let next = if i + 1 <= flags.len() {
                flags.skip(i + 1)
            } else {
                Seq::<bool>::empty()
            };
            if i < flags.len() {
                assert(fl[0] == flags[i as int]);
                assert(fl.drop_first() =~= next);
            } else {
                assert(fl.len() == 0);
                assert(next =~= Seq::<bool>::empty());
            }
            assert(!(fl.len() > 0 && fl[0]));
            assert(rest.len() > 0);
            assert((if fl.len() > 0 {
                fl.drop_first()
            } else {
                fl
            }) == next);
            assert(first_present(rest, fl) == first_present(rest.drop_first(), next));
        }
        i = i + 1;
    }
    assert(all.skip(i as int) =~= Seq::<Seq<Seq<char>>>::empty());
    None
}


// ---------------------------------------------------------------------------
// Where a Firefox installation keeps its profiles
// ---------------------------------------------------------------------------

/// An entry of a directory listing: its name, and whether it is a directory.
pub struct ListedEntry {
    pub name: String,
    pub is_dir: bool,
}

pub open spec fn listing_view(v: Seq<ListedEntry>) -> Seq<(Seq<char>, bool)> {
    v.map_values(|e: ListedEntry| (e.name@, e.is_dir))
}

/// A listed entry taken for a profile when `profiles.ini` names none: a
/// directory whose name holds a dot.
pub open spec fn listed_profile(e: (Seq<char>, bool)) -> bool {
    e.1 && contains_text(e.0, "."@)
}

pub open spec fn listed_profile_pred() -> spec_fn((Seq<char>, bool)) -> bool {
    |e: (Seq<char>, bool)| listed_profile(e)
}

/// The profiles of a Firefox installation, each as a path and whether it is
/// relative to the installation's directory: those that its `profiles.ini`
/// (when it could be read) names, when it names any; otherwise each
/// directory of the installation's listing whose name holds a dot.
pub open spec fn firefox_profile_places(ini: Option<Seq<char>>, listing: Seq<(Seq<char>, bool)>) -> Seq<
    (Seq<char>, bool),
> {
    let named = match ini {
        Some(t) => ini_profiles(t),
        None => Seq::empty(),
    };
    if named.len() > 0 {
        named
    } else {
        listing.filter(listed_profile_pred()).map_values(|e: (Seq<char>, bool)| (e.0, true))
    }
}

/// The profiles of a Firefox installation (see `firefox_profile_places`).
pub fn firefox_profile_entries(ini: Option<&str>, listing: &Vec<ListedEntry>) -> (out: Vec<IniProfile>)
    ensures
        ini_view(out@) == firefox_profile_places(
            match ini {
                Some(t) => Some(t@),
                None => None,
            },
            listing_view(listing@),
        ),
{
    let named = match ini {
        Some(t) => parse_profiles_ini(t),
        None => {
            let v: Vec<IniProfile> = Vec::new();
            assert(ini_view(v@) =~= Seq::<(Seq<char>, bool)>::empty());
            v
        },
    };
    if named.len() > 0 {
        return named;
    }
    let ghost all = listing_view(listing@);
    let ghost f = |e: (Seq<char>, bool)| (e.0, true);
    let mut out: Vec<IniProfile> = Vec::new();
    let mut i: usize = 0;
    assert(all.take(0) =~= Seq::<(Seq<char>, bool)>::empty());
    assert(ini_view(out@) =~= all.take(0).filter(listed_profile_pred()).map_values(f)) by {
        all.take(0).lemma_filter_len(listed_profile_pred());
    }
    while i < listing.len()
        invariant
            i <= listing@.len(),
            all == listing_view(listing@),
            f == (|e: (Seq<char>, bool)| (e.0, true)),
            ini_view(out@) == all.take(i as int).filter(listed_profile_pred()).map_values(f),
        decreases listing@.len() - i,
    {
        let e = &listing[i];
        let ghost ev = (e.name@, e.is_dir);
        assert(all[i as int] == ev);
        assert(all.take(i + 1) =~= all.take(i as int).push(ev));
        proof {
            all.take(i as int).lemma_filter_push(ev, listed_profile_pred());
        }
        if e.is_dir && looks_like_firefox_profile(e.name.as_str()) {
            let ghost o = ini_view(out@);
            out.push(IniProfile { path: e.name.clone(), is_relative: true });
            assert(ini_view(out@) =~= o.push((e.name@, true)));
            assert(all.take(i as int).filter(listed_profile_pred()).push(ev).map_values(f)
                =~= all.take(i as int).filter(listed_profile_pred()).map_values(f).push(f(ev)));
        }
        i = i + 1;
    }
    assert(all.take(i as int) =~= all);
    out
}

} // verus!
