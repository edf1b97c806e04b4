# aletheia

Shows which sites the local user's browsers keep them logged into, which hold
saved passwords, and how much each profile caches, and cleans any of it up on
request. It reads only the current user's own profiles and never reads,
decrypts or returns cookie values or passwords.

## Layout

- `src/` is the library, verified with Verus:
  - `text.rs`: ordering, substring search, trimming and lower-casing of text;
  - `heuristics.rs`: session hints, known login cookies, tracker domains, and
    the registrable domain of a host;
  - `cookies.rs`: from the rows of a cookie database to one report per
    registrable domain (grouping, scoring, sorting);
  - `logins.rs`: saved logins from Chromium's login table and from the text
    of Firefox's `logins.json` (read and written with `serde_json`), and the
    text that deleting a site's saved passwords leaves;
  - `profiles.rs`: browser locations per platform, cache-directory candidates,
    the `profiles.ini` reader, where a Firefox installation's profiles are,
    which candidate place is taken, and the order in which directory entries
    are visited;
  - `browser.rs`: whether a browser is running, from a process listing;
  - `cleanup.rs`: which cookie rows a deletion reaches, the deletions
    themselves, and the guard in front of clearing a cache (including whether
    a path stays inside the home directory);
  - `report.rs`: the per-profile report and the whole scan;
  - `sqlite.rs`: the calls into SQLite and `std::path`, with what they promise
    and the statements they may be handed;
  - `stores.rs`: the cookie and login databases opened for writing, which
    only the right file of a profile gives, the statements run on them, and
    a record of the deletions made through each;
  - `laws.rs`: properties of the audit as a whole, proved.
- `app/` is the program around it: finding profiles on disk, copying locked
  databases, sizing and emptying caches, reading `/proc`, and printing JSON.
- `tests/` runs the library on concrete values.
