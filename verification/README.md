# anime_manager

The rules of a desktop anime library: parsing release file names into show, season and
episode; grouping and matching shows against AniList and Kitsu; hunting missing episodes
on Nyaa; planning and undoing renames; the player's launch arguments; and a small DLNA
media server (object ids, DIDL-Lite listings, SOAP replies, byte ranges, SSDP messages and
the remux cache policy). Each function states what it computes in a Verus contract.

Layout:

- `src/` — the verified library. Outside crates (`regex`, `uuid`) and the few std calls
  that vstd does not specify are reached through small wrappers whose contracts name or
  state their results.
- `tests/` — ordinary Rust tests against the compiled library.
- `app/` — the desktop side: SQLite, folder walks, HTTP clients, the mpv/VLC control
  sockets and the DLNA sockets. It performs the I/O and hands plain values to the library.
