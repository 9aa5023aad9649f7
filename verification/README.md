# Linux Soundboard UI core

The rules and state machines behind the Linux Soundboard window, written in
Verus and proved against their contracts.

- `src/` is the verified library:
  - `paged_cache` — the page cache of the virtualised sound list: at most four
    pages and two mebibytes of rows held, two fetches in flight and two pages
    waiting, generations that make stale replies harmless, and the row
    notifications to announce;
  - `sibling_pager`, `folder_tree`, `folders`, `tab_dnd` — the tab list and
    folder tree: paging of folder children, drops between tabs and folders,
    drag payloads;
  - `sound_menu` — what a sound's context menu acts on and shows;
  - `transport`, `scrub`, `format`, `volume` — the transport bar: stepping
    through sounds, Continue mode, the seek bar, the volume entry;
  - `ui_event_bridge`, `window`, `preferences`, `dropped`, `icons`,
    `stylesheet`, `text` — event hand-offs, window shortcuts and hotkey
    capture, the preferences dialog, dropped files, icon fallbacks, the
    stylesheet check, and the character helpers they share.
- `tests/` runs the library on concrete cases.
- `app/` holds what the toolkit does: main-loop hand-offs, drag payload
  encoding, pointer geometry, key conversion and chunked row notifications.
