# dsh_mobile

The logic of DSH Mobile, verified with Verus: the pairing link and key, the WebSocket
channel of the desktop daemon and the relay, the pairing service's routes and pages, the
supervision of the embedded node server, payload extraction, and the package tooling
(Debian `ar`/xz/tar members, the `Packages` index, ELF dynamic sections and run paths,
the choice of which libraries to ship, the app tree's stubs and its `link()` to `rename()`
patches), the APK build plan (tools, paths and command lines) and the artifact listing.

- `src/` is the verified library. Each module states its behaviour in `requires`/`ensures`
  over spec functions; the `law_*` proof functions state properties that span several
  calls (round trips of links, keys and frames, the relay's pairing of two ends, the
  supervisor's generations and restart budget, reading run paths back after rewriting
  them, the masking of every frame a client sends, one shipped copy per library).
- `tests/` runs the library on concrete values.
- `app/` holds the programs around it (`relay`, `desktop`, `tool` subcommands and the
  Android JNI functions): sockets, files, processes, threads and JSON.
