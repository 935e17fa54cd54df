# poe_copilot

A Path of Exile campaign-leveling copilot: it reads the game's `Client.txt`
log, tracks the player's progress along a compiled leveling route, keeps
track of pending tasks (open portals, trials, unclaimed rewards), and
composes the overlay the player sees — zone layouts, the next steps, and
build reminders from an imported Path of Building code.

The library in `src/` is written in Verus: its functions carry
`requires`/`ensures` contracts over mathematical models. Where a result
comes from an outside crate (the XML reader, base64, zlib, lossy UTF-8
decoding), the contract names that result and states what the library does
with it; the outside code itself is trusted, not proved. The properties that
span several calls (route progress only moves on an advance, a detour never
changes it, a repeated zone entry changes nothing, the run timer's pauses
keep the elapsed time, chunk boundaries do not change the log lines read,
milestones come sorted and each gem has at most one, the earliest offer of
a gem wins, an act's steps are numbered in order, a bug-report link stays
within its budget, reminders show in town only, …) are proof functions.

- `src/` — the verified library, one module per concern (log line parsing,
  the session tracker, the route language and its compiler, the route
  engine, the task engine, the overlay composer, build import, and the
  small pieces of the desktop shell's logic: settings, journal, diagnostics,
  bug reports, run timer).
- `tests/` — tests of the library.
- `app/` — a command-line program around the library: file I/O, the log
  tailer thread, and JSON reading and writing of the library's types.
