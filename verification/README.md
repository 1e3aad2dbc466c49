# flow_agent_core

The core of an agent that runs flows and keeps conversations: what a run does next, what
its log, its history and its status may hold, how interrupted work is recovered, and how
sessions of an older layout are moved over. Everything that is decided is decided in
`src/`, where Verus proves it against contracts over sequences, maps and numbers.

- `src/engine`: the course of a flow, its events, its plan and the signature of it.
- `src/runs`: the log of a run, its attempts, objects, recovery and reservation.
- `src/history`: the index over the entries of a conversation, and its sorted files.
- `src/stream`, `src/session_events.rs`, `src/event_visit.rs`: streams of lines in
  segments, and reading an event log as it grows.
- `src/status`: the status of conversations and the transactions that keep it true.
- `src/lifecycle`: making, recovering and reclaiming conversations and runs.
- `src/migration`: moving sessions of the older layout.
- `src/credentials`, `src/deadlines.rs`: the store of credentials, and how long is waited.
- `app/`: files, networks and outside services around the library.
- `tests/`: the library on concrete values.

Work that alternates with files is a machine: it says what is to be done next, is told
what came of it, and goes on. A function that reads something first takes what was read,
or the error that was met, as an argument.
