# TurnMender

TurnMender watches the local task records of the Codex desktop app. When a
turn stops because the selected model is at capacity and produced no final
answer, it continues the task: it resumes a paused goal, or sends the
continuation message to the original task over the desktop app's local
channel. Everything else is left alone, and anything uncertain is left to the
user.

## Layout

- `src/` is the library, verified with Verus. Every decision lives here, with
  its contract:
  - `text`, `json`, `clock`, `keyed`: characters, JSON values, times in
    microseconds, and small association lists, with their models.
  - `classifier`: which failures are capacity failures, and which of those
    may be continued.
  - `policy`: handled failures and each task's consecutive automatic
    continuations.
  - `state`: what is shown of each task.
  - `events`, `ingest`, `watcher`: reading record lines into events, and what
    each event does to the watcher's state.
  - `transport`: the messages exchanged with the desktop app, their frames,
    and what a reply means.
  - `service`: the continuation workflow, step by step, with its log lines.
  - `tray`: the tray's colour, status line, menu and links.
- `app/` runs the library: it reads the record files, talks to the channel,
  stores settings and state, writes the log, and drives the workflow in a
  background thread. Its console shows the tray menu and takes its commands.
- `tests/` exercises the library on concrete values.
