# processguard

A cron-driven, convention-based supervisor for hosts where a resident service manager is
unavailable. One invocation discovers applications, checks all of them concurrently,
rotates their logs, and exits.

The decisions of the guard are a library that Verus verifies. What the guard decides is
written as procedures that name the next request to the host (`request`) and go on with
its answer (`step`); each `step` is proved equal to a specification (`after`), and the
`*_laws` modules prove what holds of every run of these procedures.

| Module | What it holds |
|---|---|
| `text`, `size`, `signal`, `paths` | texts, byte counts, stop signals, paths |
| `config`, `discovery`, `supervise` | settings and their precedence, which applications there are, the run as a whole |
| `host`, `report`, `trace` | requests, answers, failures, entries of the guard's log |
| `process`, `stop`, `start`, `check` | waiting, commands, stopping, starting, and the check of one application |
| `rotate`, `suspend`, `logs` | rotation of a log, freezing a process group, and the logs of one application |
| `procfs`, `kernel_scan` | whether every process of a group is stopped |
| `supervisor`, `clock`, `writer` | messages, commands, times, and files that are written at once |
| `stop_laws`, `check_laws`, `process_laws` | what holds of every stop, check and command |
| `rotate_laws`, `contents_laws`, `logs_laws` | what holds of every rotation, and that nothing is lost by it |
| `discovery_laws` | what holds of every discovery |

`app/` is the guard itself: it performs the requests. `tests/` run the procedures against
simulated hosts.

## What the laws say

- An application is launched only after it has been seen that it does not run, and never
  while it is disabled or quarantined.
- Any exit during startup validation kills the process group, removes the PID file and
  quarantines the application.
- An application counts as stopped only when its leader and its group are gone and its PID
  file is removed.
- While a process group is frozen, a marker names it; however a rotation ends, no group
  stays frozen.
- A rotation that reports that it suspended the application loses no output, and
  generations only move up; those past the number to keep are deleted, as far as the host
  can.
- Hidden entries of the base directory do not matter, and an override changes the
  application of its name and no other.
- While one run of the guard holds its lock, every other leaves.
- A file that is written at once holds the old contents or the new ones, whatever fails.
