# local_ci

Runs GitHub Actions workflows locally: it reads workflow files, plans jobs and matrix legs,
schedules them in waves, runs each job in a container or a macOS VM against a local double of
the GitHub API (the DTU server), and records what happened.

## Layout

- `src/` — the library, verified with Verus. Workflow reading from YAML text, NDJSON event
  lines, matrix expansion, the expansion of reusable workflows, planning and scheduling, the
  `${{ }}` expression evaluator, run and event records, runner plans and payloads, timeline
  reading, the DTU server's routing, request parsing (chunked bodies included), the runner API's
  records, action download information, commit comparisons, logs, caches, job broker and job
  mapping, and the step machines that order the work of VM jobs, registered-runner attempts and
  of preparing runner images and runner binaries.
- `app/` — the I/O around the library: files, processes, sockets and threads. It carries out
  the operations the library's step machines decide and answers the facts the expression
  evaluator asks for (floating-point number comparisons and file hashing).
- `tests/` — tests of the library.

Outside work reaches the library only through small trusted wrappers around globset, sha1, sha2,
getrandom, serde_json, serde_yaml and a few std functions; their doc comments say what is assumed.
