# grimmnetz

The backend of a game-server manager that drives Linux servers over SSH: it prepares a
fresh server (passwordless sudo, the `gameserver` account, packages, swap, firewall with a
rollback job), installs games as systemd units, edits their config files, schedules
restarts with in-game countdowns, and manages backups and files.

## Layout

- `src/` is the library, verified with Verus. Everything that decides something lives
  here: the commands sent to a server, the parsers of what comes back, the config-file
  formats, the path and name guards, and the multi-step runs (sudo setup, bootstrap,
  firewall activation, instance removal, install tracking), which are state machines that
  say what to run next for each outcome.
- `app/` is plain Rust around the library: the SSH sessions, the SQLite database, the OS
  keyring, the settings file and the local system monitor. It runs the commands the
  library gives and hands the results back.
- `tests/` holds the tests, which exercise the library on concrete values.

Outside crates are used from `src/` only through small trusted wrappers (`serde_json`,
`rand`, `uuid`, `chrono`, `russh-keys`), each with a contract stating what the crate's
source or documentation shows of it.
