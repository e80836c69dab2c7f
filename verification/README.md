# ipc_lock

Cross-process named locks, with their decisions verified by Verus.

A named lock keeps other processes out with an OS-level `flock(2)` on a lock
file, and other threads of the same process out with a thread latch, because
`flock` does not exclude the process that already holds it.

- `src/` — the verified library: name rules and the lock file's path
  (`name.rs`), the errors (`error.rs`), the handles, the per-lock state with
  the thread latch and the steps of an acquire and a release (`lock.rs`), the
  process-wide table through which all handles for one key share one state
  (`registry.rs`), and the decisions of the Windows named-mutex backend
  (`mutex.rs`). Each module states its laws as proof functions.
- `app/` — the runtime around it: the lock file, the mutex and condition
  variable that guard each state, the process-wide registry, `Lock`,
  `LockGuard` and an `Error` with `Display`.
- `tests/` — tests of the library.
