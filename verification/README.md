# lind

The verified core of a sandbox syscall layer, written in Verus.

- `src/` — the library. Its functions are verified, except the small
  trusted wrappers (marked `external_body`) that make the calls into
  `dashmap`, `ringbuf`, `str::to_lowercase` and
  `String::from_utf8_lossy`, whose contracts are
  stated and believed:
  - `handler_table`, `threei`: the interposition table (which handler serves
    which syscall of which cage), routing, exits and copies between cages;
  - `lib_tables`: per-cage library handler and symbol tables;
  - `cage_copy`: the checks of copies between cages;
  - `stack_arena`: per-grate stack-arena bases;
  - `bytequeue`, `ring`, `inmem_ipc`: in-memory pipes and stream sockets;
  - `sem`: process-shared semaphores;
  - `waitpid`, `memcalls`, `netcalls`: the decisions of `waitpid`, the
    memory and descriptor syscalls, and socket address rewriting;
  - `sigcalls`: signal-mask changes, `sigaction` and resource limits;
  - `logging`, `strings`: logger configuration parsing, log lines, and
    string helpers (decimal digits among them);
  - `concurrent`: the concurrent maps and sets of `dashmap` behind contracts;
  - `laws`: properties that span several operations, proved.
- `tests/` — tests of the library.
- `app/` — the process-wide side: global tables behind locks, raw guest
  memory, blocking and waking, the environment and the log writer.
