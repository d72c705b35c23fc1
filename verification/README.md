# usched

A scheduler on top of systemd user timers, for recurring jobs and for jobs that fire once.

- `src/` is the library, verified with Verus: what times and cron expressions mean, which
  unit files and systemctl calls a job takes, whether a job that is due runs, and how jobs are
  added, changed, listed, checked, synchronised and moved out of the queue of at(1).
- `app/` is the program around it: arguments, files, child processes and the database of past
  executions. It carries out the steps that the library plans and hands back what came of
  them.
- `tests/` runs the library on examples.

Work that reaches outside is planned in the library and done in the program. A plan is a list
of steps; where the outcome of a step decides what follows, the library has a value that takes
it in (`Migration`, `TimerSync`).

What the library takes on trust from `chrono`, `cron`, `uuid` and the standard library is
stated at the functions that call them. The machine's clock and its time zone are left open:
contracts that depend on them hold for every instant and every zone.
