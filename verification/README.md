# async_executor

An async executor whose scheduling core is verified with Verus.

- `src/` is the core: task queues and work stealing, the table of active tasks, the list of
  sleeping tickers, tickers and runners, and the two executors made of them. Tasks are numbers
  there, and wakers are of any type. Every function states what it does, and `src/laws/` states
  what holds of them together: that no task is lost or run twice, that tickers and runners do not get
  in each other's way, and that no task waits for nobody: while one waits in the global queue, a
  sleeping ticker is notified or none is sleeping, and a runner with tasks in its own queue is
  awake.
- `app/` puts the core behind a lock and gives it futures: `Executor` and `LocalExecutor` with
  `spawn`, `tick` and `run` over real tasks.
- `tests/` run the core on concrete tasks.

Queues are those of `concurrent-queue`, the table of active tasks is a `slab`, and the runner
that is robbed first is chosen with `fastrand`. What these crates do is stated where they are
called, and not proved.
