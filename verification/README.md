# denokv_sqlite

The rules of a key-value store and message queue that are kept in SQLite, as
verified tasks.

A task is a state machine. It asks for one thing at a time, such as a statement,
a random number or a sum of doubles, is told the answer, and goes on until it is
done. The library decides; what surrounds it carries out the requests.

- `src/` is the library. `request` holds what tasks ask for and are told; `sql`
  and `schema` the texts of the statements. `write`, `write_task`, `le64`, `sum`,
  `value` and `versionstamp` make up an atomic write, `batch` runs several of them
  in one transaction. `read` reads ranges, `queue`, `requeue` and `running` move
  messages, `expiry` collects values whose time is over, and `backend` starts all
  of these.
- `tables` says what each statement means, and `protocol` what it is to run a task
  on the tables. The modules that end in `_laws` prove what the tasks come to.
- `app/` is a backend on a `rusqlite` connection that drives the tasks.
- `tests/` runs the tasks step by step and on databases in memory.
