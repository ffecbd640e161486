# kettd

The data and rule core of a desktop to-do, reminder and sticky-note tool,
written in Verus. Verus checks every function of the library against its
contract; where a function only hands a value on from a store or a port,
its contract says what was handed over rather than what came back.

- `src/` — the verified library: the task, reminder, sticky-note and
  settings rules (`tasks`, `reminders`, `settings`, `patch`, `store`,
  `store_ops`), reading and migrating stored documents and the decisions
  of loading (`json`, `schema`, `migration`, `load`), the reminder
  scheduler (`scheduler`), weekly exports (`week`, `export`), the knowledge
  base (`kb`, `embedding`), the AI configuration and key store (`ai`),
  local metrics (`telemetry`), and the first-generation services
  (`legacy`, `validation`, `service`).
  Calls into chrono, serde_json and uuid sit behind small trusted wrappers;
  their contracts are read from those crates' sources and trusted, not
  proved.
  Times are local wall-clock times throughout; the scheduler compares them
  as such and does not convert through the machine's time zone.
- `tests/` — tests of the library on concrete values.
- `app/` — a command-line front end: the data folder on disk (it carries
  out what the library's loading steps decide), the serde forms of the
  documents, the reminder loop, the SQLite store of the first generation,
  and the floating-point parts (search ranking, metrics).
