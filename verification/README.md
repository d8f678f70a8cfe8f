# ccusage (pi-agent usage, verified core)

Usage accounting for pi-agent session logs, with its core logic proved
correct by Verus.

- `src/` is the verified library:
  - `jsonl`: which lines of a session log may hold a usable record.
  - `pi`: the pi record types, what each record yields (assistant usage, or
    the runs of a `subagent` tool result, counted once each), request ids,
    model display names, the usage entries of a whole log (in record order,
    one per request that counts tokens), and entry identities.
  - `paths`: path components as `std::path` splits Unix paths; session ids
    and projects read from a log's path.
  - `pricing`: which price a named store's request is charged at, which
    cost applies in each cost mode, and when a request is reported as
    unpriced.
  - `session`, `order`: limiting a session report to its most recently
    active rows, with the laws of that selection.
  - `timestamp`, `text`, `entry`: timestamps (parsed and rendered by `jiff`),
    string helpers, and the shared record types.
- `app/` reads log files, parses JSON lines with `serde_json`, formats
  local dates, and hands token pricing to the surrounding application's
  price table (the `PricingCore` trait).
- `tests/` exercises the library.
