# tokscale

Token-usage analytics for a terminal dashboard, written in Verus.

`src/` is the verified library. Each public function states what it returns over
spec functions on `Seq`, `int` and the views of its types:

- `dates`: a message's day and month numbers from its `YYYY-MM-DD` date (parsed with
  chrono) and its local hour bucket from its timestamp.
- `tokens`, `usage`: token breakdowns, the usage message built from a parsed message, and
  the folds over groups of messages (saturating or wrapping, as each report counts).
- `group`, `aggregate`, `profile`, `streaks`, `graph`: grouping messages by model,
  agent, client, day and hour; daily and hourly reports; weekday and period profiles;
  usage streaks; the contribution graph.
- `ledger`, `accounts`: reading account events out of log rows, attributing sessions
  to accounts, and per-account summaries (account names are hashed with SHA-256).
- `price`, `thinking`, `rates`, `order`, `quota`, `cached`: pricing-source rows,
  reasoning-effort labels, speed and effort rankings, quota-sample windows and the
  normalisation of cached agent rows.
- `cached_daily`: daily rows read back from the cache, regrouping older rows by client.
- `series`: the price and thinking chart series of a model over the trailing three
  months.
- `cache`, `clients`, `grouping`, `loader`: cache headers, whether a cache can serve a
  request and where it is read from, the client key a cache is saved under, client
  selection, grouping keys and labels, loader settings.

Properties that span several calls (partitions of the messages into groups, token
conservation across rows, idempotence of account attribution, ranged against whole
ledgers, the streak order, cache verdicts) are public
proof functions named `lemma_*` beside the functions they speak of.

`app/` holds what Verus does not check: the SQLite log reader, cost arithmetic in
floating point, JSON export and reading the cache file from disk. `tests/` runs the library on concrete data.
