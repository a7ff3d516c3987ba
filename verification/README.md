# Salary Garden core

The business core of Salary Garden, a desktop app that shows the salary earned so far as
a garden that drops coins. The logic that decides money is written in Verus and proved
against contracts; the decimal arithmetic of `rust_decimal`, the calendar and time-zone
arithmetic of `chrono` and `chrono-tz`, `str::trim` and the random ids of `uuid` are
called behind trusted wrappers whose contracts are believed, not proved:

- `time`: dates, times of day, instants and time zones (the calendar arithmetic of
  `chrono` and `chrono-tz` is called behind a few trusted wrappers).
- `money`: exact decimal amounts as `rust_decimal` holds them.
- `domain::payroll`: the work calendar, the payroll cycle of a month (first workday after
  the previous month's last workday through this month's last workday), the fixed working
  day (08:40-11:40, 13:30-17:30) and the real salary earned at an instant.
- `domain::rewards`: Silver, Gold and Diamond entitlements from effective work seconds and
  their exact values, worth the hourly, daily and monthly pay.
- `persistence`: the ledger (payroll cycles, settings, daily reward state, offline bags,
  collection ledger, live reward events) with its transactions and invariants, and the
  laws that hold across them.
- `services`: the reward ledger service that checks its input and runs the transactions.
- `application`: the salary configuration, the calendar month, the snapshot and the
  values the front end receives.
- `commands`: the session (ledger, current cycle, environment and live-session clock)
  and the commands the front end calls.

`app/` is the unverified shell: it keeps the ledger in SQLite and runs one command per
invocation. `tests/` hold the scenario tests.
