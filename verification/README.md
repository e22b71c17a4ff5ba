# recall

The logic behind Recall, a desktop app that rebuilds a timeline of past
workdays from local git commits, GitHub, calendar feeds, Jira and Zulip, next
to the Harvest entries already logged.

- `src/` is the library, verified with Verus: the paging rules for every
  API, the mapping of API objects to timeline rows, iCal parsing and
  recurrence expansion, the Jira action summary, the Zulip grouping, the day
  cache rules, the telemetry summary and the text helpers they rest on. Calls
  into chrono, ical, rrule, base64, urlencoding, uuid and serde_json sit
  behind small trusted wrappers whose contracts name what those crates
  return.
- `app/` is the shell: SQLite, HTTP requests, the git processes and the
  directory walk, threads, and the JSON read into the library's plain types.
- `tests/` runs the library on concrete values.
