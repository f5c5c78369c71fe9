# wikipedia_sz_bot

A maintenance bot for the Japanese Wikipedia. The bot's decisions are a Verus
library under `src/`: what it asks the API for, what it makes of the responses,
and what its reports say. The program around it is under `app/`.

## Tasks

- `templatedata`: every other day, ranks the most-transcluded templates that
  have no `TemplateData` by their direct use in articles, and reports the top
  50.
- `recentchanges`: runs continuously, polls recent changes, and reports edits by
  users with few edits that add a URL with an `utm_source` parameter. The
  accumulated list is saved every two hours.
- `ill`: once a week, scans the articles that transclude `Template:仮リンク`, and
  reports interlanguage links that could be plain wikilinks, at most 1000 of
  them.

## Layout

- `src/api.rs`, `src/json.rs`, `src/request.rs`: requests to the `MediaWiki` API
  and the values in its responses.
- `src/tasks/templatedata/`: the survey of templates, their ranking and report.
- `src/tasks/recentchanges/`: the passes of the monitor and their report.
- `src/tasks/ill/`: the parser of template calls, the lookups of page states and
  sitelinks, the rounds of a scan and its report.
- `src/server.rs`: the replies of the HTTP server that triggers tasks.
- `src/moment.rs`: points in time. Formatting and reading them is left to
  `chrono`, whose results the contracts name without saying what they are; of
  the time of day they say it.
- `src/text.rs`, `src/letters.rs`, `src/number.rs`, `src/format.rs`,
  `src/titles.rs`, `src/batch.rs`: texts, numbers and collections.
- `tests/`: tests of the library on given values.
- `app/`: the network, the clock, the schedule and the HTTP server.

The survey of templates, the passes of the monitor and the rounds of a scan are
state machines: `request` says which request is due, and `answer` takes the
reply. The contracts give the next state for every reply, and proof functions
state what holds of whole runs, such as that each of them ends. Around the
rounds of a scan, `Connect` decides how Wikidata is accessed, `Articles` how far
articles are listed, and `next_step` whether another round, the report or a stop
is due.

## Running

The program reads its credentials from `mwbot.toml`. With `--dry-run` each task
runs once and prints its report. `SZ_BOT_CANDIDATES` and `SZ_BOT_ILL_PAGES`
limit the work of the tasks `templatedata` and `ill`; `SZ_BOT_PORT` sets the
port of the HTTP server, which runs a task on `POST /run/{task}`.
