# kronox

An HTTP API over KronoX, the scheduling system of several Swedish
universities: it scrapes a school's KronoX pages and serves schedule events,
room, teacher and course listings, and programme search as JSON, optionally
caching events in Postgres.

## Layout

- `src/` is the library, verified with Verus. It holds the scraper's parsing
  of schedule documents and programme-search pages, the filters and listings
  over events, the checks of the API's query parameters and its error
  answers, the schools configuration, the decisions of the data path (cache
  or scrape, staleness, refresh locks, failover across a school's URLs), the
  requests sent to KronoX, and the server settings.
- `src/` calls chrono, chrono-tz, regex, scraper, url and log through a few
  trusted wrappers whose contracts say what those crates compute; their
  results are named where restating them would take pages.
- `app/` is the server: Rocket routes, the reqwest client, the Postgres
  storage through sqlx, XML and JSON (de)serialization, and `main`. It hands
  the library plain values and performs the I/O the library decides on.
- `tests/` runs the library on concrete values.

Instants are `i128` values that order as chrono's UTC date-times do, leap
seconds included: seconds since the Unix epoch times 2·10⁹, plus the
nanoseconds past that second.

## Configuration

| Env var               | Default                    | Meaning                              |
| --------------------- | -------------------------- | ------------------------------------ |
| `KRONOX_SCHOOLS_JSON` | —                          | Schools config as inline JSON        |
| `KRONOX_SCHOOLS_FILE` | `.well-known/schools.json` | Path to schools config               |
| `PORT`                | `7077`                     | Listen port                          |
| `DATABASE_URL`        | —                          | Enables the Postgres cache           |
| `LOG_LEVEL`           | `debug`                    | `off`, `error`, `warn`, `info`, `debug`, `trace` |
