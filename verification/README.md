# l4dder-worker

A light worker for L4DDER, a ladder of the users of the TR4KER tracker. It asks the ladder for a
slice of work, asks the tracker for what the slice needs, and hands the raw data in. The ladder
does all computing; workers keep nothing and can take each other's place.

Two lanes run side by side, each with its own session with the tracker, cookie and rate: one
scrapes users anew (profile and badges), the other searches for users by the start of their names.

## Layout

- `src/` is the library, verified with Verus. It decides what is done next.
  - `text`: searching, trimming, reading numbers, URL encoding
  - `config`: the settings and how they are read
  - `json`: JSON documents
  - `rate`: how the rate rises and falls, how requests are spaced, how long pauses last
  - `session`: a session with the tracker, and a request from the cooldown to its answer
  - `profile`: samples, badges and searches
  - `lane`, `refresh`, `search`: the lanes, as machines from events to actions
- `app/` reads the environment and the clock, sleeps, and talks HTTP.
- `tests/` runs the library on concrete values.

## Configuration

| Variable | Required | Meaning |
|---|---|---|
| `LADDER_URL` | yes | address of the ladder |
| `WORKER_TOKEN` | yes | token of the worker |
| `TR4KER_USER` and `TR4KER_PASS` | these or a cookie | credentials; the worker logs in by itself |
| `TR4KER_COOKIE` | this or credentials | session cookie, with its name before it or not |
| `TR4KER_BASE` | no | address of the tracker |
| `BATCH` | no | items per lease, 150 by default |
