# ftc_insights

Season insights for FIRST Tech Challenge teams, and the web service that
serves them.

`src/` is the verified library:

- `text`: decimal integers (parsing and writing, as std does them), prefixes,
  character counts and line splitting.
- `team_table`: team number to name or region, read from database rows.
- `scraper`: the rows stored for a scored match, one per alliance (junction
  encoding, robot routes, flags, and which teams each row names).
- `opr`: the integer inputs of an event's rating system: team rows, the
  pairing matrix, summed cones and scores.
- `rankings`: each team's best component values over the season, the event of
  each, and global and district rank counts; `best_laws` proves what the
  table says of the events.
- `insights`, `database`, `api`, `predictions`: the records the service
  answers with, request decisions, and the predictor's decisions.

`app/` is the service itself: the HTTP routes, the SQLite database and cache,
the event API client, the matrix solve and the Elo ratings, which are
floating point.
