# apibrowser

A terminal browser for the data of an FRC event from The Blue Alliance:
team rankings, per-team statistics, match schedules and match details.

The library in `src/` is verified with Verus:

- `models` – events, teams, rankings, matches and ratings; match status and names.
- `stats` – per-team statistics over completed matches.
- `app` – the team list (ranked teams by rank, then the others by number),
  screen navigation and lookups.
- `input` – what each key does on each screen.
- `display` – the text the screens show.
- `config` – API key and event selection.
- `fetch` – request addresses, response statuses and the decisions of a
  cached, revalidated download.
- `sorting`, `search`, `text` – stable sorting, first-match search and
  decimal text, with their proofs.

`app/` is the program around it: HTTP, the on-disk cache, settings files,
the command line and the terminal user interface.
