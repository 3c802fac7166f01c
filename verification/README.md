# tmap_core

The logic of a Traveller map server as a verified Verus library: sector data
parsing (tab-delimited, column and SEC formats), sector metadata XML, the
Second Survey and tab-delimited writers, astrometrics (hex, sector and
world-space coordinates), the calendar of the generation timestamp, the point
types of the overlay vector paths, jump-route search, the search query
language, the search index entries and query ranking, and the request logic
of the map's API (milieux, allegiance and sophont listings, universe,
coordinates, jump worlds, search, sector data, credits).

- `src/` — the library; every function carries a `requires`/`ensures`
  contract proved by Verus. XML parsing (`roxmltree`), regular expressions
  (`regex`), base64 decoding (`base64`) and std's lowercasing are reached
  through a few small trusted wrappers whose contracts name the outside
  result.
- `tests/` — tests run against the compiled library.
- `app/` — a command-line front end that reads the `res/` data files and
  prints JSON or XML answers (`tmap <res-dir> <request> [key=value ...]`).
