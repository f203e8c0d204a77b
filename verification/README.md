# jpellis_me

The logic behind the jpellis.me personal site, written in Verus: every
function in `src/` carries a contract that Verus proves.

## Layout

- `src/text.rs`, `src/sort.rs` — character-sequence specifications and
  helpers (search, trimming, splitting, ordering), and stable sorting
  specified as insertion, with its laws.
- `src/blog.rs` — the compiled blog posts' type, look-ups and dates.
- `src/build/` — the content pipeline: front matter, slugs, excerpts,
  Markdown post-processing (tab groups and details blocks) and the generated
  Rust sources for posts and project pages.
- `src/components/` — the masthead clock and the year-in-code band (heat map
  shades, relative ages, latest activity, badges, period label).
- `src/config/` — the projects and work configurations and their checks.
- `src/integration/github/` — a JSON model, instants and dates, the cache
  policy (stale-while-revalidate), and the readers of GitHub's GraphQL and
  REST answers for statistics, projects and work.
- `src/pages/` — page logic: blog filters and links, contact details,
  project look-ups and labels, the résumé's featured role.
- `src/maintenance/` — the data-refresh tasks: the batched repository query,
  the fallback data, and the selection and ranking of open-source
  contributions, and writing them back into the work configuration.
- `tests/` — tests run against the compiled library.
- `app/` — the command-line program around the library: file and network
  I/O, the `gh` CLI, serialisation, and the few floating-point displays.

Outside crates are reached only through the trusted items named in the
source (Markdown rendering, date parsing, path stems, `{:?}` formatting,
rewriting the contributions table of a TOML document);
their doc comments say what is assumed of them.
