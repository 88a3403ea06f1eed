# yoyaku

An archive of summarised technical articles. Each article is a JSON record
(URL, summary paragraphs, genre, technologies, dates, reading time and optional
Open Graph metadata); the records are checked, published as one index, and
searched by a small web application.

Layout:

- `src/` — the library, verified with Verus:
  - `model.rs` — the records and the published index, with their views;
  - `validate.rs` — the rules of a record and of a collection, with their errors;
  - `index.rs` — building the published index (order, facets, time stamp);
  - `search.rs` — the search conditions, their labels, and the search itself;
  - `order.rs` — the three list orders and a stable sort of positions;
  - `ogp.rs` — reading Open Graph metadata from a page, and the fetch rules;
  - `enrich.rs` — adding fetched metadata to a record;
  - `config.rs` — the site settings (repository link);
  - `page.rs` — the texts that the page shows for the index and each article;
  - `weburl.rs` — absolute URLs (parsed and resolved by the `url` crate);
  - `text.rs` — character-level text operations (trimming, ordering, searching).
- `app/` — the `yoyaku` command (validate, build, enrich) and the Topcoat web
  application: files, HTTP, JSON and HTML rendering.
- `tests/` — tests of the library.
