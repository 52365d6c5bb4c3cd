# lorebook

A verified library for building SillyTavern world-info lorebooks from
Fandom/MediaWiki lore wikis, and the desktop application around it.

- `src/` is the library, verified with Verus: wikitext cleaning and template
  parsing (`wikitext`, `text`), page classification and entry building
  (`extract`, `entry`), API requests and crawl bookkeeping (`api`, `pages`),
  the page cache's index (`cache`), how entries become database rows and
  come back (`store`), the tabs' state (`crawl_tab`, `library`, `export`,
  `app`, `theme`, `config`, `toast`) and the window icon's shape (`icon`).
  Laws about the library are public proof functions named `law_*`.
- `app/` is the egui application: windows and widgets, HTTP, SQLite, files
  and threads.
- `tests/` runs the library on concrete values.
