# termcineua

A terminal client for browsing and playing cartoons from simpsonsua.tv.

- `src/` is the verified library (Verus):
  - `config` — the catalogue entry (`Cartoon`, `Category`);
  - `catalog` — the title menu, the seasons of a title, the episodes of a season;
  - `title` — reading season, episode and series title from an episode heading;
  - `scrape` — the depth-first walk over the site and the entries it collects;
  - `menu` — menu lines and reading the user's numbers;
  - `text`, `number` — characters, string order, substrings, decimal numbers.
- `app/` is the program around it: the browser session, HTTP downloads,
  `config.json`, the terminal, and the serialisable copy of the catalogue entry.
- `tests/` runs the library on concrete values.
