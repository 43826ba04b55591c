# tor_downloader_rs

A recursive downloader for `.onion` sites that goes through Tor's SOCKS5
proxy, with a command line and an interactive terminal interface.

Layout:

- `src/` is the library, verified with Verus: configuration checks and
  output paths (`config`), HTML link extraction (`parser`), the crawl queue
  and its decisions (`crawler`), retries, backoff and download counters
  (`downloader`), the terminal interface's state machine (`tui`), text
  helpers (`text`, `utils`, `monitor`) and the URL parts read from the `url`
  crate (`urls`). Calls into `url`, `regex`, `scraper` and a few std
  functions sit behind small trusted wrappers whose contracts are stated
  next to them.
- `app/` is the program around it: argument parsing with `clap`, HTTP with
  `reqwest`, tasks with `tokio`, drawing with `ratatui`, progress output,
  and JSON configuration files.
- `tests/` runs the library on concrete values.
