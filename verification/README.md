# typlog_core

Core of `typlog`, a static blog generator for Typst posts, written in Verus.

- `src/` — the verified library: text operations (`text`), post dates backed
  by chrono (`date`), site configuration (`config`), reading titles and dates
  from Typst sources (`parse`), post metadata and the order of the post list
  (`meta`), HTML of the index page and of themed post pages (`html`), post
  ids and new-post files (`post`), new-post templates (`scaffold`) and the
  preview server's request and content-type decisions (`server`).
- `app/` — the `typlog` command line (`init`, `new`, `generate`, `clean`,
  `server`): file system, `typst` processes, `config.toml` / `meta.toml`
  decoding and the HTTP server, around the library.
- `tests/` — tests of the library on concrete values.

The background opacity is kept as the text that `{}` writes for the number
in `config.toml` (the style block prints it after clamping to `[0, 1]`); the
glass panel opacity, which the library computes with, is kept in
ten-thousandths (`8800` is `0.88`). `app/` converts the numbers of
`config.toml`.
