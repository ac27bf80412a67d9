# yukicoder-tools

A command-line tool (`yuki-tool`) that keeps yukicoder problems in a Git
repository and synchronises them with the server through its public API:
settings, statement, editorial, generator, judge code, validator and test
cases.

The decisions the tool makes are a library verified with Verus:

- `src/text.rs` — string operations with specifications (trim, lines, join, decimal text).
- `src/body.rs` — request bodies: gzip above 1 KiB, multipart with a boundary that occurs in no part.
- `src/models.rs` — the API's data, the exclusive Markdown/HTML fields, final judge states, validator freshness.
- `src/local.rs` — the problem directory layout, text normalisation, test case names, annotated `problem.toml`.
- `src/config.rs` — `.env` parsing, token selection, the problems of a repository and the target problems.
- `src/api.rs` — base URL, API paths, failure messages, checks on what the server sends.
- `src/commands/` — the decisions of `new`, `pull`, `diff`, `push` (judge code and validator steps, test case uploads in batches), `submit`, `languages`, `init`.

`app/` is the program around it: command-line parsing, files, the
environment, HTTP, and the serialised forms of the library's types.
