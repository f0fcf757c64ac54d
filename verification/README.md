# malscan

A static scanner for PHP webshells and for `.htaccess` tricks that make a web
server run PHP under other extensions. The library in `src/` is verified with
Verus; `app/` is the command-line program around it.

## Layout

- `src/htaccess.rs` — parsing `.htaccess` files: PHP/SSI handlers, `<FilesMatch>`
  extensions, `<Files>` names and the findings they give.
- `src/webshell.rs` — the scan scope (`Policy`): default PHP extensions, what the
  `.htaccess` files add, and content that looks like PHP.
- `src/extractor.rs` — digests, file type, printable strings and indicators of
  compromise of a file's bytes.
- `src/signature.rs` — the PHP signature engine.
- `src/heuristics.rs` — the score of a file's findings and when to ask the AI service.
- `src/scanner.rs` — scanning a tree: policy, files in scope, one scan per distinct
  content, results per file, and their order.
- `src/reporter.rs` — counts, selections, exit status and the text report.
- `src/ai.rs` — retry decisions for the AI service and how its answer becomes a verdict.
- `src/cli.rs` — the command line and the decisions taken from it.
- `src/model.rs`, `src/text.rs`, `src/paths.rs`, `src/matching.rs` — shared types,
  character-level helpers, path questions and regular expressions.
- `app/` — argument parsing, the walk over the file system, HTTP requests, JSON and
  SARIF output, entropy and confidences (floating point), report files.

Run `cargo test` for the tests under `tests/`.
