# bit

A small content-addressed version store, verified with Verus.

- `src/` is the library: strings in `String` order (`text`, `sort`), a sorted
  string map (`strmap`), object hashes (`hash`), blobs, trees and commits
  (`object`), the staging index (`index`), ignore rules (`ignore`), the
  plugin interface for delta algorithms (`diff`), the decisions behind the
  commands (`commands`) and properties that span several operations (`laws`).
- `app/` is the command-line program: argument parsing, files on disk, JSON
  documents for the index, trees and commits, and plugin loading.
- `tests/` runs the library on concrete values.
