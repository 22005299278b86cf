# pylight

A workspace-symbol language server for Python, with its logic verified by Verus.

- `src/` is the verified library: the symbol model (`symbols`), the extraction
  of definitions from Python source (`parser`), the per-file symbol index
  (`index`), fuzzy search over symbol names (`search`, on `fuzzy-matcher`),
  the ignore rules of a workspace (`workspace_ignore`, on `ignore`), the
  classification of debounced file changes (`watcher`), the coordinator that
  keeps the index up to date from file events (`updater`), and the answers of
  the language server (`lsp`). Paths are held as text (`paths`).
- `app/` is the program around it: argument handling, the language-server
  connection and message loop, walking and reading the workspace, the
  file-system watcher and the threads that run index updates.
- `tests/` runs the library on concrete inputs.

Each public function states its result in its contract; the laws that relate
several functions (reading back what was indexed, removal undoing indexing,
sorted and exact search results, events queued in order during a re-index,
and others) are public proof functions next to the code they speak of.

The file table of the index is a list of entries whose paths are distinct,
and the file watcher removes repeated paths from a list, in place of a
`HashMap` and a `HashSet` keyed by path. vstd specifies what `HashMap` and
`HashSet` hold only for keys whose hashing it models (integers and `bool`);
for text keys that fact would have to be assumed, so the contracts here are
stated over lists instead.
