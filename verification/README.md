# Git workbench engine

A server for a Git client. It speaks JSON-RPC over standard input and output,
in frames with a `Content-Length` header, and

- serves pages of the commit graph, with lanes to draw it in, the status of the
  worktree and the index, the references, and the content of files in a
  revision;
- carries out writes (stage, commit, branches, fetch, pull, push), one at a
  time, each as a transaction of an undo stack that survives a crash;
- announces changes to the repository, counted by an epoch.

## Layout

- `src/`: the library, written in Verus. It holds what the engine decides and
  computes, with contracts that are proved. The functions whose names begin with
  `law_` state what holds of several functions together.
- `app/`: the program around it: files, processes, the database of the cache,
  the file watcher, and the serve loop.
- `tests/`: tests of the library.

Functions marked `external_body` call other crates. Their contracts are believed,
not proved, and their doc comments say what is claimed.
