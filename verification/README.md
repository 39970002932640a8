# gix_plumbing

Git plumbing whose logic is verified with Verus: the parsers, encoders, state machines and
decision rules behind object ids, loose objects, pack entries and indices, deltas, packet lines,
the fetch protocol and its handshake, object lookups in the dynamic store, pathspecs, tags,
notes, tree editing and writing, signature verification, blob and commit merges, the merging of
several merge bases into a virtual one, and the index entries of merge conflicts.

Tree merges are verified decision by decision: matching each change of one side against the
changes of the other, scheduling it (applied, relocated after a directory rename, deferred, moved
away from a directory, or paired), deciding every kind of pair (submodules, deletions,
modifications, additions, renames on one or both sides, renames of different entries to one
place, renamed directories, leaves blocking directories, additions against modifications or
renames, and a recorded `Unknown` conflict for pairs no rule takes), relocating entries to unique
paths, recording conflicts and deciding when to stop or swap sides, and the index entries of
conflicts. `app/` runs the loop over these decisions, performs the edits and has the caller merge
and write blobs; the diff that produces the changes is the caller's too.

- `src/` is the verified library. Each public function states in its contract what it returns
  or changes, over spec functions and views; laws that relate several functions are public proof
  functions. Calls into outside crates (`gix-hash`, `gix-validate`, `gix-attributes`, `gix-index`,
  `gix-quote`, `bstr`, `faster-hex`) stand behind small trusted wrappers whose contracts say what
  those crates document.
- `app/` is the ordinary Rust around it: reading and writing files, streams and processes, and
  the loops that perform the I/O the library decides on, one step at a time (handshakes, SSH
  signature verification, tree merges, and the merges of merge bases).
- `tests/` runs the library on concrete values.
