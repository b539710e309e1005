# srcbot

Checks that the sources of nixpkgs packages (`src`, `cargoDeps`, `goModules` and the
like) still build, for a pull request or for a whole package set, and repairs hashes
that no longer match.

- `src/` is the library, verified with Verus: what changed between two evaluations,
  what is built next and what a build that ended means, when a build has to be done
  again, where logs and saved runs go, and the texts that are posted.
- `src/outside.rs` holds what the library takes from outside without a proof.
- `tests/` runs the library on concrete values.
- `app/` is the program around it: arguments, files, processes and GitHub.
