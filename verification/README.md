# harmonia

Harmonia coordinates a workspace of related repositories: it reads the
workspace and per-repository configuration, builds the dependency graph
between the repositories from their manifests (Cargo, npm, Python, Go),
orders them dependency-first, checks version constraints, bumps versions,
plans and tracks coordinated merge requests, and runs git and quality
commands across the selected repositories.

The library under `src/` is written in Verus: each public function carries a
`requires`/`ensures` contract over a mathematical model (`Seq`, `Set`, `Map`,
spec functions and views), and the laws that relate several functions are
stated and proved as public proof functions.

## Layout

- `src/text.rs`, `src/numbers.rs`, `src/order.rs`: strings, numbers and sorted
  lists with exact specifications.
- `src/project/`: repositories, versions (semver, calver, rightmost-number
  bumps), changesets and the workspace model.
- `src/config/`: configuration values, their resolution and editing.
- `src/ecosystem/`: manifests of each ecosystem, structured documents read
  and written along key paths, and the `[versioning]` `path` and `pattern`
  settings.
- `src/graph/`: the dependency graph, dependency-first ordering, cycle
  detection, transitive closures and constraint checks.
- `src/forge/`: GitHub and GitLab payloads and routes.
- `src/git/`: repository status and synchronisation decisions.
- `src/cli/`: what each command computes: selections, plans, reports,
  merge request descriptions and template contexts.
- `app/`: the command-line program around the library: argument parsing,
  file, network and git I/O.
- `tests/`: tests of the library on concrete values.

Calls into outside crates (`semver`, `toml`, `serde_json`, `serde_yaml`,
`regex`, `tera`) stand behind small trusted wrappers whose contracts name
or describe what those crates compute.
