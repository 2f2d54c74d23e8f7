# pleme-linker

A Nix-native JavaScript package manager: it resolves npm dependencies into a
`deps.nix` lockfile, lays out `node_modules` from pre-fetched tarballs, and
builds TypeScript projects and web applications with OXC.

The library (`src/`) is written in Verus. Its functions carry `requires` /
`ensures` contracts over mathematical models (sequences of characters, maps,
sets) and are proved against them; laws that relate several functions are
stated and proved as public proof functions (`law_*`). The program around it
(`app/`) reads and writes files, talks to the registry, runs compilers, and
hands the library plain values.

## Layout

- `src/text.rs` — character-sequence operations (trimming, splitting,
  replacing, lines, Nix string escaping, decimal rendering).
- `src/versions.rs` — semantic versions through the `semver` crate, and the
  npm requirement syntax (x-ranges, `||`, hyphen and space-separated ranges).
- `src/resolver.rs` — the resolver's state and steps: queueing, batches of
  registry fetches, version choice, dependency rewriting, deps.nix.
- `src/sorting.rs` — stable sorting of keys in string order.
- `src/linker.rs` — the node_modules layout: store names, hoisting with root
  dependencies first, nested links, binary launchers.
- `src/analysis.rs`, `src/graph.rs` — module analysis (regular expressions and
  `oxc_resolver`), the module graph and its dependency order.
- `src/module_items.rs`, `src/transform.rs`, `src/resolution.rs` — the ES
  module to CommonJS transform over statements parsed by oxc.
- `src/bundle.rs`, `src/externals.rs`, `src/tree_shaking.rs` — the bundle
  text, content hashes, index.html, CDN externals, used exports.
- `src/json.rs` — package.json as a JSON value (read and written with
  `serde_json`): dependency entries, `bin` entries, and pointing entry
  points at the sources.
- `src/project.rs`, `src/declarations.rs`, `src/paths.rs`, `src/cli.rs`,
  `src/types.rs` — project build decisions, declaration stubs, relative
  paths, command-line and manifest types.
- `app/` — the `pleme-linker` command.
- `tests/` — tests of the library.
