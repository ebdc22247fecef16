# uv-tool

The rules by which uv installs, finds and upgrades command-line tools, written in Rust and proved
with [Verus](https://github.com/verus-lang/verus).

- `src/` is the library. It computes on plain values: paths are texts with `/` between their
  components, and what was read from files, from the environment or from a Python environment comes
  in as an argument. Every function states what it returns, and Verus checks that it does.
  - `path`, `path_laws`: paths and their components; joining, stripping and normalizing.
  - `relative`: the path that leads from one directory to another (by `pathdiff`).
  - `name`, `order`: normalized package names (by `pep508_rs`), and sorted lists of them.
  - `error`: what can go wrong, and how it is told.
  - `installed`: the tools directory, its receipts and its environments.
  - `disk_laws`: what the tools directory comes to on a disk: receipts read back, repeated
    initializations and removals.
  - `directories`: where executables and man pages go (with `dirs-sys`).
  - `site_packages`: the packages of an environment; versions are compared by `pep440_rs`.
  - `resources`, `resource_laws`: the entry points and man pages of a package.
  - `upgrade`, `upgrade_laws`: the course of an upgrade, step by step (coloured by `owo-colors`).
  - `wheel`: built wheels in the cache.
- `tests/` holds tests that run the compiled library.
- `app/` reads and writes files, asks the environment, prints, and leaves the rest of uv to the
  `Host` trait.

Paths are those of Unix: `/` alone separates components, and a path is absolute when it starts with
`/`. Paths of Windows are not covered; there, `C:\bin` would count as a relative path of one
component.

What is believed and not proved is marked `external_body` or `uninterp` in the sources: the contracts
of the functions of other crates, each with a comment that says what it claims.
