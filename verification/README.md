# deb_assets

The part of a packaging tool that decides what goes into a Debian package made from a Cargo
project, with the decisions proved in Verus.

- `src/` is the library. It works on plain values: paths as text, what was found on disk as
  arguments, what is to be said to the user as a list of notices.
- `app/` reads files, searches for patterns, runs commands and calls the library. Where a machine
  has no Unix paths, it turns them into that form and back.
- `tests/` holds tests on concrete values. Paths, lines, numbers and the order of assets are
  compared with the standard library.

| module | about |
| --- | --- |
| `text`, `path`, `octal` | text, paths in the Unix form, octal numbers |
| `path_laws` | how joining paths and taking them apart belong together |
| `asset` | assets, their sources and their places |
| `manifest` | what a manifest says of the package |
| `layout` | where the files of a build are, and which assets that makes |
| `config` | the configuration that a manifest makes, and its dependencies |
| `dependency` | dependencies and the architectures that they are meant for |
| `flags` | the flags with which Cargo builds the assets |
| `resolve` | from patterns to files |
| `generated` | copyright file, changelog and systemd units |
| `package` | the control file, digests, copyright text and binaries |
| `order` | similar files next to each other |
| `places` | where assets end up, whatever is done with them |
| `ready` | tests for the conditions that steps ask for |

The library calls the `regex` crate for architecture specifications, and two functions of the
standard library that `vstd` does not describe. Their contracts are taken on trust; all else is
proved.
