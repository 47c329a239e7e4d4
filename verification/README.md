# pore

pore manages trees of git repositories that a manifest describes: it makes them, keeps them in sync
with their remotes, shows their state, and uploads changes. All trees share depots, so that a new
tree needs little to be fetched.

The decisions are a verified library under `src/`: Verus proves that each function does what its
contract says. The tool around it, under `app/`, reads the command line, talks to git, to the disk
and to the network, and carries out what the library decides.

| Module | What it decides |
| --- | --- |
| `text`, `lists`, `path`, `style` | texts, searches, paths and styled text |
| `markup`, `xml` | tags as text, documents as events, and writing them |
| `manifest` | reading, building, looking up and writing manifests |
| `config`, `rename` | the configuration, and renaming of projects |
| `depot`, `replace`, `replace_nested` | where a depot keeps what, what is fetched, and how refs are taken over |
| `tree` | which projects a command works on, and what it does in them |
| `pool` | the results of tasks, and which of them is shown |
| `display`, `commands`, `update_check`, `hooks` | what is shown, the commands, new versions, hooks |

Laws that relate several functions are public proof functions whose names begin with `law_`. What
outside crates do is stated in the contracts of a few functions marked `external_body`; their doc
comments say what is trusted.
