# panopt

The verified core of a coordination plane for coding agents. Agents that work
on the same project share todos, notes, processes, tools, a roster and advisory
locks through a daemon. The daemon shows what it knows as files under
`.panopt/`, and a sidebar in the terminal multiplexer reads those files, lays
out the panes and reports what it sees.

The library holds the rules of both sides and does no I/O. `app/` opens the
database, writes the files, talks to the multiplexer and performs what the
library asks for.

## Layout

| Modules | What they hold |
| --- | --- |
| `text`, `textmap`, `idmap`, `table`, `sorting`, `titles`, `tree`, `lists` | texts, maps, rows with ids, stable sorting, documents |
| `model`, `project`, `todos`, `todo_ops`, `notes`, `processes`, `tools` | the records of one project and what changes them |
| `registry`, `locks` | who is connected, and who holds what |
| `store`, `store_*` | all projects, with what a change has to show |
| `projection`, `projected`, `rows`, `wire`, `inputs` | the files: what is written, and how it is read |
| `profiles`, `profile_set`, `templates`, `launch`, `status` | types of agents: how they are launched, and how their state is told |
| `params`, `tool_surface`, `auth`, `migrations`, `paths`, `error` | the tools of the daemon, its token, its schema |
| `modes`, `panes`, `host`, `sidebar`, `sidebar_*` | the sidebar: state, events, and the actions that they lead to |
| `*_laws` | what holds of several of them together |

Every function states in `ensures` what it returns or changes, over the `View`
of its types. Proof functions named `law_*` state what holds of the library as
a whole: what was created is read, projects are kept apart, a lock has one
holder, what the daemon writes is what the sidebar reads.

The functions of other crates that the library calls (`regex`, `serde_json`,
`toml`, and `str::to_lowercase`) stand behind small wrappers in `status`,
`inputs`, `lists`, `tree` and `text`.
