# ocwatch

Terminal monitor for OpenCode coding sessions, local and remote.

A daemon polls the local machine and every configured host, keeps the state of
the sessions it finds, and rings a tmux bell when one of them needs attention. A
terminal interface connects to the daemon over a Unix socket, lists the sessions
by host and directory, and can approve a request, attach to a session or start a
new one.

## Layout

- `src/` is the library, verified with Verus. Every decision is taken here: how
  the output of tmux, lsof, ps and sqlite3 is read, which commands are run, how
  the daemon's state changes, what the interface shows and what a key does.
  - `text`, `path`, `shell`, `keyed`: texts, paths, command lines, keyed lists
  - `types`, `ipc`, `config`, `cli`: sessions, messages, configuration, arguments
  - `ssh`: connections to hosts, local ports of tunnels
  - `discovery`: scans of the local machine and of a host
  - `opencode`, `agent_trait`: requests to an OpenCode server and their answers
  - `daemon`: state, scan cycles, clients, bells, recent directories, lifecycle
  - `tui`: application state, rows, panels, drawing, attaching, the one instance
- `app/` is the program around it: sockets, processes, files, HTTP, the terminal.
- `tests/` runs the library on concrete values.

## Laws

Properties that span several functions are public proof functions named `law_*`,
next to the functions they speak of.
