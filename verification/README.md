# cosmic-ext-window-daemon

A daemon for the COSMIC desktop that routes new windows onto workspaces.

When a window appears, the daemon decides where it goes: on the first empty
workspace of the group on its output, on a workspace made for it, or nowhere.
It can switch to that workspace and maximize the window. It checks that the
compositor honors its switches and tells the operator when it does not; each
warning is given once in the process, however often it reconnects. When the
last window of the active workspace closes, it can go back to the workspace that
was visited before. When the compositor goes away, it reconnects, waiting longer
each time.

## Layout

`src/` is the library, written in Verus. It holds every decision of the daemon
and does no input or output: a function takes a snapshot of what the compositor
announced and the daemon's state, and leaves the next state and the requests to
carry out, in order.

| Module | What it holds |
|--------|---------------|
| `config` | the configuration and its environment variables |
| `placement` | where a new window goes |
| `runtime` | carrying out placements, at once or once a new workspace appeared |
| `mru_jump`, `jump` | recent workspaces, and going back to one |
| `verify` | attempted and confirmed switches |
| `reconnect` | delays, and the supervisor of sessions |
| `app` | starting a session, and why one ended |
| `state` | the daemon's state during a session, and what it keeps for the next |
| `wayland` | transactions with the workspace manager, and what windows and workspaces announce |
| `world`, `effects`, `ids` | the snapshot, the requests, and the keys of protocol objects |
| `text`, `search` | reading short texts, and finding things in sequences |
| `laws` | what holds of the daemon as a whole |

`app/` is the program around it: it reads the environment, talks to the
compositor through the toolkits, runs the event loop and writes the log.

`tests/` runs the library on concrete values.

## Configuration

All of it is in environment variables, read at startup. A value that is not
understood ends the program with code 1 and a message that names the variable
and the value.

| Variable | Default | Meaning |
|----------|---------|---------|
| `WORKSPACE_MODE` | `next-free` | `next-free`: the first empty workspace; `new-each`: a new workspace for each window, or the first empty one where none can be made; `same`: windows stay where they are |
| `SWITCH_TO_WORKSPACE` | `0` | switch to the workspace of a placed window |
| `MAXIMIZE` | `0` | maximize placed windows |
| `SWITCH_VERIFY_TIMEOUT_MS` | `250` | how long a switch may stay unconfirmed; `0` turns the check off |
| `WORKSPACE_OUTPUT` | none | the output whose workspace group takes all windows; where it is absent, each window's own outputs decide |
| `EXCLUDED_APP_IDS` | none | applications to leave alone, separated by commas |
| `EXCLUDED_TITLE_REGEX` | none | windows whose title matches are left alone |
| `JUMP_ON_EMPTY` | `0` | go back to a recent workspace when the active one empties |

The switches take `0`/`1`, `true`/`false`, `yes`/`no` and `on`/`off`, in any case.
