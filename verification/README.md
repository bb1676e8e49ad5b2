# p2p_desktop

The rules of a desktop program that sends files directly to authenticated peers:
tasks and their durable store, the task protocol and its wire format, transfers,
publication without loss, speed tests, the network session and what the window
shows of all this. Everything under `src/` is verified with Verus.

## Layout

- `task_model`, `task_record`, `task_events`, `task_store`, `task_recovery`:
  tasks, what may become of them, and the store whose changes are durable before
  they count.
- `identity`, `manifest`, `chunker`, `paths`: who peers are, what a file is, and
  which names are portable.
- `protocol`, `codec`, `wire`, `frame_budget`: messages, their bytes, and how much
  memory frames may take.
- `transfer`, `transfer_files`, `transfer_loops`, `exchange`, `progress`, `queue`,
  `fair_writes`: what moves, in which order, and what its failures mean.
- `publish`, `publish_recovery`, `calendar`, `secure_fs`, `files`, `selection`: how
  received files get in their place and selections are read.
- `speed`, `speed_control`, `activity`: speed tests, which exclude transfers.
- `session`, `network_state`, `config`, `startup`, `instance_lock`, `cli`: the
  session with the signal server, the settings and how the program starts.
- `boards`, `shell`, `text_input`: what the window holds.
- `error`, `lists`, `text`: shared by the others.

Decisions and outside work are kept apart: a state machine of the library says
what is to be done next, `app/` does it and hands back what happened.
`tests/` runs the library against its real dependencies.
