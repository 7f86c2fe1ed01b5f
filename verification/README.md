# minicon

The logic of MiniCon, a small console host with a tab tree, a control
endpoint and a tmux-style command line, written in Verus and proved against
its contracts.

`src/` is the verified library:

- `composer` — the single-line input: editing, the byte limit, pasting as one
  line, and the window of the line that fits its box.
- `cli`, `command`, `wire`, `wire_law`, `frame`, `bytes` — the control
  command line, the binary wire format of commands and replies, and the
  frames on the connection; the encoding is proved unambiguous and
  prefix-free.
- `control_queue`, `control_pending`, `reply_slot`, `clock` — the bounded
  request and connection queues, the replay cache that answers a retried
  request id without running it twice, and pending waits and screenshots,
  each reply handed back exactly once.
- `mux`, `mux_plan` — the tmux-compatible front: formats, targets, keys,
  the tab list and the verbs.
- `harness`, `harness_wire`, `json` — the agent harness's command line, HTTP
  outcomes and model replies, over a JSON tree.
- `session_store`, `a11y`, `status_bar`, `palette`, `ime_mode`, `perf`,
  `snapshot`, `host_rules`, `features`, `offline`, `startup`,
  `terminal_replies`, `control_keys`, `search`, `text`, `tab`, `budget` —
  the host's smaller rules.

`app/` is the `minicon` command around it: process arguments, the socket,
the file system and JSON text. `tests/` exercises the library on concrete
values.
