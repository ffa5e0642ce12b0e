# zellij_tools

The logic of the zellij-tools plugin and its command-line client, as a
library whose functions carry Verus contracts and proofs.

- `src/` is the verified library: pipe message parsing and request routing
  (`message`, `request`, `focus`), the client's messages and subscribe
  handshake (`client`), the event stream and its subscribers (`events`,
  `stream`), scratchpads (`scratchpad`: configuration, manager, listing,
  status, shared registry, persisted state), pane statuses (`pane_status`,
  `pane_statuses`), zjstatus configuration, rendering and publication
  (`zjstatus`, `publisher`, `zjstatus_runtime`), stable tab IDs
  (`stable_tabs`), the session tree (`tree`), claim keys of broadcast pipe
  messages (`pipe_claim`), and configuration path resolution (`config`). KDL parsing goes through the `kdl` crate, JSON
  string escaping through `serde_json` and message hashing through std's
  `DefaultHasher`, each behind a small trusted wrapper.
- `tests/` exercises the library on concrete values.
- `app/` is the unverified shell: the command-line program (argument parsing
  with clap, child processes, Ctrl-C handling), the zellij plugin glue, file
  and environment access, JSON forms of the library's values, and the
  floating-point viewport arithmetic of pane placements.
