# omarchy-workspaces

A workspace and project manager that sits on top of Hyprland: named projects,
each with a named workspace of its own, windows that find their project by
rules, and projects that reopen themselves in dependency order.

The decisions are a library verified by Verus: every function of its own is
proved to meet its contract. What is believed without proof are the contracts
of the calls into other crates, in `src/outside.rs`, and of `String::push`, in
`src/text.rs`; two of those calls only convert values and claim nothing. The
programs around the library only read, write, wait and draw.

- `src/domain` — projects, slugs, workspace names, rules, launch order, restore
  plans, search, configuration and the model of the desktop.
- `src/hypr` — Hyprland's addresses, events, dispatches and their errors.
- `src/daemon` — the state actor and its requests (projects, groups, saving,
  importing, searching), restore runs and the arrangement after them, autosave
  and recovery, capture of running programs, browser sessions and update checks.
- `src/storage` — where things are kept and which files are refused.
- `src/cli`, `src/panel` — what the two clients say, send and show.
- `src/proto.rs` — what travels between daemon and clients.
- `src/text.rs`, `src/pieces.rs`, `src/numbers.rs`, `src/tables.rs`,
  `src/paths.rs`, `src/json.rs`, `src/document.rs` — the groundwork.
- `src/outside.rs` — the calls into other crates and what is taken for granted
  of them.
- `app` — the daemon, the command-line client and the panel.

Properties that span several functions stand beside what they are about, as
proof functions named `law_…`.
