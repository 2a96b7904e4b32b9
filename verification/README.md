# zelland (verified core)

The logic of the zelland terminal client and of its companion daemon, written
in Verus. The functions in `src/` carry contracts that Verus proves, and the
laws that tie the functions together are proof functions (`law_*`). The calls
into outside crates and into the parts of std that Verus has no
specification for go through a few small wrappers marked
`#[verifier::external_body]` (and the names, `uninterp spec fn`, that they
use): Verus believes their contracts without proof, and each one says in its
doc comment what it claims of the outside function.

- `src/` — the library. The daemon side: `sync` (y-websocket framing), `store`,
  `markdown_laws` and `anchor_laws` (the Markdown comments section and code
  block anchors), `kdl_store`,
  `kdl_tree` and `kdl_laws` (KDL sidecars), `quote_anchor` and `annotate` (inline markers),
  `ann_doc` (annotation documents), `assets`, `watcher` and `events` (assets,
  file changes, triggers), `projects`, `sessions`, `config`, `paths`. The
  client side: `helper` and `helper_setup` (the remote helper), `remote`,
  `ssh_sessions`, `mouse`, `notifications`, `keystore`, `tunnel`, `renderer`
  and `row_runs`. `text` and `keyed` hold shared helpers.
- `tests/` — tests of the library, run against the real outside crates.
- `app/` — the `zlnd` command line: file system, clock, environment, JSON,
  and the processes it runs, around the library.
