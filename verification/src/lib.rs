//! Verified core logic of the zelland terminal client and its `zellandd` daemon:
//! the y-websocket sync framing, the Markdown comment store and the annotation
//! documents, the KDL sidecar formats, quote anchoring, assets and the file
//! watcher's decisions, README excerpts and recent sessions; on the client
//! side the remote helper's setup machine, SSH sessions, touch input, the
//! WireGuard configuration check, and the renderer's row runs and captured
//! frames.

pub mod sync;
pub mod text;
pub mod keyed;
pub mod annotations;
pub mod store;
pub mod quote_anchor;
pub mod kdl_tree;
pub mod kdl_store;
pub mod kdl_laws;
pub mod paths;
pub mod config;
pub mod watcher;
pub mod sessions;
pub mod projects;
pub mod helper;
pub mod keystore;
pub mod renderer;
pub mod remote;
pub mod markdown_laws;
pub mod anchor_laws;
pub mod ann_doc;
pub mod annotate;
pub mod assets;
pub mod events;
pub mod helper_setup;
pub mod notifications;
pub mod mouse;
pub mod ssh_sessions;
pub mod tunnel;
pub mod row_runs;
