//! Workspace placement for the COSMIC desktop: the decisions of a daemon that
//! routes new windows onto workspaces, follows the active workspace, checks
//! that requested switches happen, and reconnects with a bounded backoff.
//!
//! Nothing here talks to a compositor. Each function takes a snapshot of what
//! the compositor announced and the daemon's own state, and answers with the
//! next state and the requests to send.

pub mod app;
pub mod config;
pub mod effects;
pub mod ids;
pub mod jump;
pub mod laws;
pub mod mru_jump;
pub mod placement;
pub mod reconnect;
pub mod runtime;
pub mod search;
pub mod state;
pub mod text;
pub mod verify;
pub mod wayland;
pub mod world;
