//! The compositor's side: what is asked of it, and what it announces.

pub mod management;
pub mod toplevel;
pub mod workspace;
