//! Workshop search session core: BBCode description normalization, cursor-based
//! search pagination state, creator-name resolution, and the selection loop's
//! decision logic. All I/O (catalog queries, identity lookup, terminal
//! interaction, the installer) lives outside this crate and hands plain values
//! in and out.

pub mod config;
pub mod properties;
pub mod select;
pub mod session;
pub mod text;
