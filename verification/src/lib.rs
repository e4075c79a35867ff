//! A library for inspecting PostgreSQL v3 wire-protocol traffic.
//!
//! The crate decodes length-prefixed protocol frames, renders each message
//! as log lines, tracks per-request timing, and can lay result rows out as
//! a bordered table.  A companion module speaks the frontend side of the
//! protocol for a diagnostic client.

pub mod frame;
pub mod inspect;
pub mod logging;
pub mod table_formatter;
pub mod protocol;
pub mod strutil;
