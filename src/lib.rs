//! Cursor and clipboard mirroring agent: pixel recovery, content-addressed
//! cursor cache, per-client scaling and the per-session messaging rules.

pub mod cache;
pub mod capture;
pub mod clipboard;
pub mod digest;
pub mod dpr;
pub mod encode;
pub mod message;
pub mod pixels;
pub mod probe;
pub mod session;
