//! What the library is for, operation by operation: what a user may rely on after a call, in
//! terms of what went in and what came out.
pub mod records;
pub mod rotation;
pub mod conflicts;
pub mod search;
pub mod auditing;
pub mod importing;
pub mod merging;
pub mod unlocking;
pub mod generating;
pub mod syncing;
pub mod commands;
pub mod screens;
pub mod texts;
pub mod reports;
