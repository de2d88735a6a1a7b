//! Polling change-detection engine and dev-loop orchestration for a
//! file-based compiler toolchain.
//!
//! The library keeps a live mirror of a directory tree (`WatchNode`), diffs it
//! against a snapshot of the filesystem on every poll pass, and emits a
//! minimal stream of create/modify/remove events.  Around that core sit a
//! path filter, a fingerprint component, a poll scheduler, a live-reload
//! batch encoder and the dev-session state machine.  All filesystem and
//! network access stays outside the library: callers hand in plain values.

pub mod filter;
pub mod fingerprint;
pub mod node;
pub mod notifier;
pub mod orchestrator;
pub mod laws;
pub mod poll;
pub mod scheduler;
pub mod snapshot;
pub mod watch;
