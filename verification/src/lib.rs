//! Core of an application launcher: a plugin registry routes the typed input
//! to candidate providers, a fuzzy matcher ranks the candidates, a generation
//! counter with a kill switch keeps stale results from ever reaching the UI,
//! and a small state machine turns a launched entry into a process-level
//! effect.

pub mod dispatch;
pub mod engine;
pub mod matcher;
pub mod plugin;
pub mod search;
