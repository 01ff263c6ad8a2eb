//! Composition engine of an immediate-mode UI library.
//!
//! Each frame, application code rebuilds the whole widget tree: elements open
//! child elements, route them into named sockets on their parents, persist
//! small typed values across frames through a positional state cache, and
//! produce a tree of deferred layout nodes that is rendered once regions are
//! assigned. The tree is discarded wholesale at frame end; only the state
//! cache survives.

pub mod space;
pub mod render;
pub mod layout;
pub mod error;
pub mod state;
pub mod element;
pub mod children;
pub mod filter;
pub mod context;
pub mod wrap;
pub mod panel;
pub mod fill;
pub mod hover;
pub mod widgets;
pub mod laws;
