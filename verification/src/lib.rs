//! Resource-state synchronisation for a runtime-introspection tool.
//!
//! An instrumented process, the subject, summarises its raw resource events
//! into periodic [`resources::ResourceUpdate`] snapshots ([`aggregator`]).
//! An observer merges the ordered stream of snapshots into one live view
//! ([`reconciler`]) and keeps track of the channel they come by
//! ([`channel`]). The messages have a binary encoding addressed by field
//! numbers ([`wire`]).
//!
//! Every function of this crate is verified against its contract.
pub mod text;
pub mod keys;
pub mod common;
pub mod resources;
pub mod reconciler;
pub mod aggregator;
pub mod channel;
pub mod wire;
