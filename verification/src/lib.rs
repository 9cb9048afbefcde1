//! A minimal metrics exporter core: parsers that turn the text output of
//! system-introspection commands into structured metric records, a snapshot
//! store holding the latest complete collection, and a renderer that writes
//! the records in a line-oriented exposition format.
//!
//! The surrounding program invokes the external commands, drives the
//! collection loop, and serves the exposition endpoint; this crate holds the
//! pure logic: line classification, the four source parsers, the snapshot
//! store, and the renderer.

pub mod text;
pub mod value;
pub mod record;
pub mod store;
pub mod parsers;
pub mod adapter;
pub mod render;
pub mod laws;
