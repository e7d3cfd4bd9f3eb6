//! Nerve: identity, vocabularies and the pure readers of the evidence graph.
#![allow(unused_imports)]

pub mod text;
pub mod order;
pub mod error;
pub mod vocab;
pub mod model;
pub mod ids;
pub mod config;
pub mod discover;
pub mod docref;
pub mod contracts;
pub mod docs;
pub mod coverage;
pub mod coverage_ingest;
pub mod bind;
pub mod exports;
pub mod dump;
