//! Decoding and merging of AT-TPC acquisition data.
//!
//! The library parses GET `.graw` frames and FRIBDAQ `.evt` ring items from
//! in-memory byte buffers, merges per-board frame streams into one stream
//! ordered by event id, and assembles frames of equal event id into events
//! whose hardware coordinates are remapped to pad identifiers.

pub mod bytes;
pub mod config;
pub mod constants;
pub mod error;
pub mod graw_frame;
pub mod pad_map;
pub mod event;
pub mod event_builder;
pub mod merger;
pub mod ring_item;
pub mod text;
