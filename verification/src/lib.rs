//! Construction of ffmpeg filtergraph strings from Kdenlive (MLT) project
//! documents.
//!
//! The crate models an MLT document as a tree of [`mlt::Element`] values,
//! recognizes the supported color filters on playlist entries, renders each
//! one as an ffmpeg filter-expression fragment, and rewrites the document
//! text line by line so that every producer with a recognized filter chain
//! carries a single aggregated `filtergraph` property.

pub mod ffmpeg;
pub mod mlt;
pub mod num;
pub mod text;
