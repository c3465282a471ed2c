//! Predictive per-point compression of the 20-byte LAS "Point10" record
//! (point data record format 0), wire-compatible with the LASzip schemes
//! known as version 1 and version 2.
//!
//! The crate is organised leaves-first: the bit-packed record view
//! ([`point0`]), small helpers ([`utils`]), the adaptive probability
//! models ([`models`]), the arithmetic range coder ([`encoders`],
//! [`decoders`]), the integer residual coder ([`compressors`],
//! [`decompressors`]), and the two per-point codecs ([`v1`], [`v2`]).

pub mod point0;
pub mod utils;
pub mod models;
pub mod encoders;
pub mod decoders;
pub mod compressors;
pub mod decompressors;
pub mod v1;
pub mod v2;
