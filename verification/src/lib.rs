//! Batch transcoding of transport-stream files: a byte-level model of
//! filesystem paths, candidate selection during a directory walk, and the
//! per-file conversion bookkeeping (delete the source only after a
//! successful conversion).

pub mod cli;
pub mod converter;
pub mod path_model;
pub mod walker;
