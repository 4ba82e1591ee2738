//! The manifest reader/writer and its model.
pub mod manifest_spec;
pub mod manifest_writer;
pub mod manifest_laws;
