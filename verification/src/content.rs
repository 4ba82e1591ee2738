//! Content and the pieces it is written as.
pub mod subcontent;
