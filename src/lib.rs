//! Storage, lookup, ranking and text layout for trained word-embedding vectors.
//!
//! Vector components are single-precision floats; the library holds each one
//! as its IEEE-754 bit pattern (`u32`) and never does float arithmetic itself.
pub mod error;
pub mod dict;
pub mod matrix;
pub mod model;
pub mod rank;
pub mod text;
