//! A streaming binary encoder for columnar record batches.
//!
//! The library serializes an in-memory sequence of typed columnar arrays
//! (including nested and dictionary-encoded columns) into a self-describing,
//! length-framed byte stream with strict 8-byte alignment throughout.  Each
//! message of the stream is a metadata table followed by an individually
//! padded body; dictionary values are deduplicated across the stream by a
//! dictionary tracker, and the whole stream ends with a zero-length
//! continuation marker.

pub mod char_vec;
pub mod error;
pub mod framing;
pub mod laws;
pub mod message;
pub mod model;
pub mod stream;
pub mod tracker;
