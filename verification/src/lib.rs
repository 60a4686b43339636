//! Splits text into overlapping token-bounded chunks for pipelines with a
//! fixed context-window limit.
//!
//! The text is encoded with a fixed byte-pair-encoding vocabulary, the token
//! stream is cut into windows of at most `max_chunk_size` tokens whose starts
//! are `max_chunk_size - overlap` apart, and each window is decoded back to
//! text. A sequential and a parallel chunker share that core and are proved
//! to return the same outcome for the same inputs.

pub mod bpe;
pub mod chunking;
pub mod windowing;
