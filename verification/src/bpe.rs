//! Trusted boundary to the `tiktoken_rs` byte-pair-encoding tokenizer and to
//! rayon's parallel map.
//!
//! Every encoder value in this crate is built by `tiktoken_rs::cl100k_base`,
//! so encoding and decoding are deterministic functions of the text or the
//! token ids alone; the two uninterpreted spec functions below name those
//! results, and every contract in the crate speaks of them.

use vstd::prelude::*;
use tiktoken_rs::CoreBPE;
use rayon::iter::IntoParallelRefIterator;
use rayon::iter::ParallelIterator;

verus! {

#[verifier::external_type_specification]
#[verifier::external_body]
pub struct ExCoreBPE(CoreBPE);

/// The token ids that the fixed cl100k vocabulary assigns to a text.
pub uninterp spec fn cl100k_encoding_of(text: Seq<char>) -> Seq<u32>;

/// The text that the fixed cl100k vocabulary decodes a run of token ids to:
/// the concatenation of each id's bytes, read back as text, or `None` when an
/// id is unknown or the bytes are not valid text.
pub uninterp spec fn cl100k_decoding_of(ids: Seq<u32>) -> Option<Seq<char>>;

/// What one decoding outcome says: the text that came back, if any, is the
/// decoding of the ids, and nothing came back only where the ids do not
/// decode to valid text.
pub open spec fn decode_obs(r: Option<String>, ids: Seq<u32>) -> bool {
    match r {
        Some(s) => cl100k_decoding_of(ids) == Some(s@),
        None => cl100k_decoding_of(ids) is None,
    }
}

/// Relies on tiktoken_rs::cl100k_base: it constructs an encoder for the fixed
/// cl100k vocabulary, and fails only when that vocabulary cannot be loaded.
#[verifier::external_body]
pub(crate) fn load_cl100k() -> (r: Option<CoreBPE>) {
    tiktoken_rs::cl100k_base().ok()
}

/// Relies on tiktoken_rs::CoreBPE::encode_ordinary: a deterministic function
/// of the text and the encoder's vocabulary. Every encoder in this crate
/// holds the fixed cl100k vocabulary, so the result is `cl100k_encoding_of`
/// of the text.
#[verifier::external_body]
pub(crate) fn encode_text(enc: &CoreBPE, text: &str) -> (r: Vec<u32>)
    ensures
        r@ == cl100k_encoding_of(text@),
{
    enc.encode_ordinary(text)
}

/// Relies on tiktoken_rs::CoreBPE::decode_bytes, a deterministic lookup and
/// concatenation of each token id's bytes in the encoder's vocabulary, and on
/// String::from_utf8. Every encoder in this crate holds the fixed cl100k
/// vocabulary, so the composite outcome is `cl100k_decoding_of` of the ids.
#[verifier::external_body]
pub(crate) fn decode_window(enc: &CoreBPE, ids: &Vec<u32>) -> (r: Option<String>)
    ensures
        r matches Some(s) ==> cl100k_decoding_of(ids@) == Some(s@),
        r is None ==> cl100k_decoding_of(ids@) is None,
{
    match enc.decode_bytes(ids.as_slice()) {
        Ok(bytes) => String::from_utf8(bytes).ok(),
        Err(_) => None,
    }
}

/// Relies on rayon's par_iter/map/collect: the closure runs once per window
/// and the results are collected in the windows' original order; and on the
/// same decoding calls as `decode_window`, so each outcome is the
/// `cl100k_decoding_of` of its window.
#[verifier::external_body]
pub(crate) fn decode_windows_parallel(enc: &CoreBPE, windows: &Vec<Vec<u32>>) -> (r: Vec<
    Option<String>,
>)
    ensures
        r@.len() == windows@.len(),
        forall|i: int|
            0 <= i < r@.len() ==> match #[trigger] r@[i] {
                Some(s) => cl100k_decoding_of(windows@[i]@) == Some(s@),
                None => cl100k_decoding_of(windows@[i]@) is None,
            },
{
    windows.par_iter().map(
        |ids| match enc.decode_bytes(ids.as_slice()) {
            Ok(bytes) => String::from_utf8(bytes).ok(),
            Err(_) => None,
        },
    ).collect()
}

} // verus!
