//! Token-bounded chunking of text: encode, partition the token stream into
//! overlapping windows, decode each window back to text.
//!
//! The two chunkers share one windowing core and one result model; they
//! differ only in whether the windows are decoded one after another or
//! concurrently, and their contracts pin both to the same outcome.

use vstd::prelude::*;
use tiktoken_rs::CoreBPE;
use crate::bpe::cl100k_encoding_of;
use crate::bpe::cl100k_decoding_of;
use crate::bpe::decode_obs;
use crate::bpe::load_cl100k;
use crate::bpe::encode_text;
use crate::bpe::decode_window;
use crate::bpe::decode_windows_parallel;
use crate::windowing::spec_windows;
use crate::windowing::spec_stride;
use crate::windowing::window_count;
use crate::windowing::compute_windows;
use crate::windowing::reassembled;
use crate::windowing::lemma_reassembly;
use crate::windowing::lemma_window_count;

verus! {

/// Why a chunking call, or the construction of a chunker, failed.
#[derive(Clone, Copy, Debug, PartialEq, Eq, Structural)]
pub enum ChunkError {
    /// The tokenizer vocabulary could not be loaded.
    InitializationFailure,
    /// `overlap >= max_chunk_size` (which subsumes `max_chunk_size == 0`):
    /// the window starts would not advance.
    InvalidArgument,
    /// Some window decoded to bytes that are not valid text: a tokenizer or
    /// vocabulary mismatch, not a recoverable condition.
    DecodingIntegrityFailure,
}

/// The output of a chunking call. `chunks` and `chunk_token_ids` are
/// parallel: element `i` of the one is the decoding of element `i` of the
/// other.
#[derive(Debug)]
pub struct ChunkResult {
    /// The decoded text of each window, in ascending window order.
    pub chunks: Vec<String>,
    /// The token ids of each window, in ascending window order.
    pub chunk_token_ids: Vec<Vec<u32>>,
    /// The length of the full token stream of the input text.
    pub total_token_count: usize,
}

/// A chunking outcome, mathematically: the chunk texts, the chunk token ids,
/// and the total token count, or the error.
pub type ChunkOutcome = Result<(Seq<Seq<char>>, Seq<Seq<u32>>, int), ChunkError>;

/// The mathematical content of a `ChunkResult`.
pub open spec fn spec_chunk_view(r: ChunkResult) -> (Seq<Seq<char>>, Seq<Seq<u32>>, int) {
    (r.chunks.deep_view(), r.chunk_token_ids.deep_view(), r.total_token_count as int)
}

/// The mathematical content of what a chunking call returned.
pub open spec fn chunk_outcome(r: Result<ChunkResult, ChunkError>) -> ChunkOutcome {
    match r {
        Ok(res) => Ok(spec_chunk_view(res)),
        Err(e) => Err(e),
    }
}

/// Whether every window decodes to valid text.
pub open spec fn all_windows_decodable(ws: Seq<Seq<u32>>) -> bool {
    forall|i: int| 0 <= i < ws.len() ==> (#[trigger] cl100k_decoding_of(ws[i])) is Some
}

/// The decoded text of each window, in window order.
pub open spec fn decoded_texts(ws: Seq<Seq<u32>>) -> Seq<Seq<char>> {
    Seq::new(ws.len(), |i: int| cl100k_decoding_of(ws[i])->Some_0)
}

/// What chunking returns, for every input. An input whose whole token stream
/// fits in one chunk is passed through verbatim, without a decode round
/// trip; otherwise the stream is cut into overlapping windows and each
/// window is decoded on its own.
pub open spec fn spec_chunking(text: Seq<char>, max_chunk_size: int, overlap: int) -> ChunkOutcome {
    if overlap >= max_chunk_size {
        Err(ChunkError::InvalidArgument)
    } else {
        let toks = cl100k_encoding_of(text);
        if toks.len() <= max_chunk_size {
            Ok((seq![text], seq![toks], toks.len() as int))
        } else {
            let ws = spec_windows(toks, max_chunk_size, overlap);
            if all_windows_decodable(ws) {
                Ok((decoded_texts(ws), ws, toks.len() as int))
            } else {
                Err(ChunkError::DecodingIntegrityFailure)
            }
        }
    }
}

/// Decodes every window, one after another, on the calling thread.
fn decode_all_sequential(enc: &CoreBPE, windows: &Vec<Vec<u32>>) -> (r: Vec<Option<String>>)
    ensures
        r@.len() == windows@.len(),
        forall|i: int| 0 <= i < r@.len() ==> #[trigger] decode_obs(r@[i], windows@[i]@),
{
    let mut r: Vec<Option<String>> = Vec::new();
    let mut i: usize = 0;
    while i < windows.len()
        invariant
            i == r@.len() <= windows@.len(),
            forall|j: int| 0 <= j < r@.len() ==> #[trigger] decode_obs(r@[j], windows@[j]@),
        decreases windows@.len() - i,
    {
        r.push(decode_window(enc, &windows[i]));
        i = i + 1;
    }
    r
}

/// Pairs each window with its decoded text, failing the whole call when any
/// window did not decode to valid text.
fn assemble(windows: Vec<Vec<u32>>, decoded: Vec<Option<String>>, total: usize) -> (r: Result<
    ChunkResult,
    ChunkError,
>)
    requires
        decoded@.len() == windows@.len(),
        forall|i: int| 0 <= i < decoded@.len() ==> #[trigger] decode_obs(decoded@[i], windows@[i]@),
    ensures
        all_windows_decodable(windows.deep_view()) ==> (r matches Ok(res) && spec_chunk_view(res)
            == (decoded_texts(windows.deep_view()), windows.deep_view(), total as int)),
        !all_windows_decodable(windows.deep_view()) ==> r == Err::<ChunkResult, ChunkError>(
            ChunkError::DecodingIntegrityFailure,
        ),
{
    let ghost ws = windows.deep_view();
    proof {
        assert forall|j: int| 0 <= j < ws.len() implies ws[j] == windows@[j]@ by {
            assert(windows@[j].deep_view() =~= windows@[j]@);
        }
    }
    let mut chunks: Vec<String> = Vec::new();
    let mut i: usize = 0;
    while i < decoded.len()
        invariant
            decoded@.len() == windows@.len(),
            forall|j: int|
                0 <= j < decoded@.len() ==> #[trigger] decode_obs(decoded@[j], windows@[j]@),
            ws == windows.deep_view(),
            forall|j: int| 0 <= j < ws.len() ==> #[trigger] ws[j] == windows@[j]@,
            i == chunks@.len() <= decoded@.len(),
            forall|j: int|
                0 <= j < i ==> cl100k_decoding_of(ws[j]) == Some(#[trigger] chunks@[j]@),
        decreases decoded@.len() - i,
    {
        proof {
            assert(decode_obs(decoded@[i as int], windows@[i as int]@));
        }
        match &decoded[i] {
            Some(s) => {
                chunks.push(s.clone());
            },
            None => {
                proof {
                    assert(cl100k_decoding_of(ws[i as int]) is None);
                }
                return Err(ChunkError::DecodingIntegrityFailure);
            },
        }
        i = i + 1;
    }
    proof {
        assert forall|j: int| 0 <= j < ws.len() implies (#[trigger] cl100k_decoding_of(
            ws[j],
        )) is Some by {
            assert(cl100k_decoding_of(ws[j]) == Some(chunks@[j]@));
        }
        assert(chunks.deep_view() =~~= decoded_texts(ws));
    }
    Ok(ChunkResult { chunks, chunk_token_ids: windows, total_token_count: total })
}

/// The shared chunking core: validate the arguments, encode, pass a short
/// stream through verbatim, otherwise window and decode, either one window
/// after another or concurrently.
fn run_chunking(enc: &CoreBPE, text: String, max_chunk_size: usize, overlap: usize, parallel: bool)
    -> (r: Result<ChunkResult, ChunkError>)
    ensures
        chunk_outcome(r) == spec_chunking(text@, max_chunk_size as int, overlap as int),
{
    if overlap >= max_chunk_size {
        return Err(ChunkError::InvalidArgument);
    }
    let ghost t = text@;
    let tokens = encode_text(enc, text.as_str());
    let total = tokens.len();
    if total <= max_chunk_size {
        let ghost toks = tokens@;
        let res = ChunkResult {
            chunks: vec![text],
            chunk_token_ids: vec![tokens],
            total_token_count: total,
        };
        proof {
            assert(res.chunks.deep_view() =~~= seq![t]);
            assert(res.chunk_token_ids.deep_view() =~~= seq![toks]);
        }
        return Ok(res);
    }
    let windows = compute_windows(&tokens, max_chunk_size, overlap);
    let decoded = if parallel {
        decode_windows_parallel(enc, &windows)
    } else {
        decode_all_sequential(enc, &windows)
    };
    assemble(windows, decoded, total)
}

/// A chunker that decodes windows one at a time, in ascending window order.
pub struct SequentialChunker {
    encoder: CoreBPE,
}

/// A chunker whose output is identical to `SequentialChunker`'s for the same
/// inputs: windows are decoded concurrently and reassembled in ascending
/// window order.
pub struct ParallelChunker {
    encoder: CoreBPE,
}

impl SequentialChunker {
    /// Builds a chunker over the fixed cl100k vocabulary.
    pub fn new() -> (r: Result<SequentialChunker, ChunkError>)
        ensures
            r matches Err(e) ==> e == ChunkError::InitializationFailure,
    {
        match load_cl100k() {
            Some(encoder) => Ok(SequentialChunker { encoder }),
            None => Err(ChunkError::InitializationFailure),
        }
    }

    /// Splits `text` into overlapping token-bounded chunks, decoding one
    /// window after another on the calling thread.
    pub fn chunk(&self, text: String, max_chunk_size: usize, overlap: usize) -> (r: Result<
        ChunkResult,
        ChunkError,
    >)
        ensures
            chunk_outcome(r) == spec_chunking(text@, max_chunk_size as int, overlap as int),
    {
        run_chunking(&self.encoder, text, max_chunk_size, overlap, false)
    }
}

impl ParallelChunker {
    /// Builds a chunker over the fixed cl100k vocabulary.
    pub fn new() -> (r: Result<ParallelChunker, ChunkError>)
        ensures
            r matches Err(e) ==> e == ChunkError::InitializationFailure,
    {
        match load_cl100k() {
            Some(encoder) => Ok(ParallelChunker { encoder }),
            None => Err(ChunkError::InitializationFailure),
        }
    }

    /// Splits `text` into overlapping token-bounded chunks, decoding the
    /// windows concurrently; the result is the same as the sequential one.
    pub fn chunk(&self, text: String, max_chunk_size: usize, overlap: usize) -> (r: Result<
        ChunkResult,
        ChunkError,
    >)
        ensures
            chunk_outcome(r) == spec_chunking(text@, max_chunk_size as int, overlap as int),
    {
        run_chunking(&self.encoder, text, max_chunk_size, overlap, true)
    }
}

/// Law: when the whole token stream fits in one chunk, the outcome is
/// exactly one chunk holding the original text verbatim, its full token
/// sequence, and the stream's length as the total count.
pub proof fn lemma_single_chunk(text: Seq<char>, max_chunk_size: int, overlap: int)
    requires
        0 <= overlap < max_chunk_size,
        cl100k_encoding_of(text).len() <= max_chunk_size,
    ensures
        spec_chunking(text, max_chunk_size, overlap) == Ok::<_, ChunkError>((
            seq![text],
            seq![cl100k_encoding_of(text)],
            cl100k_encoding_of(text).len() as int,
        )),
{
}

/// Law: `overlap >= max_chunk_size` (so in particular `max_chunk_size == 0`)
/// is always rejected with `InvalidArgument`, for any text, before any
/// tokenization work.
pub proof fn lemma_invalid_argument(text: Seq<char>, max_chunk_size: int, overlap: int)
    requires
        overlap >= max_chunk_size,
    ensures
        spec_chunking(text, max_chunk_size, overlap) == Err::<(Seq<Seq<char>>, Seq<Seq<u32>>, int),
            ChunkError,
        >(ChunkError::InvalidArgument),
{
}

/// Law: a stream of more tokens than `max_chunk_size` yields
/// `ceil((n - overlap) / stride)` chunks, the last of which holds
/// `n - (count - 1) * stride` tokens, more than `overlap` of them.
pub proof fn lemma_chunk_count(text: Seq<char>, max_chunk_size: int, overlap: int)
    requires
        0 <= overlap < max_chunk_size,
        cl100k_encoding_of(text).len() > max_chunk_size,
        spec_chunking(text, max_chunk_size, overlap) is Ok,
    ensures
        ({
            let (chunks, ids, total) = spec_chunking(text, max_chunk_size, overlap)->Ok_0;
            let n = cl100k_encoding_of(text).len() as int;
            let st = spec_stride(max_chunk_size, overlap);
            let count = window_count(n, max_chunk_size, overlap);
            &&& chunks.len() == count
            &&& ids.len() == count
            &&& ids.last().len() == n - (count - 1) * st
            &&& ids.last().len() > overlap
        }),
{
    lemma_window_count(cl100k_encoding_of(text), max_chunk_size, overlap);
}

/// Law: for every successful outcome, concatenating the chunks' token ids
/// in order, dropping the first `overlap` ids of every chunk after the
/// first, reproduces the encoding of the input text exactly; and the total
/// token count is that encoding's length, however many chunks there are.
pub proof fn lemma_chunk_reassembly(text: Seq<char>, max_chunk_size: int, overlap: int)
    requires
        0 <= overlap,
        spec_chunking(text, max_chunk_size, overlap) is Ok,
    ensures
        ({
            let (chunks, ids, total) = spec_chunking(text, max_chunk_size, overlap)->Ok_0;
            &&& reassembled(ids, overlap) == cl100k_encoding_of(text)
            &&& total == cl100k_encoding_of(text).len()
            &&& chunks.len() == ids.len()
        }),
{
    let toks = cl100k_encoding_of(text);
    if toks.len() <= max_chunk_size {
        assert(reassembled(seq![toks], overlap) == toks);
    } else {
        lemma_reassembly(toks, max_chunk_size, overlap);
    }
}

/// Law: for identical inputs, the sequential and the parallel chunker agree:
/// any two outcomes that meet the two `chunk` contracts on the same text and
/// the same arguments carry the same chunks, the same chunk token ids and
/// the same total token count.
pub proof fn lemma_strategies_agree(
    r1: Result<ChunkResult, ChunkError>,
    r2: Result<ChunkResult, ChunkError>,
    text: Seq<char>,
    max_chunk_size: int,
    overlap: int,
)
    requires
        chunk_outcome(r1) == spec_chunking(text, max_chunk_size, overlap),
        chunk_outcome(r2) == spec_chunking(text, max_chunk_size, overlap),
    ensures
        chunk_outcome(r1) == chunk_outcome(r2),
{
}

} // verus!
