use chunker::chunking::ChunkError;
use chunker::chunking::ChunkResult;
use chunker::chunking::ParallelChunker;
use chunker::chunking::SequentialChunker;

fn seq_chunker() -> SequentialChunker {
    SequentialChunker::new().expect("the cl100k vocabulary should load")
}

fn par_chunker() -> ParallelChunker {
    ParallelChunker::new().expect("the cl100k vocabulary should load")
}

/// The full token stream of a text, read back through the passthrough case:
/// with a huge chunk budget the whole stream is one chunk.
fn full_encoding(text: &str) -> Vec<u32> {
    let r = seq_chunker()
        .chunk(text.to_string(), usize::MAX, 0)
        .expect("a single-chunk call must succeed");
    assert_eq!(r.chunk_token_ids.len(), 1);
    r.chunk_token_ids.into_iter().next().unwrap()
}

/// Re-assembles chunk token ids: every chunk after the first loses its
/// first `overlap` ids.
fn reassemble(ids: &[Vec<u32>], overlap: usize) -> Vec<u32> {
    let mut out: Vec<u32> = Vec::new();
    for (k, chunk) in ids.iter().enumerate() {
        if k == 0 {
            out.extend_from_slice(chunk);
        } else {
            out.extend_from_slice(&chunk[overlap..]);
        }
    }
    out
}

#[test]
fn short_text_is_one_verbatim_chunk() {
    // Five single-token words: encoding length 5 <= max_chunk_size 10.
    let text = "a b c d e";
    let r = seq_chunker().chunk(text.to_string(), 10, 0).unwrap();
    assert_eq!(r.chunks, vec![text.to_string()]);
    assert_eq!(r.chunk_token_ids.len(), 1);
    assert_eq!(r.total_token_count, 5);
    assert_eq!(r.chunk_token_ids[0].len(), 5);
}

#[test]
fn empty_text_is_one_empty_chunk() {
    let r = seq_chunker().chunk(String::new(), 4, 1).unwrap();
    assert_eq!(r.chunks, vec![String::new()]);
    assert_eq!(r.chunk_token_ids, vec![Vec::<u32>::new()]);
    assert_eq!(r.total_token_count, 0);
}

#[test]
fn ten_tokens_max_four_overlap_one() {
    // Ten single-token words; stride 3; windows [0..4), [3..7), [6..10).
    let text = "a b c d e f g h i j";
    let full = full_encoding(text);
    assert_eq!(full.len(), 10);

    let r = seq_chunker().chunk(text.to_string(), 4, 1).unwrap();
    assert_eq!(r.total_token_count, 10);
    assert_eq!(r.chunks.len(), 3);
    assert_eq!(r.chunk_token_ids.len(), 3);
    assert_eq!(r.chunk_token_ids[0].len(), 4);
    assert_eq!(r.chunk_token_ids[1].len(), 4);
    assert_eq!(r.chunk_token_ids[2].len(), 4);
    assert_eq!(r.chunk_token_ids[0], full[0..4].to_vec());
    assert_eq!(r.chunk_token_ids[1], full[3..7].to_vec());
    assert_eq!(r.chunk_token_ids[2], full[6..10].to_vec());
    assert_eq!(r.chunks[0], "a b c d");
    assert_eq!(r.chunks[1], " d e f g");
    assert_eq!(r.chunks[2], " g h i j");
    assert_eq!(reassemble(&r.chunk_token_ids, 1), full);
}

#[test]
fn chunk_count_follows_sliding_window_formula() {
    // Ten tokens, max_chunk_size 4, overlap 2: stride 2,
    // count = ceil((10 - 2) / 2) = 4, last chunk holds 10 - 3 * 2 = 4 ids.
    let text = "a b c d e f g h i j";
    let r = seq_chunker().chunk(text.to_string(), 4, 2).unwrap();
    assert_eq!(r.total_token_count, 10);
    assert_eq!(r.chunks.len(), 4);
    assert_eq!(r.chunk_token_ids.len(), 4);
    assert_eq!(r.chunk_token_ids[3].len(), 4);
    assert_eq!(reassemble(&r.chunk_token_ids, 2), full_encoding(text));
}

#[test]
fn stride_one_covers_every_offset() {
    // overlap = max_chunk_size - 1: stride 1, count = ceil((10 - 3) / 1) = 7.
    let text = "a b c d e f g h i j";
    let r = seq_chunker().chunk(text.to_string(), 4, 3).unwrap();
    assert_eq!(r.chunks.len(), 7);
    let full = full_encoding(text);
    for (k, ids) in r.chunk_token_ids.iter().enumerate() {
        assert_eq!(*ids, full[k..k + 4].to_vec());
    }
    assert_eq!(reassemble(&r.chunk_token_ids, 3), full);
}

#[test]
fn overlap_equal_to_max_is_invalid() {
    let r = seq_chunker().chunk("a b c d e f g h i j".to_string(), 4, 4);
    assert_eq!(r.unwrap_err(), ChunkError::InvalidArgument);
}

#[test]
fn overlap_above_max_is_invalid_even_for_empty_text() {
    let r = seq_chunker().chunk(String::new(), 4, 5);
    assert_eq!(r.unwrap_err(), ChunkError::InvalidArgument);
    let r = par_chunker().chunk(String::new(), 4, 5);
    assert_eq!(r.unwrap_err(), ChunkError::InvalidArgument);
}

#[test]
fn zero_max_chunk_size_is_invalid() {
    let r = seq_chunker().chunk("anything".to_string(), 0, 0);
    assert_eq!(r.unwrap_err(), ChunkError::InvalidArgument);
}

fn assert_same_output(a: ChunkResult, b: ChunkResult) {
    assert_eq!(a.chunks, b.chunks);
    assert_eq!(a.chunk_token_ids, b.chunk_token_ids);
    assert_eq!(a.total_token_count, b.total_token_count);
}

#[test]
fn parallel_output_equals_sequential_output() {
    let text = "The quick brown fox jumps over the lazy dog. \
                Pack my box with five dozen liquor jugs. \
                Sphinx of black quartz, judge my vow.";
    for (max, ov) in [(4, 1), (4, 2), (4, 3), (7, 0), (10, 5), (1000, 0)] {
        let s = seq_chunker().chunk(text.to_string(), max, ov).unwrap();
        let p = par_chunker().chunk(text.to_string(), max, ov).unwrap();
        assert_same_output(s, p);
    }
}

#[test]
fn parallel_single_chunk_matches_sequential() {
    let text = "a b c d e";
    let s = seq_chunker().chunk(text.to_string(), 10, 0).unwrap();
    let p = par_chunker().chunk(text.to_string(), 10, 0).unwrap();
    assert_eq!(p.chunks, vec![text.to_string()]);
    assert_eq!(p.total_token_count, 5);
    assert_same_output(s, p);
}

#[test]
fn window_cut_inside_a_character_is_an_integrity_failure() {
    // Each emoji is several tokens of partial UTF-8 bytes, so some window
    // boundary falls inside a character and that window is not valid text.
    // Each of these emojis encodes to two tokens, so a window of three
    // tokens ends halfway through the second character.
    let text = "\u{1F600}\u{1F601}\u{1F602}\u{1F603}\u{1F604}\u{1F605}";
    let n = full_encoding(text).len();
    assert!(n > 3);
    let r = seq_chunker().chunk(text.to_string(), 3, 0);
    assert_eq!(r.unwrap_err(), ChunkError::DecodingIntegrityFailure);
    let r = par_chunker().chunk(text.to_string(), 3, 0);
    assert_eq!(r.unwrap_err(), ChunkError::DecodingIntegrityFailure);
}

#[test]
fn long_text_reassembles_for_both_strategies() {
    let text = "one two three four five six seven eight nine ten \
                eleven twelve thirteen fourteen fifteen sixteen";
    let full = full_encoding(text);
    assert!(full.len() > 8);
    for chunker_output in [
        seq_chunker().chunk(text.to_string(), 8, 3).unwrap(),
        par_chunker().chunk(text.to_string(), 8, 3).unwrap(),
    ] {
        assert_eq!(chunker_output.total_token_count, full.len());
        assert_eq!(reassemble(&chunker_output.chunk_token_ids, 3), full);
        assert_eq!(
            chunker_output.chunks.len(),
            chunker_output.chunk_token_ids.len()
        );
    }
}
