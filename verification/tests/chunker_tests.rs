use archiver::chunker::{split_document, ChunkConfig};
use archiver::document::Document;
use archiver::errors::ChunkError;

fn doc(id: u64, text: &str) -> Document {
    Document::new(id, text.as_bytes().to_vec(), Vec::new())
}

fn without_newlines(bytes: &[u8]) -> Vec<u8> {
    bytes.iter().copied().filter(|b| *b != b'\n').collect()
}

#[test]
fn document_construction_keeps_fields() {
    let d = Document::new(3, b"body".to_vec(), vec![(b"k".to_vec(), b"v".to_vec())]);
    assert_eq!(d.id, 3);
    assert_eq!(d.content, b"body".to_vec());
    assert_eq!(d.metadata.len(), 1);
}

#[test]
fn three_paragraph_document_gives_three_chunks() {
    // one paragraph is 3 bytes; the blank-line separators are folded away,
    // never indexed as chunks of their own
    let d = doc(1, "aaa\n\nbbb\n\nccc");
    let cfg = ChunkConfig { max_chunk_size: 3, overlap: 0 };
    let chunks = split_document(&d, &cfg).unwrap();
    assert_eq!(chunks.len(), 3);
    assert_eq!(chunks[0].content, b"aaa".to_vec());
    assert_eq!(chunks[1].content, b"bbb".to_vec());
    assert_eq!(chunks[2].content, b"ccc".to_vec());
    assert_eq!(chunks[0].sequence_index, 0);
    assert_eq!(chunks[1].sequence_index, 1);
    assert_eq!(chunks[2].sequence_index, 2);
}

#[test]
fn paragraph_cut_trims_separators() {
    // a larger cap cuts after the paragraph break and trims it off
    let d = doc(12, "aaa\n\nbbb\n\nccc");
    let cfg = ChunkConfig { max_chunk_size: 5, overlap: 0 };
    let chunks = split_document(&d, &cfg).unwrap();
    assert_eq!(chunks.len(), 3);
    assert_eq!(chunks[0].content, b"aaa".to_vec());
    assert_eq!(chunks[1].content, b"bbb".to_vec());
    assert_eq!(chunks[2].content, b"ccc".to_vec());
}

#[test]
fn concatenating_chunks_reproduces_content_modulo_whitespace() {
    let text = "# title\nline one\n\nsecond paragraph with some length\n\nthird";
    let d = doc(7, text);
    let cfg = ChunkConfig { max_chunk_size: 10, overlap: 0 };
    let chunks = split_document(&d, &cfg).unwrap();
    let mut rebuilt: Vec<u8> = Vec::new();
    for c in &chunks {
        rebuilt.extend_from_slice(&c.content);
    }
    assert_eq!(without_newlines(&rebuilt), without_newlines(text.as_bytes()));
}

#[test]
fn chunk_indices_are_contiguous_from_zero() {
    let d = doc(2, "abcdefghijklmnopqrstuvwxyz");
    let cfg = ChunkConfig { max_chunk_size: 4, overlap: 0 };
    let chunks = split_document(&d, &cfg).unwrap();
    assert!(chunks.len() > 1);
    for (i, c) in chunks.iter().enumerate() {
        assert_eq!(c.sequence_index, i);
        assert_eq!(c.source_document_id, 2);
    }
}

#[test]
fn chunks_never_exceed_max_size() {
    let d = doc(3, "one line\nanother line\nand a very long line without breaks here");
    let cfg = ChunkConfig { max_chunk_size: 7, overlap: 0 };
    let chunks = split_document(&d, &cfg).unwrap();
    for c in &chunks {
        assert!(c.content.len() >= 1);
        assert!(c.content.len() <= 7);
    }
}

#[test]
fn chunks_never_exceed_max_size_with_overlap() {
    let d = doc(13, "one line\nanother line\nand a very long line without breaks here");
    let cfg = ChunkConfig { max_chunk_size: 7, overlap: 3 };
    let chunks = split_document(&d, &cfg).unwrap();
    assert!(chunks.len() > 1);
    for c in &chunks {
        assert!(c.content.len() >= 1);
        assert!(c.content.len() <= 7);
    }
}

#[test]
fn cut_prefers_line_boundary() {
    // "ab\ncdef" with max 5: the preferred cut is after the newline, which is
    // then trimmed off the first chunk
    let d = doc(4, "ab\ncdef");
    let cfg = ChunkConfig { max_chunk_size: 5, overlap: 0 };
    let chunks = split_document(&d, &cfg).unwrap();
    assert_eq!(chunks.len(), 2);
    assert_eq!(chunks[0].content, b"ab".to_vec());
    assert_eq!(chunks[1].content, b"cdef".to_vec());
}

#[test]
fn hard_cut_when_no_boundary_fits() {
    let d = doc(5, "abcdefgh");
    let cfg = ChunkConfig { max_chunk_size: 3, overlap: 0 };
    let chunks = split_document(&d, &cfg).unwrap();
    assert_eq!(chunks[0].content, b"abc".to_vec());
    assert_eq!(chunks[1].content, b"def".to_vec());
    assert_eq!(chunks[2].content, b"gh".to_vec());
}

#[test]
fn overlap_prepends_previous_tail_within_the_cap() {
    // overlap counts against max_chunk_size: pieces carry 2 new bytes each,
    // and every chunk stays at or under 4 bytes
    let d = doc(6, "abcdefgh");
    let cfg = ChunkConfig { max_chunk_size: 4, overlap: 2 };
    let chunks = split_document(&d, &cfg).unwrap();
    assert_eq!(chunks.len(), 4);
    assert_eq!(chunks[0].content, b"ab".to_vec());
    assert_eq!(chunks[1].content, b"abcd".to_vec());
    assert_eq!(chunks[2].content, b"cdef".to_vec());
    assert_eq!(chunks[3].content, b"efgh".to_vec());
}

#[test]
fn zero_max_chunk_size_is_rejected() {
    let d = doc(8, "text");
    let cfg = ChunkConfig { max_chunk_size: 0, overlap: 0 };
    assert!(matches!(split_document(&d, &cfg), Err(ChunkError::ZeroMaxChunkSize)));
}

#[test]
fn overlap_at_or_above_max_is_rejected() {
    let d = doc(9, "text");
    let cfg = ChunkConfig { max_chunk_size: 3, overlap: 3 };
    assert!(matches!(split_document(&d, &cfg), Err(ChunkError::OverlapTooLarge)));
}

#[test]
fn empty_document_gives_no_chunks() {
    let d = doc(10, "");
    let cfg = ChunkConfig { max_chunk_size: 4, overlap: 0 };
    let chunks = split_document(&d, &cfg).unwrap();
    assert_eq!(chunks.len(), 0);
}

#[test]
fn whitespace_only_document_gives_no_chunks() {
    let d = doc(14, "\n\n\n");
    let cfg = ChunkConfig { max_chunk_size: 4, overlap: 0 };
    let chunks = split_document(&d, &cfg).unwrap();
    assert_eq!(chunks.len(), 0);
}

#[test]
fn identical_input_gives_identical_chunks() {
    let d1 = doc(11, "some\ntext\n\nwith structure");
    let d2 = doc(11, "some\ntext\n\nwith structure");
    let cfg = ChunkConfig { max_chunk_size: 6, overlap: 1 };
    let a = split_document(&d1, &cfg).unwrap();
    let b = split_document(&d2, &cfg).unwrap();
    assert_eq!(a.len(), b.len());
    for i in 0..a.len() {
        assert_eq!(a[i].content, b[i].content);
        assert_eq!(a[i].sequence_index, b[i].sequence_index);
    }
}
