//! Documents and chunks, the units the pipeline moves.

use vstd::prelude::*;

verus! {

/// A normalized text document. Content is UTF-8 bytes; metadata is a list of
/// key/value pairs. Immutable once produced.
pub struct Document {
    /// Identifier chosen by the loader; unique per source.
    pub id: u64,
    /// The document's full text.
    pub content: Vec<u8>,
    /// Auxiliary key/value pairs (source path, title, and the like).
    pub metadata: Vec<(Vec<u8>, Vec<u8>)>,
}

impl Document {
    /// Builds a document from its parts.
    pub fn new(id: u64, content: Vec<u8>, metadata: Vec<(Vec<u8>, Vec<u8>)>) -> (d: Document)
        ensures
            d.id == id,
            d.content@ == content@,
            d.metadata@ == metadata@,
    {
        Document { id, content, metadata }
    }
}

/// A bounded segment of a source document: the unit of embedding and
/// retrieval. Immutable once produced.
pub struct Chunk {
    /// The id of the document this chunk was cut from.
    pub source_document_id: u64,
    /// Position of this chunk among its document's chunks, starting at 0.
    pub sequence_index: usize,
    /// The chunk's text.
    pub content: Vec<u8>,
}

impl Chunk {
    /// Copies this chunk field by field.
    pub fn duplicate(&self) -> (c: Chunk)
        ensures
            c.source_document_id == self.source_document_id,
            c.sequence_index == self.sequence_index,
            c.content@ == self.content@,
    {
        Chunk {
            source_document_id: self.source_document_id,
            sequence_index: self.sequence_index,
            content: copy_bytes(&self.content),
        }
    }
}

/// Copies a byte vector element by element.
pub fn copy_bytes(v: &Vec<u8>) -> (r: Vec<u8>)
    ensures
        r@ == v@,
{
    let mut r: Vec<u8> = Vec::new();
    let mut i: usize = 0;
    while i < v.len()
        invariant
            i <= v.len(),
            r@ == v@.subrange(0, i as int),
        decreases v.len() - i,
    {
        r.push(v[i]);
        i = i + 1;
        proof {
            assert(r@ =~= v@.subrange(0, i as int));
        }
    }
    proof {
        assert(r@ =~= v@);
    }
    r
}

} // verus!
