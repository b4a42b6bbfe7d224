//! Deterministic, structure-aware splitting of a document into chunks.
//!
//! The split is defined by the spec model [`chunk_pieces`]: the document is
//! cut into consecutive pieces, and each cut is placed just after the last
//! newline that still fits, so that pieces end on line or paragraph
//! boundaries wherever possible; only a line longer than the piece budget is
//! cut hard. Separator newlines at the boundaries are folded away: each piece
//! is trimmed of trailing newlines and the next piece starts at the next
//! non-newline byte, so a paragraph break never becomes a chunk of its own.
//! Concatenating the pieces reproduces the document's content up to that
//! whitespace normalization ([`lemma_chunks_cover`]) — no content is lost.
//!
//! A configured `overlap` prepends the tail of the previous piece to each
//! later chunk's text as shared context; it counts against `max_chunk_size`,
//! so every chunk, overlap included, holds at most `max_chunk_size` bytes.

use vstd::prelude::*;

use crate::document::{Chunk, Document};
use crate::errors::ChunkError;

verus! {

/// The byte that marks a structural boundary: a cut is preferred right after
/// a newline, which covers paragraph breaks and heading starts alike.
pub const BOUNDARY_BYTE: u8 = 10;

/// Whether `b` is boundary whitespace.
pub open spec fn is_ws(b: u8) -> bool {
    b == BOUNDARY_BYTE
}

/// How a document is split.
#[derive(Debug, Clone, Copy, PartialEq, Eq, Structural)]
pub struct ChunkConfig {
    /// Largest number of bytes per chunk, overlap included; must be positive.
    pub max_chunk_size: usize,
    /// How many bytes of the previous piece each later chunk repeats as
    /// context; must be smaller than `max_chunk_size`.
    pub overlap: usize,
}

/// A configuration the splitter accepts.
pub open spec fn config_valid(cfg: ChunkConfig) -> bool {
    0 < cfg.max_chunk_size && cfg.overlap < cfg.max_chunk_size
}

/// How many boundary bytes `s` starts with.
pub open spec fn ws_prefix_len(s: Seq<u8>) -> nat
    decreases s.len(),
{
    if s.len() == 0 {
        0
    } else if is_ws(s.first()) {
        1 + ws_prefix_len(s.drop_first())
    } else {
        0
    }
}

/// How many boundary bytes `s` ends with.
pub open spec fn ws_suffix_len(s: Seq<u8>) -> nat
    decreases s.len(),
{
    if s.len() == 0 {
        0
    } else if is_ws(s.last()) {
        1 + ws_suffix_len(s.drop_last())
    } else {
        0
    }
}

/// `s` without its leading boundary bytes.
pub open spec fn skip_leading_ws(s: Seq<u8>) -> Seq<u8> {
    let w = ws_prefix_len(s);
    if w <= s.len() {
        s.subrange(w as int, s.len() as int)
    } else {
        Seq::empty()
    }
}

/// `s` without its trailing boundary bytes.
pub open spec fn trim_trailing_ws(s: Seq<u8>) -> Seq<u8> {
    let w = ws_suffix_len(s);
    if w <= s.len() {
        s.subrange(0, (s.len() - w) as int)
    } else {
        Seq::empty()
    }
}

/// `s` with every boundary byte removed: the normal form under whitespace
/// normalization.
pub open spec fn strip_ws(s: Seq<u8>) -> Seq<u8>
    decreases s.len(),
{
    if s.len() == 0 {
        s
    } else if is_ws(s.last()) {
        strip_ws(s.drop_last())
    } else {
        strip_ws(s.drop_last()).push(s.last())
    }
}

/// The topmost position `c <= p` such that `s[c - 1]` is a boundary byte,
/// or 0 when no position up to `p` ends just after a boundary.
pub open spec fn pref_cut(s: Seq<u8>, p: nat) -> nat
    decreases p,
{
    if p == 0 {
        0
    } else if p <= s.len() && s[p as int - 1] == BOUNDARY_BYTE {
        p
    } else {
        pref_cut(s, (p - 1) as nat)
    }
}

/// Where the first piece of `s` ends: after the last boundary within the
/// first `max` bytes, or at `max` (a hard cut) when there is none.
pub open spec fn cut_at(s: Seq<u8>, max: nat) -> nat {
    let p = pref_cut(s, max);
    if 1 <= p <= max {
        p
    } else {
        max
    }
}

/// The pieces of a remainder `t` that already starts at a non-boundary byte:
/// the first at most `max` bytes, cut at a boundary where one fits and
/// trimmed of trailing newlines, then the pieces of what follows the cut.
pub open spec fn chunk_pieces_at(t: Seq<u8>, max: nat) -> Seq<Seq<u8>>
    decreases t.len(),
{
    if max == 0 {
        Seq::empty()
    } else if t.len() == 0 {
        Seq::empty()
    } else if t.len() <= max {
        seq![trim_trailing_ws(t)]
    } else {
        let c = cut_at(t, max);
        seq![trim_trailing_ws(t.subrange(0, c as int))] + chunk_pieces_at(
            skip_leading_ws(t.subrange(c as int, t.len() as int)),
            max,
        )
    }
}

/// The pieces a document's content is cut into: consecutive, non-empty, at
/// most `max` bytes each, reproducing the content up to the boundary
/// whitespace folded away at the cuts.
pub open spec fn chunk_pieces(s: Seq<u8>, max: nat) -> Seq<Seq<u8>> {
    chunk_pieces_at(skip_leading_ws(s), max)
}

/// The last `ov` bytes of `prev` (all of `prev` when it is shorter).
pub open spec fn overlap_tail(prev: Seq<u8>, ov: nat) -> Seq<u8> {
    if prev.len() <= ov {
        prev
    } else {
        prev.subrange(prev.len() - ov, prev.len() as int)
    }
}

/// The text of chunk `i`: its own piece, preceded for `i > 0` by the
/// configured overlap from the piece before it.
pub open spec fn chunk_content_at(pieces: Seq<Seq<u8>>, i: int, ov: nat) -> Seq<u8> {
    if i == 0 {
        pieces[0]
    } else {
        overlap_tail(pieces[i - 1], ov) + pieces[i]
    }
}

proof fn lemma_ws_prefix_le(s: Seq<u8>)
    ensures
        ws_prefix_len(s) <= s.len(),
    decreases s.len(),
{
    if s.len() > 0 && is_ws(s.first()) {
        lemma_ws_prefix_le(s.drop_first());
    }
}

proof fn lemma_ws_suffix_le(s: Seq<u8>)
    ensures
        ws_suffix_len(s) <= s.len(),
    decreases s.len(),
{
    if s.len() > 0 && is_ws(s.last()) {
        lemma_ws_suffix_le(s.drop_last());
    }
}

proof fn lemma_skip_ws_none(s: Seq<u8>)
    requires
        s.len() == 0 || !is_ws(s.first()),
    ensures
        skip_leading_ws(s) == s,
{
    assert(skip_leading_ws(s) =~= s);
}

proof fn lemma_skip_ws_step(s: Seq<u8>)
    requires
        s.len() > 0,
        is_ws(s.first()),
    ensures
        skip_leading_ws(s) == skip_leading_ws(s.drop_first()),
{
    lemma_ws_prefix_le(s.drop_first());
    assert(skip_leading_ws(s) =~= skip_leading_ws(s.drop_first()));
}

proof fn lemma_skip_ws_first(s: Seq<u8>)
    ensures
        skip_leading_ws(s).len() > 0 ==> !is_ws(skip_leading_ws(s).first()),
    decreases s.len(),
{
    if s.len() == 0 {
    } else if is_ws(s.first()) {
        lemma_skip_ws_step(s);
        lemma_skip_ws_first(s.drop_first());
    } else {
        lemma_skip_ws_none(s);
    }
}

proof fn lemma_trim_none(u: Seq<u8>)
    requires
        u.len() == 0 || !is_ws(u.last()),
    ensures
        trim_trailing_ws(u) == u,
{
    assert(trim_trailing_ws(u) =~= u);
}

proof fn lemma_trim_step(u: Seq<u8>)
    requires
        u.len() > 0,
        is_ws(u.last()),
    ensures
        trim_trailing_ws(u) == trim_trailing_ws(u.drop_last()),
{
    lemma_ws_suffix_le(u.drop_last());
    assert(trim_trailing_ws(u) =~= trim_trailing_ws(u.drop_last()));
}

/// A piece that starts with content keeps at least that first byte.
proof fn lemma_trim_nonempty(u: Seq<u8>)
    requires
        u.len() > 0,
        !is_ws(u.first()),
    ensures
        1 <= trim_trailing_ws(u).len() <= u.len(),
        trim_trailing_ws(u).first() == u.first(),
    decreases u.len(),
{
    lemma_ws_suffix_le(u);
    if is_ws(u.last()) {
        lemma_trim_step(u);
        lemma_trim_nonempty(u.drop_last());
    } else {
        lemma_trim_none(u);
    }
}

proof fn lemma_strip_concat(a: Seq<u8>, b: Seq<u8>)
    ensures
        strip_ws(a + b) == strip_ws(a) + strip_ws(b),
    decreases b.len(),
{
    if b.len() == 0 {
        assert(a + b =~= a);
        assert(strip_ws(a) + strip_ws(b) =~= strip_ws(a));
    } else {
        assert((a + b).drop_last() =~= a + b.drop_last());
        lemma_strip_concat(a, b.drop_last());
        assert((a + b).last() == b.last());
        if !is_ws(b.last()) {
            assert(strip_ws(a + b) =~= strip_ws(a) + strip_ws(b));
        }
    }
}

proof fn lemma_strip_drop_first(s: Seq<u8>)
    requires
        s.len() > 0,
        is_ws(s.first()),
    ensures
        strip_ws(s) == strip_ws(s.drop_first()),
    decreases s.len(),
{
    if s.len() == 1 {
        assert(strip_ws(s) == strip_ws(s.drop_last()));
        assert(s.drop_last() =~= s.drop_first());
    } else {
        assert(s.drop_last().len() > 0 && s.drop_last().first() == s.first());
        lemma_strip_drop_first(s.drop_last());
        assert(s.drop_first().drop_last() =~= s.drop_last().drop_first());
        assert(s.drop_first().len() > 0 && s.drop_first().last() == s.last());
        if is_ws(s.last()) {
            assert(strip_ws(s) == strip_ws(s.drop_last()));
            assert(strip_ws(s.drop_first()) == strip_ws(s.drop_first().drop_last()));
            assert(strip_ws(s.drop_first().drop_last()) == strip_ws(s.drop_last().drop_first()));
        } else {
            assert(strip_ws(s) == strip_ws(s.drop_last()).push(s.last()));
            assert(strip_ws(s.drop_first()) == strip_ws(s.drop_first().drop_last()).push(s.last()));
            assert(strip_ws(s.drop_first().drop_last()) == strip_ws(s.drop_last().drop_first()));
        }
    }
}

proof fn lemma_strip_skip_leading(s: Seq<u8>)
    ensures
        strip_ws(skip_leading_ws(s)) == strip_ws(s),
    decreases s.len(),
{
    if s.len() == 0 {
        lemma_skip_ws_none(s);
    } else if is_ws(s.first()) {
        lemma_skip_ws_step(s);
        lemma_strip_drop_first(s);
        lemma_strip_skip_leading(s.drop_first());
    } else {
        lemma_skip_ws_none(s);
    }
}

proof fn lemma_strip_trim(u: Seq<u8>)
    ensures
        strip_ws(trim_trailing_ws(u)) == strip_ws(u),
    decreases u.len(),
{
    if u.len() == 0 {
        lemma_trim_none(u);
    } else if is_ws(u.last()) {
        lemma_trim_step(u);
        lemma_strip_trim(u.drop_last());
    } else {
        lemma_trim_none(u);
    }
}

/// Coverage law: the pieces concatenated in order reproduce the document's
/// content up to whitespace normalization — stripping boundary bytes from
/// both sides gives the same bytes, so no content is lost and none invented.
pub proof fn lemma_chunks_cover(s: Seq<u8>, max: nat)
    requires
        1 <= max,
    ensures
        strip_ws(chunk_pieces(s, max).flatten()) == strip_ws(s),
{
    lemma_skip_ws_first(s);
    lemma_chunks_cover_at(skip_leading_ws(s), max);
    lemma_strip_skip_leading(s);
}

proof fn lemma_chunks_cover_at(t: Seq<u8>, max: nat)
    requires
        1 <= max,
        t.len() == 0 || !is_ws(t.first()),
    ensures
        strip_ws(chunk_pieces_at(t, max).flatten()) == strip_ws(t),
    decreases t.len(),
{
    let pieces = chunk_pieces_at(t, max);
    if t.len() == 0 {
        assert(pieces.flatten() =~= t);
    } else if t.len() <= max {
        pieces.lemma_flatten_one_element();
        lemma_strip_trim(t);
    } else {
        let c = cut_at(t, max) as int;
        let raw = t.subrange(0, c);
        let rem = t.subrange(c, t.len() as int);
        let sk = skip_leading_ws(rem);
        lemma_skip_ws_first(rem);
        lemma_chunks_cover_at(sk, max);
        let rest = chunk_pieces_at(sk, max);
        assert(pieces == seq![trim_trailing_ws(raw)] + rest);
        assert(pieces.first() == trim_trailing_ws(raw));
        assert(pieces.drop_first() =~= rest);
        assert(pieces.flatten() == trim_trailing_ws(raw) + rest.flatten());
        lemma_strip_concat(trim_trailing_ws(raw), rest.flatten());
        lemma_strip_trim(raw);
        lemma_strip_skip_leading(rem);
        assert(raw + rem =~= t);
        lemma_strip_concat(raw, rem);
    }
}

/// With no overlap a chunk's text is exactly its piece.
pub proof fn lemma_no_overlap_content(pieces: Seq<Seq<u8>>, i: int)
    requires
        0 <= i < pieces.len(),
    ensures
        chunk_content_at(pieces, i, 0) == pieces[i],
{
    if i > 0 {
        assert(overlap_tail(pieces[i - 1], 0) + pieces[i] =~= pieces[i]);
    }
}

/// Coverage law for whole chunks: with no overlap, concatenating the chunk
/// texts in sequence order reproduces the document's content up to
/// whitespace normalization.
pub proof fn lemma_chunk_concat_reproduces_document(s: Seq<u8>, max: nat)
    requires
        1 <= max,
    ensures
        strip_ws(
            Seq::new(
                chunk_pieces(s, max).len(),
                |i: int| chunk_content_at(chunk_pieces(s, max), i, 0),
            ).flatten(),
        ) == strip_ws(s),
{
    let pieces = chunk_pieces(s, max);
    let texts = Seq::new(pieces.len(), |i: int| chunk_content_at(pieces, i, 0));
    assert forall|i: int| 0 <= i < pieces.len() implies texts[i] == pieces[i] by {
        lemma_no_overlap_content(pieces, i);
    }
    assert(texts =~= pieces);
    lemma_chunks_cover(s, max);
}

/// Copies the bytes of `s[a..b]`.
fn copy_range(s: &Vec<u8>, a: usize, b: usize) -> (r: Vec<u8>)
    requires
        a <= b <= s@.len(),
    ensures
        r@ == s@.subrange(a as int, b as int),
{
    let mut r: Vec<u8> = Vec::new();
    let mut i: usize = a;
    while i < b
        invariant
            a <= i <= b <= s@.len(),
            r@ == s@.subrange(a as int, i as int),
        decreases b - i,
    {
        r.push(s[i]);
        i = i + 1;
        proof {
            assert(r@ =~= s@.subrange(a as int, i as int));
        }
    }
    r
}

/// Advances `start` past boundary whitespace.
fn skip_ws_from(s: &Vec<u8>, start: usize) -> (p: usize)
    requires
        start <= s@.len(),
    ensures
        start <= p <= s@.len(),
        s@.subrange(p as int, s@.len() as int) == skip_leading_ws(
            s@.subrange(start as int, s@.len() as int),
        ),
        p < s@.len() ==> !is_ws(s@[p as int]),
{
    let n = s.len();
    let mut p = start;
    while p < n && s[p] == BOUNDARY_BYTE
        invariant
            start <= p <= n,
            n == s@.len(),
            skip_leading_ws(s@.subrange(start as int, n as int)) == skip_leading_ws(
                s@.subrange(p as int, n as int),
            ),
        decreases n - p,
    {
        proof {
            let u = s@.subrange(p as int, n as int);
            assert(u.len() > 0 && is_ws(u.first()));
            lemma_skip_ws_step(u);
            assert(u.drop_first() =~= s@.subrange(p as int + 1, n as int));
        }
        p = p + 1;
    }
    proof {
        let u = s@.subrange(p as int, n as int);
        lemma_skip_ws_none(u);
    }
    p
}

/// Trims the piece `s[start..start + cut]` of trailing boundary bytes,
/// returning the trimmed length.
fn trim_end(s: &Vec<u8>, start: usize, cut: usize) -> (e: usize)
    requires
        start + cut <= s@.len(),
        cut >= 1,
        !is_ws(s@[start as int]),
    ensures
        1 <= e <= cut,
        trim_trailing_ws(s@.subrange(start as int, start + cut)) == s@.subrange(
            start as int,
            start + e,
        ),
{
    let n = s.len();
    let mut e = cut;
    while e > 0 && s[start + e - 1] == BOUNDARY_BYTE
        invariant
            e <= cut,
            n == s@.len(),
            start + cut <= n,
            trim_trailing_ws(s@.subrange(start as int, start + cut)) == trim_trailing_ws(
                s@.subrange(start as int, start + e),
            ),
        decreases e,
    {
        proof {
            let u = s@.subrange(start as int, start + e);
            assert(u.len() > 0 && is_ws(u.last()));
            lemma_trim_step(u);
            assert(u.drop_last() =~= s@.subrange(start as int, start + e - 1));
        }
        e = e - 1;
    }
    proof {
        let raw = s@.subrange(start as int, start + cut);
        lemma_trim_nonempty(raw);
        let u = s@.subrange(start as int, start + e);
        if e == 0 {
            assert(trim_trailing_ws(u) =~= u);
            assert(false);
        }
        lemma_trim_none(u);
    }
    e
}

/// Finds where the piece starting at `pos` ends, scanning for the last
/// boundary within `max` bytes.
fn find_cut(s: &Vec<u8>, pos: usize, max: usize) -> (c: usize)
    requires
        pos < s@.len(),
        1 <= max,
        max < s@.len() - pos,
    ensures
        1 <= c <= max,
        c as nat == cut_at(s@.subrange(pos as int, s@.len() as int), max as nat),
{
    let ghost rem = s@.subrange(pos as int, s@.len() as int);
    let n = s.len();
    let mut p: usize = max;
    let mut c: usize = 0;
    while p > 0
        invariant
            p <= max,
            c <= max,
            n == s@.len(),
            pos < s@.len(),
            max < s@.len() - pos,
            rem == s@.subrange(pos as int, s@.len() as int),
            c == 0 ==> pref_cut(rem, max as nat) == pref_cut(rem, p as nat),
            c != 0 ==> 1 <= c && c as nat == pref_cut(rem, max as nat),
        decreases p,
    {
        if c == 0 {
            if s[pos + p - 1] == BOUNDARY_BYTE {
                proof {
                    assert(rem[p as int - 1] == s@[pos + p - 1]);
                }
                c = p;
            } else {
                proof {
                    assert(rem[p as int - 1] == s@[pos + p - 1]);
                }
            }
        }
        p = p - 1;
    }
    if c == 0 {
        proof {
            assert(pref_cut(rem, max as nat) == 0);
        }
        max
    } else {
        c
    }
}

/// Splits a document into chunks under `cfg`.
///
/// On success the chunks carry the source document's id, contiguous sequence
/// indices `0..n-1`, at most `max_chunk_size` bytes each (overlap included),
/// and texts given exactly by the spec model: piece `i` of [`chunk_pieces`]
/// at the piece budget `max_chunk_size - overlap`, preceded by the
/// configured overlap for `i > 0`. The same document and configuration
/// therefore always yield the same chunks. An invalid configuration is
/// rejected whole, with the reason.
pub fn split_document(doc: &Document, cfg: &ChunkConfig) -> (r: Result<Vec<Chunk>, ChunkError>)
    ensures
        match r {
            Ok(chunks) => {
                &&& config_valid(*cfg)
                &&& chunks@.len() == chunk_pieces(
                    doc.content@,
                    (cfg.max_chunk_size - cfg.overlap) as nat,
                ).len()
                &&& forall|i: int|
                    #![trigger chunks@[i]]
                    0 <= i < chunks@.len() ==> {
                        &&& chunks@[i].source_document_id == doc.id
                        &&& chunks@[i].sequence_index == i
                        &&& chunks@[i].content@ == chunk_content_at(
                            chunk_pieces(doc.content@, (cfg.max_chunk_size - cfg.overlap) as nat),
                            i,
                            cfg.overlap as nat,
                        )
                        &&& 1 <= chunks@[i].content@.len() <= cfg.max_chunk_size
                    }
            },
            Err(e) => {
                &&& !config_valid(*cfg)
                &&& (e == ChunkError::ZeroMaxChunkSize <==> cfg.max_chunk_size == 0)
                &&& (e == ChunkError::OverlapTooLarge <==> (cfg.max_chunk_size > 0
                    && cfg.overlap >= cfg.max_chunk_size))
            },
        },
{
    if cfg.max_chunk_size == 0 {
        return Err(ChunkError::ZeroMaxChunkSize);
    }
    if cfg.overlap >= cfg.max_chunk_size {
        return Err(ChunkError::OverlapTooLarge);
    }
    let ov = cfg.overlap;
    let budget = cfg.max_chunk_size - ov;
    let s = &doc.content;
    let n = s.len();
    let ghost pieces = chunk_pieces(s@, budget as nat);
    let mut chunks: Vec<Chunk> = Vec::new();
    let mut prev_start: usize = 0;
    let mut prev_len: usize = 0;
    let mut pos: usize = skip_ws_from(s, 0);
    proof {
        assert(s@.subrange(0, n as int) =~= s@);
        assert(chunk_pieces_at(s@.subrange(pos as int, n as int), budget as nat) == pieces);
        assert(pieces.skip(0) =~= pieces);
        if pos == n {
            assert(s@.subrange(pos as int, n as int).len() == 0);
        }
    }
    while pos < n
        invariant
            pos <= n,
            n == s@.len(),
            1 <= budget,
            budget + ov == cfg.max_chunk_size,
            s == &doc.content,
            pieces == chunk_pieces(s@, budget as nat),
            chunks@.len() <= pieces.len(),
            pos < n ==> !is_ws(s@[pos as int]),
            chunk_pieces_at(s@.subrange(pos as int, n as int), budget as nat) == pieces.skip(
                chunks@.len() as int,
            ),
            pos == n ==> chunks@.len() == pieces.len(),
            chunks@.len() > 0 ==> {
                &&& prev_start + prev_len <= pos
                &&& 1 <= prev_len
                &&& prev_len == pieces[chunks@.len() - 1].len()
                &&& pieces[chunks@.len() - 1] == s@.subrange(
                    prev_start as int,
                    prev_start + prev_len,
                )
            },
            forall|i: int|
                #![trigger chunks@[i]]
                0 <= i < chunks@.len() ==> {
                    &&& chunks@[i].source_document_id == doc.id
                    &&& chunks@[i].sequence_index == i
                    &&& chunks@[i].content@ == chunk_content_at(pieces, i, ov as nat)
                    &&& 1 <= chunks@[i].content@.len() <= cfg.max_chunk_size
                },
        decreases n - pos,
    {
        let ghost k = chunks@.len() as int;
        let ghost t = s@.subrange(pos as int, n as int);
        let remaining = n - pos;
        let cut: usize = if remaining <= budget {
            remaining
        } else {
            find_cut(s, pos, budget)
        };
        proof {
            assert(t.len() == remaining);
            if remaining <= budget {
                assert(chunk_pieces_at(t, budget as nat) == seq![trim_trailing_ws(t)]);
            } else {
                assert(cut as nat == cut_at(t, budget as nat));
                assert(chunk_pieces_at(t, budget as nat) == seq![trim_trailing_ws(
                    t.subrange(0, cut as int),
                )] + chunk_pieces_at(
                    skip_leading_ws(t.subrange(cut as int, t.len() as int)),
                    budget as nat,
                ));
            }
            assert(chunk_pieces_at(t, budget as nat).len() > 0);
            assert(pieces.skip(k).len() > 0);
            assert(k < pieces.len());
            assert(pieces.skip(k)[0] == pieces[k]);
            assert(t.subrange(0, cut as int) =~= s@.subrange(pos as int, pos + cut));
            assert(pieces[k] == trim_trailing_ws(s@.subrange(pos as int, pos + cut)));
        }
        let e = trim_end(s, pos, cut);
        proof {
            assert(pieces[k] == s@.subrange(pos as int, pos + e));
        }
        let mut content: Vec<u8>;
        if chunks.len() > 0 && ov > 0 {
            let ovl = if prev_len < ov {
                prev_len
            } else {
                ov
            };
            content = copy_range(s, prev_start + prev_len - ovl, prev_start + prev_len);
            let mut body = copy_range(s, pos, pos + e);
            content.append(&mut body);
            proof {
                let prev = pieces[k - 1];
                if prev.len() <= ov as nat {
                    assert(overlap_tail(prev, ov as nat) == prev);
                    assert(prev =~= s@.subrange(
                        prev_start + prev_len - ovl,
                        prev_start + prev_len,
                    ));
                } else {
                    assert(overlap_tail(prev, ov as nat) == prev.subrange(
                        prev.len() - ov,
                        prev.len() as int,
                    ));
                    assert(prev.subrange(prev.len() - ov, prev.len() as int) =~= s@.subrange(
                        prev_start + prev_len - ovl,
                        prev_start + prev_len,
                    ));
                }
                assert(content@ == overlap_tail(prev, ov as nat) + s@.subrange(
                    pos as int,
                    pos + e,
                ));
                assert(content@ == chunk_content_at(pieces, k, ov as nat));
            }
        } else {
            content = copy_range(s, pos, pos + e);
            proof {
                if k > 0 {
                    let prev = pieces[k - 1];
                    assert(overlap_tail(prev, 0) + pieces[k] =~= pieces[k]);
                }
                assert(content@ == chunk_content_at(pieces, k, ov as nat));
            }
        }
        let idx = chunks.len();
        chunks.push(Chunk { source_document_id: doc.id, sequence_index: idx, content });
        prev_start = pos;
        prev_len = e;
        let mid = pos + cut;
        pos = skip_ws_from(s, mid);
        proof {
            assert(pieces.skip(k + 1) =~= pieces.skip(k).drop_first());
            let rem2 = s@.subrange(pos as int, n as int);
            if remaining <= budget {
                assert(mid == n);
                assert(s@.subrange(mid as int, n as int).len() == 0);
                assert(rem2.len() == 0);
                assert(chunk_pieces_at(rem2, budget as nat) =~= pieces.skip(k + 1));
            } else {
                assert(t.subrange(cut as int, t.len() as int) =~= s@.subrange(
                    mid as int,
                    n as int,
                ));
                assert(rem2 == skip_leading_ws(t.subrange(cut as int, t.len() as int)));
                assert(chunk_pieces_at(rem2, budget as nat) == pieces.skip(k).drop_first());
            }
            if pos == n {
                assert(pieces.skip(k + 1).len() == 0);
            }
        }
    }
    proof {
        assert(chunks@.len() == pieces.len());
    }
    Ok(chunks)
}

} // verus!
