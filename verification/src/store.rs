//! An embedded vector store: records with fixed-dimension embeddings,
//! batch-atomic writes, and deterministic top-`k` similarity search.
//!
//! Similarity is the negated squared Euclidean distance between fixed-point
//! embeddings: 0 is a perfect match and every score is an exact, non-positive
//! `i64`. Ranking ties are broken by earlier insertion time, then by smaller
//! id, so a search is a function of the store's contents alone.

use vstd::prelude::*;

use crate::document::Chunk;
use crate::embedding::{check_embedding, coords_bounded, copy_coords, valid_embedding, COORD_LIMIT,
    MAX_DIMENSION};
use crate::errors::StoreError;

verus! {

/// A stored, embedded chunk. Owned exclusively by the store, which assigns
/// `inserted_at`.
pub struct VectorRecord {
    /// Caller-chosen identifier, unique within the store.
    pub id: u64,
    /// The chunk's embedding, of the store's dimension.
    pub embedding: Vec<i64>,
    /// The chunk this record indexes.
    pub chunk: Chunk,
    /// Logical insertion time: position in the store's write order.
    pub inserted_at: u64,
}

/// What a caller hands to `upsert`: a record without an insertion time.
pub struct NewRecord {
    /// Caller-chosen identifier, unique within the store.
    pub id: u64,
    /// The chunk's embedding, of the store's dimension.
    pub embedding: Vec<i64>,
    /// The chunk to index.
    pub chunk: Chunk,
}

/// One search result: a copy of the stored record and its score.
pub struct SearchHit {
    /// The matching record.
    pub record: VectorRecord,
    /// Its similarity to the query; 0 is a perfect match.
    pub score: i64,
}

/// Sum of squared coordinate differences.
pub open spec fn sq_dist(a: Seq<i64>, b: Seq<i64>) -> int
    recommends
        a.len() == b.len(),
    decreases a.len(),
{
    if a.len() == 0 {
        0
    } else {
        let d = a.last() - b.last();
        sq_dist(a.drop_last(), b.drop_last()) + d * d
    }
}

/// Similarity score of a stored embedding `v` against a query `q`: negated
/// squared distance, so higher is closer and 0 is an exact match.
pub open spec fn score_of(q: Seq<i64>, v: Seq<i64>) -> int {
    -sq_dist(q, v)
}

/// Self-similarity law: an embedding is at distance 0 from itself, and no
/// other embedding scores higher against it.
pub proof fn lemma_self_similarity(q: Seq<i64>, v: Seq<i64>)
    requires
        q.len() == v.len(),
    ensures
        score_of(q, q) == 0,
        score_of(q, v) <= score_of(q, q),
    decreases q.len(),
{
    if q.len() == 0 {
    } else {
        lemma_self_similarity(q.drop_last(), v.drop_last());
        let d = q.last() - v.last();
        assert(d * d >= 0) by (nonlinear_arith);
        let dq = q.last() - q.last();
        assert(dq == 0);
        assert(dq * dq == 0);
    }
}

/// Computes the score of `v` against `q` exactly, with no overflow.
pub fn score(q: &Vec<i64>, v: &Vec<i64>) -> (s: i64)
    requires
        q@.len() == v@.len() <= MAX_DIMENSION,
        coords_bounded(q@),
        coords_bounded(v@),
    ensures
        s as int == score_of(q@, v@),
{
    let n = q.len();
    let mut dist: i64 = 0;
    let mut i: usize = 0;
    while i < n
        invariant
            i <= n,
            n == q@.len() == v@.len(),
            n <= MAX_DIMENSION,
            coords_bounded(q@),
            coords_bounded(v@),
            dist as int == sq_dist(q@.subrange(0, i as int), v@.subrange(0, i as int)),
            0 <= dist as int <= (i as int) * 4 * COORD_LIMIT * COORD_LIMIT,
        decreases n - i,
    {
        let d = q[i] - v[i];
        proof {
            assert(0 <= d * d <= 4 * COORD_LIMIT * COORD_LIMIT) by (nonlinear_arith)
                requires
                    -2 * COORD_LIMIT <= d <= 2 * COORD_LIMIT,
            ;
            let qp = q@.subrange(0, i as int + 1);
            let vp = v@.subrange(0, i as int + 1);
            assert(qp.drop_last() =~= q@.subrange(0, i as int));
            assert(vp.drop_last() =~= v@.subrange(0, i as int));
            assert(qp.last() == q@[i as int] && vp.last() == v@[i as int]);
        }
        dist = dist + d * d;
        i = i + 1;
    }
    proof {
        assert(q@.subrange(0, n as int) =~= q@);
        assert(v@.subrange(0, n as int) =~= v@);
    }
    0i64 - dist
}

/// The number of records in `recs` scoring at least `t` against `q`.
pub open spec fn candidate_count(recs: Seq<VectorRecord>, q: Seq<i64>, t: i64) -> nat
    decreases recs.len(),
{
    if recs.len() == 0 {
        0
    } else {
        candidate_count(recs.drop_last(), q, t) + (if score_of(q, recs.last().embedding@) >= t {
            1nat
        } else {
            0nat
        })
    }
}

/// The record at `j` scores at least `t` against `q`.
pub open spec fn is_candidate(recs: Seq<VectorRecord>, q: Seq<i64>, t: i64, j: int) -> bool {
    0 <= j < recs.len() && score_of(q, recs[j].embedding@) >= t
}

/// A stored record exists with the same identity and content as `a`.
pub open spec fn same_record(a: VectorRecord, b: VectorRecord) -> bool {
    &&& a.id == b.id
    &&& a.inserted_at == b.inserted_at
    &&& a.embedding@ == b.embedding@
    &&& a.chunk.source_document_id == b.chunk.source_document_id
    &&& a.chunk.sequence_index == b.chunk.sequence_index
    &&& a.chunk.content@ == b.chunk.content@
}

/// `a` ranks strictly before `b`: higher score, or same score and earlier
/// insertion, or same score and time and smaller id.
pub open spec fn ranks_before(a: SearchHit, b: SearchHit) -> bool {
    ||| a.score > b.score
    ||| (a.score == b.score && a.record.inserted_at < b.record.inserted_at)
    ||| (a.score == b.score && a.record.inserted_at == b.record.inserted_at && a.record.id
        < b.record.id)
}

/// The hit `h` ranks before or at the rank the stored record `rec` would
/// take with query `q`.
pub open spec fn outranks_record(q: Seq<i64>, h: SearchHit, rec: VectorRecord) -> bool {
    ||| h.score > score_of(q, rec.embedding@)
    ||| (h.score == score_of(q, rec.embedding@) && h.record.inserted_at < rec.inserted_at)
    ||| (h.score == score_of(q, rec.embedding@) && h.record.inserted_at == rec.inserted_at
        && h.record.id <= rec.id)
}

/// Every embedding in the batch fits dimension `dim`.
pub open spec fn batch_embeddings_valid(batch: Seq<NewRecord>, dim: nat) -> bool {
    forall|i: int| 0 <= i < batch.len() ==> valid_embedding((#[trigger] batch[i]).embedding@, dim)
}

/// The batch ids are pairwise distinct and none is stored already.
pub open spec fn batch_ids_fresh(batch: Seq<NewRecord>, recs: Seq<VectorRecord>) -> bool {
    &&& forall|p: int, j: int|
        0 <= p < j < batch.len() ==> (#[trigger] batch[p]).id != (#[trigger] batch[j]).id
    &&& forall|p: int, j: int|
        0 <= p < batch.len() && 0 <= j < recs.len() ==> (#[trigger] batch[p]).id != (
        #[trigger] recs[j]).id
}

/// What a successful search guarantees of its result `hits` against the
/// stored records `recs`, the query `q`, the requested count `k` and the
/// score threshold `t`: exactly the `min(k, n)` best of the `n` qualifying
/// records, ranked best first, with exact scores; any qualifying record left
/// out is outranked by every returned hit, and only because `k` came back.
pub open spec fn search_ok(
    recs: Seq<VectorRecord>,
    q: Seq<i64>,
    k: nat,
    t: i64,
    hits: Seq<SearchHit>,
) -> bool {
    &&& hits.len() == if candidate_count(recs, q, t) <= k {
        candidate_count(recs, q, t)
    } else {
        k
    }
    &&& forall|i: int|
        0 <= i < hits.len() ==> (#[trigger] hits[i]).score as int == score_of(
            q,
            hits[i].record.embedding@,
        ) && hits[i].score >= t
    &&& forall|i: int|
        0 <= i < hits.len() ==> exists|j: int|
            0 <= j < recs.len() && same_record((#[trigger] hits[i]).record, recs[j])
    &&& forall|i1: int, i2: int|
        0 <= i1 < i2 < hits.len() ==> ranks_before(#[trigger] hits[i1], #[trigger] hits[i2])
    &&& forall|j: int|
        #[trigger] is_candidate(recs, q, t, j) ==> (exists|i: int|
            0 <= i < hits.len() && same_record((#[trigger] hits[i]).record, recs[j])) || (hits.len()
            == k && forall|i: int|
            0 <= i < hits.len() ==> outranks_record(q, #[trigger] hits[i], recs[j]))
}

/// The persisted set of embedded chunks, answering similarity queries.
pub struct VectorStore {
    dim: usize,
    ready: bool,
    clock: u64,
    records: Vec<VectorRecord>,
}

impl VectorStore {
    /// The stored records, in insertion order.
    pub closed spec fn view(&self) -> Seq<VectorRecord> {
        self.records@
    }

    /// The fixed embedding dimension `D`.
    pub closed spec fn dimension(&self) -> nat {
        self.dim as nat
    }

    /// Whether `initialize` has run.
    pub closed spec fn is_ready(&self) -> bool {
        self.ready
    }

    /// The logical time the next write will receive.
    pub closed spec fn next_time(&self) -> nat {
        self.clock as nat
    }

    /// The store's invariant: a usable dimension; every stored embedding of
    /// that dimension and in range; insertion times strictly increasing and
    /// below the clock; ids unique.
    pub open spec fn wf(&self) -> bool {
        &&& 1 <= self.dimension() <= MAX_DIMENSION as nat
        &&& forall|i: int|
            0 <= i < self@.len() ==> valid_embedding(
                (#[trigger] self@[i]).embedding@,
                self.dimension(),
            )
        &&& forall|i: int, j: int|
            0 <= i < j < self@.len() ==> (#[trigger] self@[i]).inserted_at
                < (#[trigger] self@[j]).inserted_at
        &&& forall|i: int| 0 <= i < self@.len() ==> (#[trigger] self@[i]).inserted_at
            < self.next_time()
        &&& forall|i: int, j: int|
            0 <= i < j < self@.len() ==> (#[trigger] self@[i]).id != (#[trigger] self@[j]).id
    }

    /// Builds an empty store of dimension `dim`; rejects a dimension of zero
    /// or above [`MAX_DIMENSION`].
    pub fn new(dim: usize) -> (r: Result<VectorStore, StoreError>)
        ensures
            match r {
                Ok(s) => {
                    &&& 1 <= dim <= MAX_DIMENSION
                    &&& s.wf()
                    &&& s@ == Seq::<VectorRecord>::empty()
                    &&& s.dimension() == dim as nat
                    &&& !s.is_ready()
                    &&& s.next_time() == 0
                },
                Err(e) => {
                    &&& !(1 <= dim <= MAX_DIMENSION)
                    &&& e == StoreError::BadDimension
                },
            },
    {
        if dim == 0 || dim > MAX_DIMENSION {
            Err(StoreError::BadDimension)
        } else {
            Ok(VectorStore { dim, ready: false, clock: 0, records: Vec::new() })
        }
    }

    /// Idempotent schema setup: marks the store usable and changes nothing
    /// else. Safe to call again after a failure or at any time.
    pub fn initialize(&mut self)
        ensures
            final(self).is_ready(),
            final(self)@ == old(self)@,
            final(self).dimension() == old(self).dimension(),
            final(self).next_time() == old(self).next_time(),
            old(self).wf() ==> final(self).wf(),
    {
        self.ready = true;
    }

    /// How many records are stored.
    pub fn record_count(&self) -> (n: usize)
        ensures
            n == self@.len(),
    {
        self.records.len()
    }

    /// The logical time the next write will receive.
    pub fn time_watermark(&self) -> (t: u64)
        ensures
            t as nat == self.next_time(),
    {
        self.clock
    }

    /// The configured dimension.
    pub fn dimension_of(&self) -> (d: usize)
        ensures
            d as nat == self.dimension(),
    {
        self.dim
    }

    /// Writes a batch atomically: either every record is appended, in batch
    /// order and with consecutive insertion times, or the store is unchanged
    /// and the error says why. Requires unique fresh ids and embeddings of
    /// the store's dimension.
    pub fn upsert(&mut self, batch: &Vec<NewRecord>) -> (r: Result<(), StoreError>)
        requires
            old(self).wf(),
        ensures
            final(self).wf(),
            final(self).dimension() == old(self).dimension(),
            final(self).is_ready() == old(self).is_ready(),
            match r {
                Ok(u) => {
                    &&& old(self).is_ready()
                    &&& final(self)@.len() == old(self)@.len() + batch@.len()
                    &&& final(self)@.subrange(0, old(self)@.len() as int) == old(self)@
                    &&& forall|i: int|
                        #![trigger final(self)@[old(self)@.len() + i]]
                        0 <= i < batch@.len() ==> {
                            &&& final(self)@[old(self)@.len() + i].id == batch@[i].id
                            &&& final(self)@[old(self)@.len() + i].embedding@
                                == batch@[i].embedding@
                            &&& final(self)@[old(self)@.len() + i].inserted_at as nat == old(
                                self,
                            ).next_time() + i
                            &&& final(self)@[old(self)@.len() + i].chunk.source_document_id
                                == batch@[i].chunk.source_document_id
                            &&& final(self)@[old(self)@.len() + i].chunk.sequence_index
                                == batch@[i].chunk.sequence_index
                            &&& final(self)@[old(self)@.len() + i].chunk.content@
                                == batch@[i].chunk.content@
                        }
                    &&& final(self).next_time() == old(self).next_time() + batch@.len()
                },
                Err(e) => {
                    &&& final(self)@ == old(self)@
                    &&& final(self).next_time() == old(self).next_time()
                    &&& (e == StoreError::NotReady || e == StoreError::InvalidEmbedding || e
                        == StoreError::DuplicateId || e == StoreError::Exhausted)
                    &&& (e == StoreError::NotReady <==> !old(self).is_ready())
                    &&& (e == StoreError::InvalidEmbedding <==> old(self).is_ready()
                        && !batch_embeddings_valid(batch@, old(self).dimension()))
                    &&& (e == StoreError::DuplicateId <==> old(self).is_ready()
                        && batch_embeddings_valid(batch@, old(self).dimension())
                        && !batch_ids_fresh(batch@, old(self)@))
                    &&& (e == StoreError::Exhausted <==> old(self).is_ready()
                        && batch_embeddings_valid(batch@, old(self).dimension())
                        && batch_ids_fresh(batch@, old(self)@) && old(self).next_time()
                        + batch@.len() > u64::MAX)
                },
            },
    {
        if !self.ready {
            return Err(StoreError::NotReady);
        }
        // validate every embedding before touching the records: atomicity
        let mut i: usize = 0;
        while i < batch.len()
            invariant
                i <= batch@.len(),
                *self == *old(self),
                old(self).wf(),
                self.ready,
                forall|j: int|
                    0 <= j < i as int ==> valid_embedding(
                        (#[trigger] batch@[j]).embedding@,
                        self.dimension(),
                    ),
            decreases batch@.len() - i,
        {
            if !check_embedding(&batch[i].embedding, self.dim) {
                return Err(StoreError::InvalidEmbedding);
            }
            i = i + 1;
        }
        proof {
            assert(batch_embeddings_valid(batch@, old(self).dimension()));
        }
        // unique, fresh ids
        let mut i: usize = 0;
        while i < batch.len()
            invariant
                i <= batch@.len(),
                *self == *old(self),
                old(self).wf(),
                self.ready,
                self.wf(),
                batch_embeddings_valid(batch@, old(self).dimension()),
                forall|p: int, j: int|
                    0 <= p < j < i as int ==> (#[trigger] batch@[p]).id != (#[trigger] batch@[j]).id,
                forall|p: int, j: int|
                    0 <= p < i as int && 0 <= j < self@.len() ==> (#[trigger] batch@[p]).id != (
                    #[trigger] self@[j]).id,
            decreases batch@.len() - i,
        {
            let id = batch[i].id;
            let mut j: usize = 0;
            while j < i
                invariant
                    j <= i < batch@.len(),
                    *self == *old(self),
                    old(self).wf(),
                    self.ready,
                    batch_embeddings_valid(batch@, old(self).dimension()),
                    id == batch@[i as int].id,
                    forall|p: int| 0 <= p < j as int ==> (#[trigger] batch@[p]).id != id,
                decreases i - j,
            {
                if batch[j].id == id {
                    proof {
                        assert(batch@[j as int].id == batch@[i as int].id && j < i);
                        assert(!batch_ids_fresh(batch@, old(self)@));
                    }
                    return Err(StoreError::DuplicateId);
                }
                j = j + 1;
            }
            let mut j: usize = 0;
            while j < self.records.len()
                invariant
                    j <= self@.len(),
                    i < batch@.len(),
                    *self == *old(self),
                    old(self).wf(),
                    self.ready,
                    batch_embeddings_valid(batch@, old(self).dimension()),
                    id == batch@[i as int].id,
                    forall|p: int| 0 <= p < j as int ==> (#[trigger] self@[p]).id != id,
                decreases self@.len() - j,
            {
                if self.records[j].id == id {
                    proof {
                        assert(batch@[i as int].id == self@[j as int].id);
                        assert(!batch_ids_fresh(batch@, old(self)@));
                    }
                    return Err(StoreError::DuplicateId);
                }
                j = j + 1;
            }
            i = i + 1;
        }
        proof {
            assert(batch_ids_fresh(batch@, old(self)@));
        }
        // room on the logical clock
        if u64::MAX - self.clock < batch.len() as u64 {
            return Err(StoreError::Exhausted);
        }
        // apply: append in batch order with consecutive times
        let ghost old_recs = self.records@;
        let ghost old_clock = self.clock as nat;
        let mut i: usize = 0;
        while i < batch.len()
            invariant
                i <= batch@.len(),
                self.dim == old(self).dim,
                self.ready == old(self).ready,
                old_recs == old(self)@,
                old_clock == old(self).next_time(),
                old_clock + batch@.len() <= u64::MAX,
                self.clock as nat == old_clock + i as nat,
                self.records@.len() == old_recs.len() + i as nat,
                self.records@.subrange(0, old_recs.len() as int) == old_recs,
                self.wf(),
                forall|j: int|
                    0 <= j < batch@.len() ==> valid_embedding(
                        (#[trigger] batch@[j]).embedding@,
                        self.dimension(),
                    ),
                forall|p: int, j: int|
                    0 <= p < j < batch@.len() ==> (#[trigger] batch@[p]).id != (
                    #[trigger] batch@[j]).id,
                forall|p: int, j: int|
                    0 <= p < batch@.len() && 0 <= j < old_recs.len() ==> (#[trigger] batch@[p]).id
                        != (#[trigger] old_recs[j]).id,
                forall|j: int|
                    #![trigger self.records@[old_recs.len() + j]]
                    0 <= j < i as int ==> {
                        &&& self.records@[old_recs.len() + j].id == batch@[j].id
                        &&& self.records@[old_recs.len() + j].embedding@ == batch@[j].embedding@
                        &&& self.records@[old_recs.len() + j].inserted_at as nat == old_clock + j
                        &&& self.records@[old_recs.len() + j].chunk.source_document_id == batch@[
                        j].chunk.source_document_id
                        &&& self.records@[old_recs.len() + j].chunk.sequence_index == batch@[
                        j].chunk.sequence_index
                        &&& self.records@[old_recs.len() + j].chunk.content@ == batch@[
                        j].chunk.content@
                    },
            decreases batch@.len() - i,
        {
            let item = &batch[i];
            let rec = VectorRecord {
                id: item.id,
                embedding: copy_coords(&item.embedding),
                chunk: item.chunk.duplicate(),
                inserted_at: self.clock,
            };
            let ghost pre_recs = self.records@;
            let ghost pre_clock = self.clock as nat;
            proof {
                assert(self.wf());
                assert(self@ == self.records@);
                assert(pre_recs == self@);
                assert(forall|p: int|
                    0 <= p < pre_recs.len() ==> valid_embedding(
                        (#[trigger] pre_recs[p]).embedding@,
                        self.dimension(),
                    ));
                assert(forall|p: int|
                    0 <= p < pre_recs.len() ==> (#[trigger] pre_recs[p]).inserted_at < pre_clock);
                assert(forall|p: int, j: int|
                    0 <= p < j < pre_recs.len() ==> (#[trigger] pre_recs[p]).inserted_at < (
                    #[trigger] pre_recs[j]).inserted_at);
                assert(forall|p: int, j: int|
                    0 <= p < j < pre_recs.len() ==> (#[trigger] pre_recs[p]).id != (
                    #[trigger] pre_recs[j]).id);
            }
            self.records.push(rec);
            self.clock = self.clock + 1;
            i = i + 1;
            proof {
                let recs = self.records@;
                assert(self.records@.subrange(0, old_recs.len() as int) =~= old_recs);
                assert(recs[recs.len() - 1] == rec);
                assert(forall|p: int| 0 <= p < pre_recs.len() ==> recs[p] == #[trigger] pre_recs[p]);
                assert forall|p: int| 0 <= p < recs.len() implies valid_embedding(
                    (#[trigger] recs[p]).embedding@,
                    self.dimension(),
                ) by {
                    if p == recs.len() - 1 {
                        assert(rec.embedding@ == batch@[i as int - 1].embedding@);
                    } else {
                        assert(recs[p] == pre_recs[p]);
                    }
                }
                assert forall|p: int, j: int|
                    0 <= p < j < recs.len() implies (#[trigger] recs[p]).inserted_at < (
                #[trigger] recs[j]).inserted_at by {
                    if j == recs.len() - 1 {
                        assert(pre_recs[p].inserted_at < pre_clock);
                    }
                }
                assert forall|p: int| 0 <= p < recs.len() implies (#[trigger] recs[p]).inserted_at
                    < self.next_time() by {
                    if p < recs.len() - 1 {
                        assert(pre_recs[p].inserted_at < pre_clock);
                    }
                }
                assert forall|p: int, j: int| 0 <= p < j < recs.len() implies (
                #[trigger] recs[p]).id != (#[trigger] recs[j]).id by {
                    if j == recs.len() - 1 {
                        assert(recs[j].id == batch@[i as int - 1].id);
                        if p < old_recs.len() {
                            assert(recs[p] == old_recs[p]);
                        } else {
                            let q = p - old_recs.len();
                            assert(recs[p] == pre_recs[p]);
                            assert(pre_recs[old_recs.len() + q].id == batch@[q].id);
                        }
                    }
                }
            }
        }
        proof {
            assert(self.records@.subrange(0, old_recs.len() as int) =~= old(self)@);
        }
        Ok(())
    }

    /// Answers a similarity query: at most `k` results, every score at least
    /// `threshold`, ranked best first with ties broken by earlier insertion
    /// and then by smaller id. Exactly the `min(k, n)` best of the `n`
    /// qualifying records come back: any qualifying record left out is
    /// outranked by every returned hit, and then only because `k` were
    /// returned.
    #[verifier::rlimit(50)]
    pub fn search(&self, q: &Vec<i64>, k: usize, threshold: i64) -> (r: Result<
        Vec<SearchHit>,
        StoreError,
    >)
        requires
            self.wf(),
        ensures
            match r {
                Ok(hits) => {
                    &&& self.is_ready()
                    &&& valid_embedding(q@, self.dimension())
                    &&& search_ok(self@, q@, k as nat, threshold, hits@)
                },
                Err(e) => {
                    &&& (e == StoreError::NotReady || e == StoreError::InvalidEmbedding)
                    &&& (e == StoreError::NotReady <==> !self.is_ready())
                    &&& (e == StoreError::InvalidEmbedding <==> self.is_ready()
                        && !valid_embedding(q@, self.dimension()))
                },
            },
    {
        if !self.ready {
            return Err(StoreError::NotReady);
        }
        if !check_embedding(q, self.dim) {
            return Err(StoreError::InvalidEmbedding);
        }
        // gather every qualifying record, in insertion order
        let mut cands: Vec<SearchHit> = Vec::new();
        let mut i: usize = 0;
        while i < self.records.len()
            invariant
                i <= self@.len(),
                self.wf(),
                valid_embedding(q@, self.dimension()),
                cands@.len() == candidate_count(self@.subrange(0, i as int), q@, threshold),
                forall|c: int|
                    0 <= c < cands@.len() ==> (#[trigger] cands@[c]).score as int == score_of(
                        q@,
                        cands@[c].record.embedding@,
                    ) && cands@[c].score >= threshold,
                forall|c: int|
                    0 <= c < cands@.len() ==> exists|j: int|
                        0 <= j < i as int && same_record((#[trigger] cands@[c]).record, self@[j]),
                forall|c1: int, c2: int|
                    0 <= c1 < c2 < cands@.len() ==> (#[trigger] cands@[c1]).record.inserted_at < (
                    #[trigger] cands@[c2]).record.inserted_at,
                forall|j: int|
                    0 <= j < i as int && score_of(q@, (#[trigger] self@[j]).embedding@)
                        >= threshold ==> exists|c: int|
                        0 <= c < cands@.len() && same_record(
                            (#[trigger] cands@[c]).record,
                            self@[j],
                        ),
            decreases self@.len() - i,
        {
            let ghost old_cands = cands@;
            let rec = &self.records[i];
            let sc = score(q, &rec.embedding);
            if sc >= threshold {
                let hit = SearchHit { record: duplicate_record(rec), score: sc };
                cands.push(hit);
                proof {
                    let c = cands@.len() - 1;
                    assert(same_record(cands@[c].record, self@[i as int]));
                    assert forall|c1: int, c2: int|
                        0 <= c1 < c2 < cands@.len() implies (
                    #[trigger] cands@[c1]).record.inserted_at < (
                    #[trigger] cands@[c2]).record.inserted_at by {
                        if c2 == c {
                            let jw = choose|j: int|
                                0 <= j < i as int && same_record(cands@[c1].record, self@[j]);
                            assert(self@[jw].inserted_at < self@[i as int].inserted_at);
                        }
                    }
                }
            }
            i = i + 1;
            proof {
                assert(self@.subrange(0, i as int).drop_last() =~= self@.subrange(0, i as int - 1));
                assert(self@.subrange(0, i as int).last() == self@[i as int - 1]);
                assert forall|j: int|
                    0 <= j < i as int && score_of(q@, (#[trigger] self@[j]).embedding@)
                        >= threshold implies exists|c: int|
                    0 <= c < cands@.len() && same_record(
                        (#[trigger] cands@[c]).record,
                        self@[j],
                    ) by {
                    if j < i as int - 1 {
                        let c = choose|c: int|
                            0 <= c < old_cands.len() && same_record(
                                (#[trigger] old_cands[c]).record,
                                self@[j],
                            );
                        assert(cands@[c] == old_cands[c]);
                        assert(same_record(cands@[c].record, self@[j]));
                    } else {
                        assert(same_record(cands@[cands@.len() - 1].record, self@[j]));
                    }
                }
            }
        }
        proof {
            assert(self@.subrange(0, self@.len() as int) =~= self@);
        }
        // select the best hits, best first, up to k
        let ghost total = cands@.len();
        let mut rest = cands;
        let mut out: Vec<SearchHit> = Vec::new();
        while rest.len() > 0 && out.len() < k
            invariant
                self.wf(),
                valid_embedding(q@, self.dimension()),
                out@.len() <= k as nat,
                out@.len() + rest@.len() == total,
                total == candidate_count(self@, q@, threshold),
                forall|c: int|
                    0 <= c < out@.len() ==> (#[trigger] out@[c]).score as int == score_of(
                        q@,
                        out@[c].record.embedding@,
                    ) && out@[c].score >= threshold,
                forall|c: int|
                    0 <= c < rest@.len() ==> (#[trigger] rest@[c]).score as int == score_of(
                        q@,
                        rest@[c].record.embedding@,
                    ) && rest@[c].score >= threshold,
                forall|c: int|
                    0 <= c < out@.len() ==> exists|j: int|
                        0 <= j < self@.len() && same_record((#[trigger] out@[c]).record, self@[j]),
                forall|c: int|
                    0 <= c < rest@.len() ==> exists|j: int|
                        0 <= j < self@.len() && same_record((#[trigger] rest@[c]).record, self@[j]),
                forall|c1: int, c2: int|
                    0 <= c1 < c2 < rest@.len() ==> (#[trigger] rest@[c1]).record.inserted_at < (
                    #[trigger] rest@[c2]).record.inserted_at,
                forall|c1: int, c2: int|
                    0 <= c1 < c2 < out@.len() ==> ranks_before(
                        #[trigger] out@[c1],
                        #[trigger] out@[c2],
                    ),
                forall|o: int, c: int|
                    0 <= o < out@.len() && 0 <= c < rest@.len() ==> ranks_before(
                        #[trigger] out@[o],
                        #[trigger] rest@[c],
                    ),
                forall|j: int|
                    #[trigger] is_candidate(self@, q@, threshold, j) ==> (exists|ii: int|
                        0 <= ii < out@.len() && same_record(
                            (#[trigger] out@[ii]).record,
                            self@[j],
                        )) || (exists|c: int|
                        0 <= c < rest@.len() && same_record(
                            (#[trigger] rest@[c]).record,
                            self@[j],
                        )),
            decreases rest@.len(),
        {
            // index of the best remaining hit
            let mut m: usize = 0;
            let mut b: usize = 1;
            while b < rest.len()
                invariant
                    rest@.len() >= 1,
                    m < b <= rest@.len(),
                    forall|c1: int, c2: int|
                        0 <= c1 < c2 < rest@.len() ==> (#[trigger] rest@[c1]).record.inserted_at
                            < (#[trigger] rest@[c2]).record.inserted_at,
                    forall|c: int|
                        0 <= c < b as int && c != m as int ==> ranks_before(
                            rest@[m as int],
                            #[trigger] rest@[c],
                        ),
                decreases rest@.len() - b,
            {
                if is_ranked_before(&rest[b], &rest[m]) {
                    proof {
                        assert forall|c: int|
                            0 <= c < b as int + 1 && c != b as int implies ranks_before(
                            rest@[b as int],
                            #[trigger] rest@[c],
                        ) by {
                            if c != m as int {
                                lemma_rank_trans(rest@[b as int], rest@[m as int], rest@[c]);
                            }
                        }
                    }
                    m = b;
                } else {
                    proof {
                        lemma_rank_total(rest@[m as int], rest@[b as int]);
                    }
                }
                b = b + 1;
            }
            let ghost old_rest = rest@;
            let ghost old_out = out@;
            let best = rest.remove(m);
            out.push(best);
            proof {
                assert(best == old_rest[m as int]);
                assert(forall|c: int| 0 <= c < m as int ==> rest@[c] == #[trigger] old_rest[c]);
                assert(forall|c: int|
                    m as int <= c < rest@.len() ==> rest@[c] == #[trigger] old_rest[c + 1]);
                assert forall|c: int| 0 <= c < rest@.len() implies ranks_before(
                    best,
                    #[trigger] rest@[c],
                ) by {
                    if c < m as int {
                        assert(ranks_before(old_rest[m as int], old_rest[c]));
                    } else {
                        assert(ranks_before(old_rest[m as int], old_rest[c + 1]));
                    }
                }
                assert forall|j: int| #[trigger] is_candidate(self@, q@, threshold, j) implies (
                exists|ii: int|
                    0 <= ii < out@.len() && same_record((#[trigger] out@[ii]).record, self@[j]))
                    || (exists|c: int|
                    0 <= c < rest@.len() && same_record(
                        (#[trigger] rest@[c]).record,
                        self@[j],
                    )) by {
                    if exists|ii: int|
                        0 <= ii < old_out.len() && same_record(
                            (#[trigger] old_out[ii]).record,
                            self@[j],
                        ) {
                        let ii = choose|ii: int|
                            0 <= ii < old_out.len() && same_record(
                                (#[trigger] old_out[ii]).record,
                                self@[j],
                            );
                        assert(out@[ii] == old_out[ii]);
                        assert(same_record(out@[ii].record, self@[j]));
                    } else {
                        let c = choose|c: int|
                            0 <= c < old_rest.len() && same_record(
                                (#[trigger] old_rest[c]).record,
                                self@[j],
                            );
                        if c == m as int {
                            assert(out@[out@.len() - 1] == best);
                            assert(same_record(out@[out@.len() - 1].record, self@[j]));
                        } else if c < m as int {
                            assert(rest@[c] == old_rest[c]);
                            assert(same_record(rest@[c].record, self@[j]));
                        } else {
                            assert(rest@[c - 1] == old_rest[c]);
                            assert(same_record(rest@[c - 1].record, self@[j]));
                        }
                    }
                }
            }
        }
        proof {
            if rest@.len() > 0 {
                assert(out@.len() == k as nat);
            }
            assert forall|j: int| #[trigger] is_candidate(self@, q@, threshold, j) implies (exists|
                ii: int,
            |
                0 <= ii < out@.len() && same_record((#[trigger] out@[ii]).record, self@[j])) || (
            out@.len() == k as nat && forall|ii: int|
                0 <= ii < out@.len() ==> outranks_record(q@, #[trigger] out@[ii], self@[j])) by {
                if !(exists|ii: int|
                    0 <= ii < out@.len() && same_record((#[trigger] out@[ii]).record, self@[j]))
                 {
                    let c = choose|c: int|
                        0 <= c < rest@.len() && same_record(
                            (#[trigger] rest@[c]).record,
                            self@[j],
                        );
                    assert(out@.len() == k as nat);
                    assert forall|ii: int| 0 <= ii < out@.len() implies outranks_record(
                        q@,
                        #[trigger] out@[ii],
                        self@[j],
                    ) by {
                        assert(ranks_before(out@[ii], rest@[c]));
                        assert(rest@[c].score as int == score_of(q@, self@[j].embedding@));
                        assert(rest@[c].record.inserted_at == self@[j].inserted_at);
                        assert(rest@[c].record.id == self@[j].id);
                    }
                }
            }
        }
        Ok(out)
    }
}

/// Copies a stored record field by field.
fn duplicate_record(rec: &VectorRecord) -> (r: VectorRecord)
    ensures
        same_record(r, *rec),
{
    VectorRecord {
        id: rec.id,
        embedding: copy_coords(&rec.embedding),
        chunk: rec.chunk.duplicate(),
        inserted_at: rec.inserted_at,
    }
}

/// Decides [`ranks_before`] on concrete hits.
fn is_ranked_before(a: &SearchHit, b: &SearchHit) -> (r: bool)
    ensures
        r == ranks_before(*a, *b),
{
    if a.score > b.score {
        true
    } else if a.score == b.score {
        if a.record.inserted_at < b.record.inserted_at {
            true
        } else if a.record.inserted_at == b.record.inserted_at {
            a.record.id < b.record.id
        } else {
            false
        }
    } else {
        false
    }
}

/// Ranking is transitive.
proof fn lemma_rank_trans(a: SearchHit, b: SearchHit, c: SearchHit)
    requires
        ranks_before(a, b),
        ranks_before(b, c),
    ensures
        ranks_before(a, c),
{
}

/// Hits with different insertion times are totally ordered.
proof fn lemma_rank_total(a: SearchHit, b: SearchHit)
    requires
        a.record.inserted_at != b.record.inserted_at,
        !ranks_before(b, a),
    ensures
        ranks_before(a, b),
{
}

/// A squared distance is never negative.
pub proof fn lemma_sq_dist_nonneg(a: Seq<i64>, b: Seq<i64>)
    ensures
        sq_dist(a, b) >= 0,
    decreases a.len(),
{
    if a.len() > 0 {
        lemma_sq_dist_nonneg(a.drop_last(), b.drop_last());
        let d = a.last() - b.last();
        assert(d * d >= 0) by (nonlinear_arith);
    }
}

/// Distance zero means the embeddings are equal.
pub proof fn lemma_zero_dist(a: Seq<i64>, b: Seq<i64>)
    requires
        a.len() == b.len(),
        sq_dist(a, b) == 0,
    ensures
        a == b,
    decreases a.len(),
{
    if a.len() > 0 {
        let d = a.last() - b.last();
        lemma_sq_dist_nonneg(a.drop_last(), b.drop_last());
        assert(d * d >= 0) by (nonlinear_arith);
        assert(d == 0) by (nonlinear_arith)
            requires
                d * d == 0,
        ;
        lemma_zero_dist(a.drop_last(), b.drop_last());
        assert(a.last() == b.last());
        assert forall|i: int| 0 <= i < a.len() implies a[i] == b[i] by {
            if i < a.len() - 1 {
                assert(a.drop_last()[i] == b.drop_last()[i]);
            }
        }
        assert(a =~= b);
    }
}

/// A qualifying record makes the candidate count positive.
pub proof fn lemma_candidate_counted(recs: Seq<VectorRecord>, q: Seq<i64>, t: i64, j: int)
    requires
        is_candidate(recs, q, t, j),
    ensures
        candidate_count(recs, q, t) >= 1,
    decreases recs.len(),
{
    if j < recs.len() - 1 {
        assert(recs.drop_last()[j] == recs[j]);
        lemma_candidate_counted(recs.drop_last(), q, t, j);
    }
}

/// Self-similarity retrieval law: when a stored record's embedding equals the
/// query, any result list meeting `search`'s guarantees for `k >= 1` and a
/// threshold at or below the perfect score starts with a perfect-score hit;
/// and if no other stored record carries that embedding, the top hit is that
/// record itself.
pub proof fn lemma_self_query_tops(
    recs: Seq<VectorRecord>,
    q: Seq<i64>,
    t: i64,
    k: nat,
    hits: Seq<SearchHit>,
    j: int,
)
    requires
        0 <= j < recs.len(),
        recs[j].embedding@ == q,
        forall|p: int| 0 <= p < recs.len() ==> (#[trigger] recs[p]).embedding@.len() == q.len(),
        t as int <= 0,
        k >= 1,
        // what `search` ensures of its result
        search_ok(recs, q, k, t, hits),
    ensures
        hits.len() >= 1,
        hits[0].score == 0,
        (forall|p: int|
            0 <= p < recs.len() && p != j ==> (#[trigger] recs[p]).embedding@ != q)
            ==> same_record(hits[0].record, recs[j]),
{
    lemma_self_similarity(q, q);
    assert(score_of(q, recs[j].embedding@) == 0);
    assert(is_candidate(recs, q, t, j));
    lemma_candidate_counted(recs, q, t, j);
    assert(hits.len() >= 1);
    // every hit's score is at most the perfect score
    assert forall|i: int| 0 <= i < hits.len() implies (#[trigger] hits[i]).score as int <= 0 by {
        let p = choose|p: int|
            0 <= p < recs.len() && same_record((#[trigger] hits[i]).record, recs[p]);
        lemma_self_similarity(q, recs[p].embedding@);
    }
    // the record at j is either returned or outranked by hits[0]
    if exists|i: int| 0 <= i < hits.len() && same_record((#[trigger] hits[i]).record, recs[j]) {
        let i = choose|i: int|
            0 <= i < hits.len() && same_record((#[trigger] hits[i]).record, recs[j]);
        assert(hits[i].score as int == 0);
        if i > 0 {
            assert(ranks_before(hits[0], hits[i]));
        }
        assert(hits[0].score == 0);
    } else {
        assert(outranks_record(q, hits[0], recs[j]));
        assert(hits[0].score == 0);
    }
    if forall|p: int| 0 <= p < recs.len() && p != j ==> (#[trigger] recs[p]).embedding@ != q {
        let p0 = choose|p: int|
            0 <= p < recs.len() && same_record((#[trigger] hits[0]).record, recs[p]);
        assert(score_of(q, recs[p0].embedding@) == 0);
        lemma_zero_dist(q, recs[p0].embedding@);
        assert(p0 == j);
    }
}

} // verus!
