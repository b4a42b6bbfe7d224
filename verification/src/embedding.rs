//! Embeddings as fixed-point coordinates, and the checks the pipeline makes
//! on them before storage or search.
//!
//! The embedding backend itself is an external service: callers obtain a
//! vector from it, scale each coordinate to an integer, and hand the result
//! in. Keeping coordinates in a fixed range makes every similarity score an
//! exact `i64` with no overflow.

use vstd::prelude::*;

use crate::errors::EmbeddingError;

verus! {

/// Largest magnitude of a single fixed-point coordinate.
pub const COORD_LIMIT: i64 = 1000000;

/// Largest embedding dimension a store accepts.
pub const MAX_DIMENSION: usize = 65536;

/// Every coordinate lies within the fixed-point range.
pub open spec fn coords_bounded(v: Seq<i64>) -> bool {
    forall|i: int| 0 <= i < v.len() ==> -COORD_LIMIT <= #[trigger] v[i] <= COORD_LIMIT
}

/// A vector the store accepts at dimension `dim`: right length, coordinates
/// in range.
pub open spec fn valid_embedding(v: Seq<i64>, dim: nat) -> bool {
    v.len() == dim && coords_bounded(v)
}

/// Decides [`valid_embedding`] for a concrete vector.
pub fn check_embedding(v: &Vec<i64>, dim: usize) -> (b: bool)
    ensures
        b == valid_embedding(v@, dim as nat),
{
    if v.len() != dim {
        return false;
    }
    let mut i: usize = 0;
    while i < v.len()
        invariant
            i <= v@.len(),
            forall|j: int| 0 <= j < i as int ==> -COORD_LIMIT <= #[trigger] v@[j] <= COORD_LIMIT,
        decreases v@.len() - i,
    {
        let c = v[i];
        if c < -COORD_LIMIT || c > COORD_LIMIT {
            return false;
        }
        i = i + 1;
    }
    true
}

/// Rejects an embedding request whose input text is empty; a non-empty text
/// may be sent to the backend.
pub fn check_embed_input(text: &Vec<u8>) -> (r: Result<(), EmbeddingError>)
    ensures
        r is Ok <==> text@.len() > 0,
        r is Err ==> r->Err_0 == EmbeddingError::EmptyInput,
{
    if text.len() == 0 {
        Err(EmbeddingError::EmptyInput)
    } else {
        Ok(())
    }
}

/// Copies a coordinate vector element by element.
pub fn copy_coords(v: &Vec<i64>) -> (r: Vec<i64>)
    ensures
        r@ == v@,
{
    let mut r: Vec<i64> = Vec::new();
    let mut i: usize = 0;
    while i < v.len()
        invariant
            i <= v@.len(),
            r@ == v@.subrange(0, i as int),
        decreases v@.len() - i,
    {
        r.push(v[i]);
        i = i + 1;
        proof {
            assert(r@ =~= v@.subrange(0, i as int));
        }
    }
    proof {
        assert(r@ =~= v@);
    }
    r
}

/// Assembles a batch of per-item backend results, preserving input order.
///
/// Either every item succeeded and the vectors come back in the order of the
/// requests, or the first failure is reported with its position — no partial
/// silent failure.
pub fn collect_batch(results: &Vec<Result<Vec<i64>, EmbeddingError>>) -> (r: Result<
    Vec<Vec<i64>>,
    (usize, EmbeddingError),
>)
    ensures
        match r {
            Ok(vs) => {
                &&& vs@.len() == results@.len()
                &&& forall|i: int| 0 <= i < results@.len() ==> (#[trigger] results@[i]) is Ok
                &&& forall|i: int|
                    0 <= i < results@.len() ==> (#[trigger] vs@[i])@ == results@[i]->Ok_0@
            },
            Err(p) => {
                &&& (p.0 as int) < results@.len()
                &&& results@[p.0 as int] is Err
                &&& p.1 == results@[p.0 as int]->Err_0
                &&& forall|i: int| 0 <= i < p.0 as int ==> (#[trigger] results@[i]) is Ok
            },
        },
{
    let mut vs: Vec<Vec<i64>> = Vec::new();
    let mut i: usize = 0;
    while i < results.len()
        invariant
            i <= results@.len(),
            vs@.len() == i as nat,
            forall|j: int| 0 <= j < i as int ==> (#[trigger] results@[j]) is Ok,
            forall|j: int| 0 <= j < i as int ==> (#[trigger] vs@[j])@ == results@[j]->Ok_0@,
        decreases results@.len() - i,
    {
        let item = &results[i];
        proof {
            assert(*item == results@[i as int]);
        }
        match item {
            Ok(v) => {
                proof {
                    assert(results@[i as int] is Ok);
                    assert(*v == results@[i as int]->Ok_0);
                }
                vs.push(copy_coords(v));
            },
            Err(e) => {
                return Err((i, *e));
            },
        }
        i = i + 1;
    }
    Ok(vs)
}

} // verus!
