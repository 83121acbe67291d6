//! The vector index: an append-only collection of vectors of one dimension,
//! each with its metadata, searched by caller-supplied scores.
//!
//! The index is not synchronised internally: callers serialise `add`,
//! `add_batch` and `clear` against each other and against any search, while
//! searches may share the index freely.

use crate::error::SearchError;
use crate::metadata::Metadata;
use crate::score::{is_zero, spec_is_zero};
use crate::topk::{
    any_position, first_nan, lemma_positions_where, no_nan, positions_where, rank_all,
    rank_candidates, ranked, Matches, Ranking,
};
use vstd::prelude::*;

verus! {

/// Stored vectors with their metadata, indexed in lockstep by position.
pub struct VectorIndex<T> {
    vectors: Vec<Vec<T>>,
    metadata: Vec<Metadata>,
    dimension: usize,
}

/// The metadata supplied for one entry, or an empty mapping.
pub open spec fn meta_or_empty(meta: Option<Metadata>) -> Map<Seq<char>, Seq<char>> {
    match meta {
        Some(m) => m@,
        None => Map::empty(),
    }
}

/// The metadata for element `i` of a batch: the supplied one where the list
/// reaches that far, else an empty mapping.
pub open spec fn batch_meta(metas: Option<Vec<Metadata>>, i: int) -> Map<Seq<char>, Seq<char>> {
    match metas {
        Some(v) => if 0 <= i < v@.len() {
            v@[i]@
        } else {
            Map::empty()
        },
        None => Map::empty(),
    }
}

/// `p` is the first element of `vectors` whose length is not `dim`.
pub open spec fn first_mismatch<T>(vectors: Seq<Vec<T>>, dim: nat, p: int) -> bool {
    &&& 0 <= p < vectors.len()
    &&& vectors[p]@.len() != dim
    &&& forall|j: int| 0 <= j < p ==> (#[trigger] vectors[j])@.len() == dim
}

/// Entry `i` carries `key` with exactly `value`.
pub open spec fn filter_hit(
    metas: Seq<Map<Seq<char>, Seq<char>>>,
    key: Seq<char>,
    value: Seq<char>,
) -> spec_fn(int) -> bool {
    |i: int| metas[i].contains_key(key) && metas[i][key] == value
}

/// What a similarity search over `cands` owes once the query is accepted:
/// the stable top-k by descending score, or the first NaN score.
pub open spec fn similarity_outcome(
    scores: Seq<u32>,
    cands: Seq<usize>,
    k: nat,
    r: Result<Matches, SearchError>,
) -> bool {
    match r {
        Ok(m) => no_nan(scores, cands) && ranked(scores, Ranking::Descending, cands, k, m),
        Err(e) => exists|p: usize|
            first_nan(scores, cands, p) && e == (SearchError::NanScore { index: p }),
    }
}

impl<T> VectorIndex<T> {
    /// Positions, vectors and metadata agree, and every vector has the
    /// index's dimension.
    #[verifier::type_invariant]
    spec fn wf(&self) -> bool {
        &&& self.vectors@.len() == self.metadata@.len()
        &&& forall|i: int| 0 <= i < self.vectors@.len() ==> (#[trigger] self.vectors@[i])@.len() == self.dimension
    }

    /// The dimension fixed at construction.
    pub closed spec fn dim(&self) -> nat {
        self.dimension as nat
    }

    /// The stored vectors, by position.
    pub closed spec fn entries(&self) -> Seq<Vec<T>> {
        self.vectors@
    }

    /// The stored metadata, by position.
    pub closed spec fn metas(&self) -> Seq<Map<Seq<char>, Seq<char>>> {
        self.metadata@.map_values(|m: Metadata| m@)
    }

    /// `post` is `pre` after `add(vector, meta)` returned `r`.
    pub open spec fn add_outcome(
        pre: Self,
        vector: Vec<T>,
        meta: Option<Metadata>,
        post: Self,
        r: Result<usize, SearchError>,
    ) -> bool {
        if vector@.len() != pre.dim() {
            &&& r == Err::<usize, SearchError>(
                SearchError::DimensionMismatch {
                    expected: pre.dim() as usize,
                    actual: vector@.len() as usize,
                    position: None,
                },
            )
            &&& post == pre
        } else {
            &&& r == Ok::<usize, SearchError>(pre.entries().len() as usize)
            &&& post.dim() == pre.dim()
            &&& post.entries() == pre.entries().push(vector)
            &&& post.metas() == pre.metas().push(meta_or_empty(meta))
        }
    }

    /// `post` is `pre` after `clear()`.
    pub open spec fn clear_outcome(pre: Self, post: Self) -> bool {
        &&& post.dim() == pre.dim()
        &&& post.entries().len() == 0
        &&& post.metas().len() == 0
    }

    /// After `clear`, the index is empty, and the next `add` of a vector of
    /// the right length is stored at position 0.
    pub proof fn lemma_clear_then_add(
        pre: Self,
        cleared: Self,
        vector: Vec<T>,
        meta: Option<Metadata>,
        post: Self,
        r: Result<usize, SearchError>,
    )
        requires
            Self::clear_outcome(pre, cleared),
            Self::add_outcome(cleared, vector, meta, post, r),
            vector@.len() == pre.dim(),
        ensures
            cleared.entries().len() == 0,
            r == Ok::<usize, SearchError>(0),
            post.entries().len() == 1,
    {
    }

    /// Clearing twice leaves what clearing once left.
    pub proof fn lemma_clear_idempotent(pre: Self, once: Self, twice: Self)
        requires
            Self::clear_outcome(pre, once),
            Self::clear_outcome(once, twice),
        ensures
            twice.dim() == once.dim(),
            twice.entries() == once.entries(),
            twice.metas() == once.metas(),
    {
        assert(twice.entries() =~= once.entries());
        assert(twice.metas() =~= once.metas());
    }

    /// An empty index for vectors of length `dimension`.
    pub fn new(dimension: usize) -> (r: Self)
        ensures
            r.dim() == dimension,
            r.entries().len() == 0,
            r.metas().len() == 0,
    {
        let r = VectorIndex { vectors: Vec::new(), metadata: Vec::new(), dimension };
        assert(r.metas() =~= Seq::<Map<Seq<char>, Seq<char>>>::empty());
        r
    }

    /// Moves the stored sequences out, leaving the index empty.
    fn take_parts(&mut self) -> (r: (Vec<Vec<T>>, Vec<Metadata>, usize))
        ensures
            r.0 == old(self).vectors,
            r.1 == old(self).metadata,
            r.2 == old(self).dimension,
            final(self).dimension == old(self).dimension,
    {
        let mut parts = VectorIndex::new(self.dimension);
        std::mem::swap(self, &mut parts);
        (parts.vectors, parts.metadata, parts.dimension)
    }

    /// The dimension fixed at construction.
    pub fn dimension(&self) -> (r: usize)
        ensures
            r == self.dim(),
    {
        self.dimension
    }

    /// The number of stored entries.
    pub fn size(&self) -> (r: usize)
        ensures
            r == self.entries().len(),
    {
        self.vectors.len()
    }

    /// The stored vectors, by position, for scoring.
    pub fn vectors(&self) -> (r: &Vec<Vec<T>>)
        ensures
            r@ == self.entries(),
    {
        &self.vectors
    }

    /// Appends one entry and returns its position, or refuses a vector of
    /// the wrong length and leaves the index unchanged.
    pub fn add(&mut self, vector: Vec<T>, metadata: Option<Metadata>) -> (r: Result<usize, SearchError>)
        ensures
            Self::add_outcome(*old(self), vector, metadata, *final(self), r),
    {
        if vector.len() != self.dimension {
            return Err(
                SearchError::DimensionMismatch {
                    expected: self.dimension,
                    actual: vector.len(),
                    position: None,
                },
            );
        }
        let position = self.vectors.len();
        let ghost meta = meta_or_empty(metadata);
        let m = match metadata {
            Some(m) => m,
            None => Metadata::new(),
        };
        proof {
            use_type_invariant(&*self);
        }
        let ghost pre = *self;
        let (mut stored, mut metas, dimension) = self.take_parts();
        stored.push(vector);
        metas.push(m);
        *self = VectorIndex { vectors: stored, metadata: metas, dimension };
        assert(self.metas() =~= pre.metas().push(meta));
        Ok(position)
    }

    /// Appends a batch of entries, all or nothing. Every vector is checked
    /// before any is stored; the first of the wrong length is reported and
    /// the index is left unchanged. Metadata missing from a short list
    /// defaults to an empty mapping.
    pub fn add_batch(&mut self, vectors: Vec<Vec<T>>, metadata: Option<Vec<Metadata>>) -> (r:
        Result<Vec<usize>, SearchError>)
        ensures
            match r {
                Err(e) => exists|p: int|
                    first_mismatch(vectors@, old(self).dim(), p) && e == (
                    SearchError::DimensionMismatch {
                        expected: old(self).dim() as usize,
                        actual: vectors@[p]@.len() as usize,
                        position: Some(p as usize),
                    }) && *final(self) == *old(self),
                Ok(ids) => {
                    &&& forall|i: int| 0 <= i < vectors@.len() ==> (#[trigger] vectors@[i])@.len() == old(self).dim()
                    &&& ids@ == Seq::new(vectors@.len(), |i: int| (old(self).entries().len() + i) as usize)
                    &&& final(self).dim() == old(self).dim()
                    &&& final(self).entries() == old(self).entries() + vectors@
                    &&& final(self).metas() == old(self).metas() + Seq::new(vectors@.len(), |i: int| batch_meta(metadata, i))
                },
            },
    {
        let mut i: usize = 0;
        while i < vectors.len()
            invariant
                *self == *old(self),
                0 <= i <= vectors@.len(),
                forall|j: int| 0 <= j < i ==> (#[trigger] vectors@[j])@.len() == self.dimension,
            decreases vectors@.len() - i,
        {
            if vectors[i].len() != self.dimension {
                assert(first_mismatch(vectors@, self.dim(), i as int));
                return Err(
                    SearchError::DimensionMismatch {
                        expected: self.dimension,
                        actual: vectors[i].len(),
                        position: Some(i),
                    },
                );
            }
            i = i + 1;
        }
        proof {
            use_type_invariant(&*self);
        }
        let ghost pre = *self;
        let n = vectors.len();
        let start = self.vectors.len();
        let (mut stored, mut metas, dimension) = self.take_parts();
        let mut ids: Vec<usize> = Vec::new();
        let mut j: usize = 0;
        while j < n
            invariant
                0 <= j <= n,
                n == vectors@.len(),
                start == pre.vectors@.len(),
                pre.wf(),
                stored == pre.vectors,
                dimension == pre.dimension,
                metas@.len() == start + j,
                forall|a: int| 0 <= a < start ==> #[trigger] metas@[a] == pre.metadata@[a],
                forall|a: int| 0 <= a < j ==> (#[trigger] metas@[start + a])@ == batch_meta(metadata, a),
                ids@ == Seq::new(j as nat, |a: int| (start + a) as usize),
            decreases n - j,
        {
            let m = match &metadata {
                Some(list) => if j < list.len() {
                    list[j].clone()
                } else {
                    Metadata::new()
                },
                None => Metadata::new(),
            };
            metas.push(m);
            // start + j is the length of the metadata vector just pushed to, less one
            ids.push(metas.len() - 1);
            assert(ids@ =~= Seq::new((j + 1) as nat, |a: int| (start + a) as usize));
            j = j + 1;
        }
        let mut rest = vectors;
        stored.append(&mut rest);
        proof {
            assert forall|a: int| 0 <= a < stored@.len() implies (#[trigger] stored@[a])@.len() == dimension by {
                if a >= start {
                    assert(stored@[a] == vectors@[a - start]);
                }
            }
        }
        *self = VectorIndex { vectors: stored, metadata: metas, dimension };
        proof {
            let batch = Seq::new(n as nat, |a: int| batch_meta(metadata, a));
            assert(self.metas() =~= pre.metas() + batch) by {
                assert forall|a: int| 0 <= a < self.metas().len() implies #[trigger] self.metas()[a] == (pre.metas() + batch)[a] by {
                    if a >= start {
                        assert(self.metadata@[start + (a - start)]@ == batch_meta(metadata, a - start));
                    }
                }
            }
        }
        Ok(ids)
    }

    /// A copy of the metadata at `index`.
    pub fn get_metadata(&self, index: usize) -> (r: Result<Metadata, SearchError>)
        ensures
            index >= self.entries().len() ==> r == Err::<Metadata, SearchError>(
                SearchError::IndexOutOfBounds { index, size: self.entries().len() as usize },
            ),
            index < self.entries().len() ==> (r matches Ok(m) && m@ == self.metas()[
                index as int]),
    {
        proof {
            use_type_invariant(self);
        }
        if index >= self.metadata.len() {
            return Err(SearchError::IndexOutOfBounds { index, size: self.vectors.len() });
        }
        Ok(self.metadata[index].clone())
    }

    /// Removes every entry; the dimension stays.
    pub fn clear(&mut self)
        ensures
            Self::clear_outcome(*old(self), *final(self)),
    {
        *self = VectorIndex::new(self.dimension);
    }

    /// The `k` entries most similar to `query`, best first, where `scores[i]`
    /// is the similarity of entry `i` to the query and `query_norm` the
    /// query's norm. A query of the wrong length is refused, also on an empty
    /// index; an empty index otherwise answers with no matches; a query of
    /// zero norm is refused.
    pub fn search(&self, query: &Vec<T>, k: usize, query_norm: u32, scores: &Vec<u32>) -> (r:
        Result<Matches, SearchError>)
        requires
            scores@.len() == self.entries().len(),
        ensures
            query@.len() != self.dim() ==> r == Err::<Matches, SearchError>(
                SearchError::DimensionMismatch {
                    expected: self.dim() as usize,
                    actual: query@.len() as usize,
                    position: None,
                },
            ),
            query@.len() == self.dim() && self.entries().len() == 0 ==> (r matches Ok(m)
                && m.ids@.len() == 0 && m.scores@.len() == 0),
            query@.len() == self.dim() && self.entries().len() > 0 && spec_is_zero(query_norm)
                ==> r == Err::<Matches, SearchError>(SearchError::EmptyOrZeroNormVector),
            query@.len() == self.dim() && self.entries().len() > 0 && !spec_is_zero(query_norm)
                ==> similarity_outcome(
                scores@,
                positions_where(any_position(), self.entries().len()),
                k as nat,
                r,
            ),
    {
        if query.len() != self.dimension {
            return Err(
                SearchError::DimensionMismatch {
                    expected: self.dimension,
                    actual: query.len(),
                    position: None,
                },
            );
        }
        if self.vectors.len() == 0 {
            return Ok(Matches::empty());
        }
        if is_zero(query_norm) {
            return Err(SearchError::EmptyOrZeroNormVector);
        }
        rank_all(scores, k, Ranking::Descending)
    }

    /// As `search`, over only the entries whose metadata holds `key` with
    /// exactly `value`; entries without the key take no part. There is no
    /// shortcut for an empty index: a query of zero norm is always refused.
    pub fn search_with_filter(
        &self,
        query: &Vec<T>,
        k: usize,
        key: &String,
        value: &String,
        query_norm: u32,
        scores: &Vec<u32>,
    ) -> (r: Result<Matches, SearchError>)
        requires
            scores@.len() == self.entries().len(),
        ensures
            query@.len() != self.dim() ==> r == Err::<Matches, SearchError>(
                SearchError::DimensionMismatch {
                    expected: self.dim() as usize,
                    actual: query@.len() as usize,
                    position: None,
                },
            ),
            query@.len() == self.dim() && spec_is_zero(query_norm) ==> r == Err::<
                Matches,
                SearchError,
            >(SearchError::EmptyOrZeroNormVector),
            query@.len() == self.dim() && !spec_is_zero(query_norm) ==> similarity_outcome(
                scores@,
                positions_where(filter_hit(self.metas(), key@, value@), self.entries().len()),
                k as nat,
                r,
            ),
    {
        if query.len() != self.dimension {
            return Err(
                SearchError::DimensionMismatch {
                    expected: self.dimension,
                    actual: query.len(),
                    position: None,
                },
            );
        }
        if is_zero(query_norm) {
            return Err(SearchError::EmptyOrZeroNormVector);
        }
        proof {
            use_type_invariant(self);
        }
        let ghost hit = filter_hit(self.metas(), key@, value@);
        let mut cands: Vec<usize> = Vec::new();
        let mut i: usize = 0;
        while i < self.metadata.len()
            invariant
                self.wf(),
                0 <= i <= self.metadata@.len(),
                hit == filter_hit(self.metas(), key@, value@),
                cands@ == positions_where(hit, i as nat),
            decreases self.metadata@.len() - i,
        {
            assert(self.metas()[i as int] == self.metadata@[i as int]@);
            if self.metadata[i].matches(key, value) {
                cands.push(i);
            }
            i = i + 1;
        }
        proof {
            lemma_positions_where(hit, self.entries().len());
        }
        rank_candidates(scores, &cands, k, Ranking::Descending)
    }
}

} // verus!
