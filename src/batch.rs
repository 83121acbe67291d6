//! Stateless searches over a caller-supplied collection of vectors, ranked
//! by caller-supplied scores or distances.

use crate::error::SearchError;
use crate::index::{first_mismatch, similarity_outcome};
use crate::score::{is_nan, is_zero, order_key, rank_key, spec_is_nan, spec_is_zero};
use crate::topk::{
    any_position, first_nan, lemma_positions_where, no_nan, positions_where, rank_all,
    rank_candidates, ranked, Matches, Ranking,
};
use vstd::prelude::*;

verus! {

/// Candidate `i` has the query's length and lies within `radius`, compared
/// as numbers; a NaN on either side never compares within.
pub open spec fn within_radius<T>(
    vectors: Seq<Vec<T>>,
    query_len: nat,
    distances: Seq<u32>,
    radius: u32,
) -> spec_fn(int) -> bool {
    |i: int|
        vectors[i]@.len() == query_len && !spec_is_nan(distances[i]) && !spec_is_nan(radius)
            && rank_key(distances[i]) <= rank_key(radius)
}

/// The `k` candidates nearest to `query`, nearest first, where
/// `distances[i]` is the distance from the query to `vectors[i]`. Every
/// candidate must have the query's length: the first that does not is
/// reported. No candidates give no matches.
pub fn brute_force_knn<T>(query: &Vec<T>, vectors: &Vec<Vec<T>>, distances: &Vec<u32>, k: usize) -> (r:
    Result<Matches, SearchError>)
    requires
        distances@.len() == vectors@.len(),
    ensures
        vectors@.len() == 0 ==> (r matches Ok(m) && m.ids@.len() == 0 && m.scores@.len() == 0),
        vectors@.len() > 0 ==> match r {
            Err(SearchError::DimensionMismatch { expected, actual, position }) => exists|p: int|
                first_mismatch(vectors@, query@.len(), p) && expected == query@.len() && actual
                    == vectors@[p]@.len() && position == Some(p as usize),
            Err(e) => (forall|i: int|
                0 <= i < vectors@.len() ==> (#[trigger] vectors@[i])@.len() == query@.len())
                && exists|p: usize|
                first_nan(distances@, positions_where(any_position(), vectors@.len()), p) && e == (
                SearchError::NanScore { index: p }),
            Ok(m) => {
                &&& forall|i: int| 0 <= i < vectors@.len() ==> (#[trigger] vectors@[i])@.len() == query@.len()
                &&& no_nan(distances@, positions_where(any_position(), vectors@.len()))
                &&& ranked(distances@, Ranking::Ascending, positions_where(any_position(), vectors@.len()), k as nat, m)
            },
        },
{
    if vectors.len() == 0 {
        return Ok(Matches::empty());
    }
    let dimension = query.len();
    let mut i: usize = 0;
    while i < vectors.len()
        invariant
            0 <= i <= vectors@.len(),
            dimension == query@.len(),
            forall|j: int| 0 <= j < i ==> (#[trigger] vectors@[j])@.len() == dimension,
        decreases vectors@.len() - i,
    {
        if vectors[i].len() != dimension {
            assert(first_mismatch(vectors@, query@.len(), i as int));
            return Err(
                SearchError::DimensionMismatch {
                    expected: dimension,
                    actual: vectors[i].len(),
                    position: Some(i),
                },
            );
        }
        i = i + 1;
    }
    rank_all(distances, k, Ranking::Ascending)
}

/// Every candidate within `radius` of `query`, nearest first, where
/// `distances[i]` is the distance from the query to `vectors[i]`.
/// Candidates whose length differs from the query's are skipped.
pub fn radius_search<T>(query: &Vec<T>, vectors: &Vec<Vec<T>>, distances: &Vec<u32>, radius: u32) -> (r:
    Matches)
    requires
        distances@.len() == vectors@.len(),
    ensures
        ranked(
            distances@,
            Ranking::Ascending,
            positions_where(within_radius(vectors@, query@.len(), distances@, radius), vectors@.len()),
            vectors@.len(),
            r,
        ),
        forall|x: usize| #[trigger]
            r.ids@.contains(x) <==> x < vectors@.len() && within_radius(
                vectors@,
                query@.len(),
                distances@,
                radius,
            )(x as int),
{
    let ghost within = within_radius(vectors@, query@.len(), distances@, radius);
    let limit = order_key(radius);
    let radius_nan = is_nan(radius);
    let mut cands: Vec<usize> = Vec::new();
    let mut i: usize = 0;
    while i < vectors.len()
        invariant
            0 <= i <= vectors@.len(),
            distances@.len() == vectors@.len(),
            within == within_radius(vectors@, query@.len(), distances@, radius),
            limit == rank_key(radius),
            radius_nan == spec_is_nan(radius),
            cands@ == positions_where(within, i as nat),
        decreases vectors@.len() - i,
    {
        let d = distances[i];
        if vectors[i].len() == query.len() && !is_nan(d) && !radius_nan && order_key(d) <= limit {
            cands.push(i);
        }
        i = i + 1;
    }
    proof {
        lemma_positions_where(within, vectors@.len());
    }
    match rank_candidates(distances, &cands, vectors.len(), Ranking::Ascending) {
        Ok(m) => {
            proof {
                assert forall|x: usize| #[trigger] m.ids@.contains(x) <==> cands@.contains(x) by {
                    if m.ids@.contains(x) {
                        let a = choose|a: int| 0 <= a < m.ids@.len() && m.ids@[a] == x;
                        assert(cands@.contains(m.ids@[a]));
                    }
                }
            }
            m
        },
        Err(_) => {
            proof {
                let p = choose|p: usize| first_nan(distances@, cands@, p);
                assert(cands@.contains(p));
            }
            Matches::empty()
        },
    }
}

/// The `k` targets most similar to the query, best first, where
/// `similarities[i]` is the query's similarity to target `i` and
/// `query_norm` the query's norm; a query of zero norm is refused.
pub fn top_k_similar(query_norm: u32, similarities: &Vec<u32>, k: usize) -> (r: Result<
    Matches,
    SearchError,
>)
    ensures
        spec_is_zero(query_norm) ==> r == Err::<Matches, SearchError>(
            SearchError::EmptyOrZeroNormVector,
        ),
        !spec_is_zero(query_norm) ==> similarity_outcome(
            similarities@,
            positions_where(any_position(), similarities@.len()),
            k as nat,
            r,
        ),
{
    if is_zero(query_norm) {
        return Err(SearchError::EmptyOrZeroNormVector);
    }
    rank_all(similarities, k, Ranking::Descending)
}

/// The length shared by all of `vectors`: that of the first, or the first
/// that differs from it. An empty collection has none.
pub fn common_dimension<T>(vectors: &Vec<Vec<T>>) -> (r: Result<usize, SearchError>)
    ensures
        vectors@.len() == 0 ==> r == Err::<usize, SearchError>(SearchError::EmptyOrZeroNormVector),
        vectors@.len() > 0 ==> match r {
            Ok(d) => d == vectors@[0]@.len() && forall|i: int|
                0 <= i < vectors@.len() ==> (#[trigger] vectors@[i])@.len() == d,
            Err(e) => exists|p: int|
                first_mismatch(vectors@, vectors@[0]@.len(), p) && e == (
                SearchError::DimensionMismatch {
                    expected: vectors@[0]@.len() as usize,
                    actual: vectors@[p]@.len() as usize,
                    position: Some(p as usize),
                }),
        },
{
    if vectors.len() == 0 {
        return Err(SearchError::EmptyOrZeroNormVector);
    }
    let dimension = vectors[0].len();
    let mut i: usize = 0;
    while i < vectors.len()
        invariant
            0 <= i <= vectors@.len(),
            vectors@.len() > 0,
            dimension == vectors@[0]@.len(),
            forall|j: int| 0 <= j < i ==> (#[trigger] vectors@[j])@.len() == dimension,
        decreases vectors@.len() - i,
    {
        if vectors[i].len() != dimension {
            assert(first_mismatch(vectors@, vectors@[0]@.len(), i as int));
            return Err(
                SearchError::DimensionMismatch {
                    expected: dimension,
                    actual: vectors[i].len(),
                    position: Some(i),
                },
            );
        }
        i = i + 1;
    }
    Ok(dimension)
}

} // verus!
