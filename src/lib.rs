//! Brute-force vector similarity search.
//!
//! The library keeps the bookkeeping and ranking side of a vector index:
//! dimension checks, all-or-nothing batch insertion, per-entry metadata,
//! metadata filters, stable top-k selection and radius filtering. Scores and
//! distances are carried as IEEE-754 binary32 bit patterns, so the ranking
//! logic is stated and proved over integers; computing the scores themselves
//! is left to the caller.

mod batch;
mod error;
mod index;
mod metadata;
mod score;
mod topk;

pub use batch::{brute_force_knn, common_dimension, radius_search, top_k_similar};
pub use error::SearchError;
pub use index::VectorIndex;
pub use metadata::Metadata;
pub use score::{is_nan, is_zero, order_key};
pub use topk::{rank_all, rank_candidates, select_top_k, Matches, Ranking};
