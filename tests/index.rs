use vector_search::{Metadata, SearchError, VectorIndex};

fn cosine(a: &[f32], b: &[f32]) -> f32 {
    let dot: f32 = a.iter().zip(b.iter()).map(|(x, y)| x * y).sum();
    let na: f32 = a.iter().map(|x| x * x).sum::<f32>().sqrt();
    let nb: f32 = b.iter().map(|x| x * x).sum::<f32>().sqrt();
    if na == 0.0 || nb == 0.0 {
        0.0
    } else {
        dot / (na * nb)
    }
}

fn norm_bits(a: &[f32]) -> u32 {
    a.iter().map(|x| x * x).sum::<f32>().sqrt().to_bits()
}

fn scores_for(index: &VectorIndex<f32>, query: &[f32]) -> Vec<u32> {
    index.vectors().iter().map(|v| cosine(query, v).to_bits()).collect()
}

fn three_vectors() -> VectorIndex<f32> {
    let mut index = VectorIndex::new(3);
    let _ = index.add(vec![1.0, 2.0, 3.0], None);
    let _ = index.add(vec![4.0, 5.0, 6.0], None);
    let _ = index.add(vec![7.0, 8.0, 9.0], None);
    index
}

fn tagged(key: &str, value: &str) -> Metadata {
    let mut m = Metadata::new();
    m.insert(key.to_string(), value.to_string());
    m
}

#[test]
fn test_vector_index() {
    let index = three_vectors();
    assert_eq!(index.size(), 3);

    let query = vec![1.0, 2.0, 3.0];
    let scores = scores_for(&index, &query);
    let m = index.search(&query, 2, norm_bits(&query), &scores).unwrap();
    assert_eq!(m.ids.len(), 2);
    assert!(f32::from_bits(m.scores[0]) > 0.9);
}

#[test]
fn search_ranks_self_match_first() {
    let index = three_vectors();
    let query = vec![1.0, 2.0, 3.0];
    let scores = scores_for(&index, &query);
    let m = index.search(&query, 2, norm_bits(&query), &scores).unwrap();
    assert_eq!(m.ids, vec![0, 1]);
    // in f32 the self-similarity rounds to 0.99999994
    assert!((f32::from_bits(m.scores[0]) - 1.0).abs() < 1e-6);
    let second = f32::from_bits(m.scores[1]);
    assert!(second > 0.9 && second < 1.0);
}

#[test]
fn search_k_beyond_size_returns_all() {
    let index = three_vectors();
    let query = vec![1.0, 2.0, 3.0];
    let scores = scores_for(&index, &query);
    let m = index.search(&query, 10, norm_bits(&query), &scores).unwrap();
    assert_eq!(m.ids.len(), index.size());
    assert_eq!(m.scores.len(), index.size());
    assert_eq!(m.ids[0], 0);
}

#[test]
fn search_with_k_zero_is_empty() {
    let index = three_vectors();
    let query = vec![1.0, 2.0, 3.0];
    let scores = scores_for(&index, &query);
    let m = index.search(&query, 0, norm_bits(&query), &scores).unwrap();
    assert!(m.ids.is_empty() && m.scores.is_empty());
}

#[test]
fn search_refuses_wrong_query_length() {
    let index = three_vectors();
    let query = vec![1.0, 2.0];
    let scores = scores_for(&index, &query);
    let r = index.search(&query, 2, norm_bits(&query), &scores);
    assert!(matches!(
        r,
        Err(SearchError::DimensionMismatch { expected: 3, actual: 2, position: None })
    ));
}

#[test]
fn search_refuses_zero_norm_query() {
    let index = three_vectors();
    let query = vec![0.0, 0.0, 0.0];
    let scores = scores_for(&index, &query);
    let r = index.search(&query, 2, norm_bits(&query), &scores);
    assert!(matches!(r, Err(SearchError::EmptyOrZeroNormVector)));
}

#[test]
fn search_on_empty_index_is_empty_even_for_zero_query() {
    let index: VectorIndex<f32> = VectorIndex::new(3);
    let query = vec![0.0, 0.0, 0.0];
    let m = index.search(&query, 5, norm_bits(&query), &Vec::new()).unwrap();
    assert_eq!(m.len(), 0);
    let wrong = vec![1.0];
    let r = index.search(&wrong, 5, norm_bits(&wrong), &Vec::new());
    assert!(matches!(r, Err(SearchError::DimensionMismatch { expected: 3, actual: 1, .. })));
}

#[test]
fn search_reports_nan_score() {
    let index = three_vectors();
    let query = vec![1.0, 2.0, 3.0];
    let mut scores = scores_for(&index, &query);
    scores[1] = f32::NAN.to_bits();
    let r = index.search(&query, 2, norm_bits(&query), &scores);
    assert!(matches!(r, Err(SearchError::NanScore { index: 1 })));
}

#[test]
fn zero_candidate_ranks_last() {
    let mut index = VectorIndex::new(2);
    let _ = index.add(vec![0.0, 0.0], None);
    let _ = index.add(vec![1.0, 0.0], None);
    let query = vec![1.0, 0.0];
    let scores = scores_for(&index, &query);
    let m = index.search(&query, 2, norm_bits(&query), &scores).unwrap();
    assert_eq!(m.ids, vec![1, 0]);
    assert_eq!(f32::from_bits(m.scores[1]), 0.0);
}

#[test]
fn equal_scores_keep_insertion_order() {
    let mut index = VectorIndex::new(2);
    let _ = index.add(vec![0.0, 1.0], None);
    let _ = index.add(vec![1.0, 0.0], None);
    let _ = index.add(vec![0.0, 2.0], None);
    let _ = index.add(vec![2.0, 0.0], None);
    let query = vec![1.0, 0.0];
    let scores = scores_for(&index, &query);
    let m = index.search(&query, 4, norm_bits(&query), &scores).unwrap();
    assert_eq!(m.ids, vec![1, 3, 0, 2]);
}

#[test]
fn add_returns_positions_and_refuses_mismatch() {
    let mut index = VectorIndex::new(2);
    assert_eq!(index.add(vec![1.0, 0.0], None), Ok(0));
    assert_eq!(index.add(vec![0.0, 1.0], Some(tagged("a", "b"))), Ok(1));
    assert_eq!(
        index.add(vec![1.0, 2.0, 3.0], None),
        Err(SearchError::DimensionMismatch { expected: 2, actual: 3, position: None })
    );
    assert_eq!(index.size(), 2);
    assert_eq!(index.dimension(), 2);
}

#[test]
fn add_batch_is_all_or_nothing() {
    let mut index = VectorIndex::new(2);
    let _ = index.add(vec![1.0, 1.0], None);
    let r = index.add_batch(vec![vec![1.0, 0.0], vec![1.0, 2.0, 3.0], vec![0.0, 1.0]], None);
    assert_eq!(
        r,
        Err(SearchError::DimensionMismatch { expected: 2, actual: 3, position: Some(1) })
    );
    assert_eq!(index.size(), 1);
}

#[test]
fn add_batch_returns_contiguous_positions() {
    let mut index = VectorIndex::new(2);
    let _ = index.add(vec![1.0, 1.0], None);
    let ids = index
        .add_batch(vec![vec![1.0, 0.0], vec![0.0, 1.0], vec![2.0, 2.0]], Some(vec![tagged("kind", "x")]))
        .unwrap();
    assert_eq!(ids, vec![1, 2, 3]);
    assert_eq!(index.size(), 4);
    let first = index.get_metadata(1).unwrap();
    assert_eq!(first.get(&"kind".to_string()), Some(&"x".to_string()));
    assert_eq!(index.get_metadata(2).unwrap().len(), 0);
    assert_eq!(index.get_metadata(3).unwrap().len(), 0);
}

#[test]
fn get_metadata_out_of_bounds() {
    let index = three_vectors();
    assert_eq!(
        index.get_metadata(3).err(),
        Some(SearchError::IndexOutOfBounds { index: 3, size: 3 })
    );
    assert_eq!(index.get_metadata(0).unwrap().len(), 0);
}

#[test]
fn clear_then_add_reuses_position_zero() {
    let mut index = three_vectors();
    index.clear();
    assert_eq!(index.size(), 0);
    index.clear();
    assert_eq!(index.size(), 0);
    assert_eq!(index.dimension(), 3);
    assert_eq!(index.add(vec![1.0, 1.0, 1.0], None), Ok(0));
    assert_eq!(index.size(), 1);
}

#[test]
fn filtered_search_uses_only_matching_entries() {
    let mut index = VectorIndex::new(2);
    let _ = index.add(vec![1.0, 0.0], Some(tagged("lang", "en")));
    let _ = index.add(vec![1.0, 0.1], Some(tagged("lang", "fr")));
    let _ = index.add(vec![0.0, 1.0], Some(tagged("lang", "en")));
    let _ = index.add(vec![1.0, 0.0], None);
    let query = vec![1.0, 0.0];
    let scores = scores_for(&index, &query);
    let m = index
        .search_with_filter(&query, 10, &"lang".to_string(), &"en".to_string(), norm_bits(&query), &scores)
        .unwrap();
    assert_eq!(m.ids, vec![0, 2]);
    assert_eq!(f32::from_bits(m.scores[0]), 1.0);
    assert_eq!(f32::from_bits(m.scores[1]), 0.0);
}

#[test]
fn filtered_search_refuses_zero_query_on_empty_index() {
    let index: VectorIndex<f32> = VectorIndex::new(2);
    let query = vec![0.0, 0.0];
    let r = index.search_with_filter(&query, 1, &"k".to_string(), &"v".to_string(), norm_bits(&query), &Vec::new());
    assert!(matches!(r, Err(SearchError::EmptyOrZeroNormVector)));
}

#[test]
fn metadata_insert_replaces_value() {
    let mut m = Metadata::new();
    m.insert("a".to_string(), "1".to_string());
    m.insert("b".to_string(), "2".to_string());
    m.insert("a".to_string(), "3".to_string());
    assert_eq!(m.len(), 2);
    assert_eq!(m.get(&"a".to_string()), Some(&"3".to_string()));
    assert_eq!(m.get(&"c".to_string()), None);
    assert!(m.matches(&"b".to_string(), &"2".to_string()));
    assert!(!m.matches(&"b".to_string(), &"3".to_string()));
    assert!(!m.matches(&"c".to_string(), &"2".to_string()));
    let copy = m.clone();
    assert_eq!(copy.get(&"b".to_string()), Some(&"2".to_string()));
    let (k, v) = m.entry(0);
    assert_eq!((k.as_str(), v.as_str()), ("a", "3"));
}
