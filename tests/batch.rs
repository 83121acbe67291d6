use vector_search::{
    brute_force_knn, common_dimension, is_nan, is_zero, order_key, radius_search, rank_all,
    select_top_k, top_k_similar, Ranking, SearchError,
};

fn distances(query: &[f32], vectors: &[Vec<f32>]) -> Vec<u32> {
    vectors
        .iter()
        .map(|t| {
            query
                .iter()
                .zip(t.iter())
                .map(|(q, x)| (q - x).powi(2))
                .sum::<f32>()
                .sqrt()
                .to_bits()
        })
        .collect()
}

fn bits(values: &[f32]) -> Vec<u32> {
    values.iter().map(|v| v.to_bits()).collect()
}

fn floats(values: &[u32]) -> Vec<f32> {
    values.iter().map(|b| f32::from_bits(*b)).collect()
}

#[test]
fn test_brute_force_knn() {
    let query = vec![0.0, 0.0];
    let vectors = vec![vec![1.0, 0.0], vec![0.0, 1.0], vec![5.0, 5.0]];
    let d = distances(&query, &vectors);
    let m = brute_force_knn(&query, &vectors, &d, 2).unwrap();
    assert_eq!(m.ids.len(), 2);
    assert!(f32::from_bits(m.scores[0]) <= f32::from_bits(m.scores[1]));
}

#[test]
fn knn_excludes_the_far_candidate() {
    let query = vec![0.0, 0.0];
    let vectors = vec![vec![1.0, 0.0], vec![0.0, 1.0], vec![5.0, 5.0]];
    let d = distances(&query, &vectors);
    let m = brute_force_knn(&query, &vectors, &d, 2).unwrap();
    let mut ids = m.ids.clone();
    ids.sort();
    assert_eq!(ids, vec![0, 1]);
    assert_eq!(floats(&m.scores), vec![1.0, 1.0]);
}

#[test]
fn knn_refuses_mismatched_candidate() {
    let query = vec![0.0, 0.0];
    let vectors = vec![vec![1.0, 0.0], vec![0.0, 1.0, 2.0]];
    let d = distances(&query, &vectors);
    let r = brute_force_knn(&query, &vectors, &d, 2);
    assert!(matches!(
        r,
        Err(SearchError::DimensionMismatch { expected: 2, actual: 3, position: Some(1) })
    ));
}

#[test]
fn knn_on_no_candidates_is_empty() {
    let query = vec![0.0, 0.0];
    let m = brute_force_knn(&query, &Vec::<Vec<f32>>::new(), &Vec::new(), 3).unwrap();
    assert_eq!(m.len(), 0);
}

#[test]
fn radius_search_keeps_candidates_within() {
    let query = vec![0.0, 0.0];
    let vectors = vec![vec![1.0, 0.0], vec![0.0, 1.0], vec![5.0, 5.0], vec![0.0, 0.0, 0.0]];
    let d = distances(&query, &vectors);
    let m = radius_search(&query, &vectors, &d, 1.0f32.to_bits());
    assert_eq!(m.ids, vec![0, 1]);
    assert_eq!(floats(&m.scores), vec![1.0, 1.0]);
}

#[test]
fn radius_search_sorts_ascending() {
    let query = vec![0.0];
    let vectors = vec![vec![3.0], vec![-1.0], vec![2.0], vec![10.0]];
    let d = distances(&query, &vectors);
    let m = radius_search(&query, &vectors, &d, 3.0f32.to_bits());
    assert_eq!(m.ids, vec![1, 2, 0]);
    let nothing = radius_search(&query, &vectors, &d, f32::NAN.to_bits());
    assert_eq!(nothing.len(), 0);
}

#[test]
fn top_k_similar_ranks_and_truncates() {
    let sims = bits(&[0.2, 0.9, -0.5, 0.9]);
    let m = top_k_similar(1.0f32.to_bits(), &sims, 3).unwrap();
    assert_eq!(m.ids, vec![1, 3, 0]);
    let all = top_k_similar(1.0f32.to_bits(), &sims, 99).unwrap();
    assert_eq!(all.ids, vec![1, 3, 0, 2]);
    assert!(matches!(
        top_k_similar(0.0f32.to_bits(), &sims, 3),
        Err(SearchError::EmptyOrZeroNormVector)
    ));
    assert!(matches!(
        top_k_similar((-0.0f32).to_bits(), &Vec::new(), 3),
        Err(SearchError::EmptyOrZeroNormVector)
    ));
}

#[test]
fn selection_fails_on_first_nan_candidate() {
    let scores = bits(&[1.0, f32::NAN, 2.0, f32::NAN]);
    assert_eq!(select_top_k(&scores, &vec![0, 2, 3], 2, Ranking::Ascending), Err(3));
    assert_eq!(select_top_k(&scores, &vec![0, 1, 3], 2, Ranking::Ascending), Err(1));
    assert_eq!(select_top_k(&scores, &vec![0, 2], 5, Ranking::Descending), Ok(vec![2, 0]));
    assert!(matches!(
        rank_all(&scores, 1, Ranking::Descending),
        Err(SearchError::NanScore { index: 1 })
    ));
}

#[test]
fn selection_orders_signs_and_zeros() {
    let scores = bits(&[0.0, -2.0, -0.0, 3.0, -1.0, f32::INFINITY, f32::NEG_INFINITY]);
    let m = rank_all(&scores, 7, Ranking::Ascending).unwrap();
    assert_eq!(m.ids, vec![6, 1, 4, 0, 2, 3, 5]);
    let d = rank_all(&scores, 3, Ranking::Descending).unwrap();
    assert_eq!(d.ids, vec![5, 3, 0]);
}

#[test]
fn score_bits_helpers() {
    assert!(is_nan(f32::NAN.to_bits()));
    assert!(is_nan(0xffc0_0000));
    assert!(!is_nan(f32::INFINITY.to_bits()));
    assert!(is_zero(0.0f32.to_bits()));
    assert!(is_zero((-0.0f32).to_bits()));
    assert!(!is_zero(1.0f32.to_bits()));
    assert_eq!(order_key(1.0f32.to_bits()), 0xbf80_0000);
    assert_eq!(order_key((-1.0f32).to_bits()), 0x407f_ffff);
    assert_eq!(order_key(0.0f32.to_bits()), order_key((-0.0f32).to_bits()));
    assert!(order_key((-0.5f32).to_bits()) > order_key((-1.5f32).to_bits()));
}

#[test]
fn common_dimension_checks_every_vector() {
    let v: Vec<Vec<f32>> = vec![vec![1.0, 2.0, 3.0], vec![4.0, 5.0, 6.0], vec![7.0, 8.0, 9.0]];
    assert_eq!(common_dimension(&v), Ok(3));
    let bad: Vec<Vec<f32>> = vec![vec![1.0, 2.0], vec![4.0, 5.0], vec![7.0]];
    assert_eq!(
        common_dimension(&bad),
        Err(SearchError::DimensionMismatch { expected: 2, actual: 1, position: Some(2) })
    );
    assert_eq!(common_dimension(&Vec::<Vec<f32>>::new()), Err(SearchError::EmptyOrZeroNormVector));
}
