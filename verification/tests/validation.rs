use engine::error::CommonError;
use engine::validation::{validate_cluster_count_covers_slopes, validate_cluster_groups};

#[test]
fn validate_cluster_groups_returns_distinct_group_count_when_at_least_two() {
    let groups = vec![
        "a".to_string(),
        "a".to_string(),
        "b".to_string(),
        "c".to_string(),
    ];
    assert_eq!(validate_cluster_groups(&groups, 4), Ok(3));
}

#[test]
fn validate_cluster_groups_returns_insufficient_clusters_error_when_only_one_group() {
    let groups = vec!["a".to_string(), "a".to_string(), "a".to_string()];
    assert_eq!(
        validate_cluster_groups(&groups, 3),
        Err(CommonError::InsufficientClusters { g: 1 })
    );
}

#[test]
fn validate_cluster_count_covers_slopes_accepts_when_g_exceeds_q() {
    assert_eq!(validate_cluster_count_covers_slopes(3, 2), Ok(()));
}

#[test]
fn validate_cluster_count_covers_slopes_rejects_when_g_equals_q() {
    assert_eq!(
        validate_cluster_count_covers_slopes(2, 2),
        Err(CommonError::InsufficientClustersForInference { g: 2, q: 2 })
    );
}

#[test]
fn validate_cluster_count_covers_slopes_rejects_when_g_below_q() {
    assert_eq!(
        validate_cluster_count_covers_slopes(2, 3),
        Err(CommonError::InsufficientClustersForInference { g: 2, q: 3 })
    );
}

#[test]
fn validate_cluster_count_covers_slopes_accepts_intercept_only_model() {
    assert_eq!(validate_cluster_count_covers_slopes(2, 0), Ok(()));
}
