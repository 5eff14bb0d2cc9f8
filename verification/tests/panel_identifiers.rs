use engine::error::CommonError;
use engine::panel::common::{
    check_column_lengths, count_unique, resolve_dk_bandwidth, PanelCovPlan, PanelDimension,
    PanelError,
};
use engine::panel::fe::{
    entity_nested_within_cluster, fe_cov_plan, fe_degrees_of_freedom, group_sizes,
    reject_singleton_group, validate_balanced_panel, validate_fe_panel,
    validate_no_singleton_groups_one_way, validate_no_singleton_groups_two_way, FeCovType,
    FeDegreesOfFreedom, FeEffects,
};
use engine::panel::groups::group_indices_by_key;
use engine::panel::layout::PanelLayout;
use engine::panel::re::{re_cov_plan, ReCovType};

fn strings(values: &[&str]) -> Vec<String> {
    values.iter().map(|s| s.to_string()).collect()
}

// ── panel layout (identifier side of the fixed/random effects inputs) ──────

#[test]
fn fe_from_columns_builds_one_way_input() {
    let entity = strings(&["a", "a", "b", "b"]);
    let layout =
        PanelLayout::from_columns(4, &[4], vec!["x1".to_string()], &entity, None, "y".to_string())
            .unwrap();
    assert_eq!(layout.x_names(), &["x1".to_string()]);
    assert_eq!(layout.entity(), entity.as_slice());
    assert_eq!(layout.time(), None);
    assert_eq!(layout.dep_var_name(), "y");
    assert_eq!(layout.nobs(), 4);
}

#[test]
fn fe_from_columns_builds_two_way_input() {
    let entity = strings(&["a", "a", "b", "b"]);
    let time = strings(&["2020", "2021", "2020", "2021"]);
    let layout = PanelLayout::from_columns(
        4,
        &[4],
        vec!["x1".to_string()],
        &entity,
        Some(&time),
        "y".to_string(),
    )
    .unwrap();
    assert_eq!(layout.time(), Some(time.as_slice()));
}

#[test]
fn fe_from_columns_with_no_regressors_succeeds() {
    let entity = strings(&["a", "b"]);
    let layout = PanelLayout::from_columns(2, &[], vec![], &entity, None, "y".to_string()).unwrap();
    assert!(layout.x_names().is_empty());
}

#[test]
fn fe_from_columns_returns_dimension_mismatch_on_mismatched_x_column_length() {
    let entity = strings(&["a", "b", "c"]);
    let result =
        PanelLayout::from_columns(3, &[2], vec!["x1".to_string()], &entity, None, "y".to_string());
    assert_eq!(
        result.err(),
        Some(PanelError::Common(CommonError::DimensionMismatch { y_rows: 3, x_rows: 2 }))
    );
}

#[test]
fn fe_from_columns_returns_identifier_dimension_mismatch_for_entity() {
    let entity = strings(&["a", "b"]);
    let result = PanelLayout::from_columns(3, &[], vec![], &entity, None, "y".to_string());
    assert_eq!(
        result.err(),
        Some(PanelError::IdentifierDimensionMismatch {
            dimension: PanelDimension::Entity,
            y_rows: 3,
            other_rows: 2,
        })
    );
}

#[test]
fn fe_from_columns_returns_identifier_dimension_mismatch_for_time() {
    let entity = strings(&["a", "b", "c"]);
    let time = strings(&["2020", "2021"]);
    let result = PanelLayout::from_columns(3, &[], vec![], &entity, Some(&time), "y".to_string());
    assert_eq!(
        result.err(),
        Some(PanelError::IdentifierDimensionMismatch {
            dimension: PanelDimension::Time,
            y_rows: 3,
            other_rows: 2,
        })
    );
}

#[test]
fn fe_from_columns_with_zero_observations_succeeds() {
    let layout = PanelLayout::from_columns(0, &[], vec![], &[], Some(&[]), "y".to_string()).unwrap();
    assert_eq!(layout.nobs(), 0);
    assert_eq!(layout.time(), Some([].as_slice()));
}

#[test]
fn check_column_lengths_reports_the_first_short_x_column() {
    assert_eq!(
        check_column_lengths(3, &[3, 1, 2], 3, None),
        Err(PanelError::Common(CommonError::DimensionMismatch { y_rows: 3, x_rows: 1 }))
    );
    assert_eq!(
        check_column_lengths(3, &[2], 1, Some(0)),
        Err(PanelError::Common(CommonError::DimensionMismatch { y_rows: 3, x_rows: 2 }))
    );
    assert_eq!(check_column_lengths(3, &[3, 3], 3, Some(3)), Ok(()));
}

// ── singleton groups ───────────────────────────────────────────────────────

#[test]
fn validate_no_singleton_groups_one_way_detects_entity_singleton() {
    let entity = strings(&["a", "a", "c"]);
    assert_eq!(
        validate_no_singleton_groups_one_way(&entity),
        Err(PanelError::SingletonGroup {
            dimension: PanelDimension::Entity,
            group_id: "c".to_string(),
        })
    );
}

#[test]
fn validate_no_singleton_groups_one_way_accepts_no_singleton() {
    let entity = strings(&["a", "a", "b", "b"]);
    assert_eq!(validate_no_singleton_groups_one_way(&entity), Ok(()));
}

#[test]
fn validate_no_singleton_groups_two_way_detects_entity_singleton() {
    let entity = strings(&["a", "a", "b", "b", "c"]);
    let time = strings(&["1", "2", "1", "2", "1"]);
    assert_eq!(
        validate_no_singleton_groups_two_way(&entity, Some(&time)),
        Err(PanelError::SingletonGroup {
            dimension: PanelDimension::Entity,
            group_id: "c".to_string(),
        })
    );
}

#[test]
fn validate_no_singleton_groups_two_way_detects_time_singleton() {
    let entity = strings(&["a", "a", "a", "b", "b"]);
    let time = strings(&["1", "2", "3", "1", "2"]);
    assert_eq!(
        validate_no_singleton_groups_two_way(&entity, Some(&time)),
        Err(PanelError::SingletonGroup {
            dimension: PanelDimension::Time,
            group_id: "3".to_string(),
        })
    );
}

#[test]
fn validate_no_singleton_groups_two_way_reports_entity_before_time_when_both_present() {
    let entity = strings(&["a", "a", "b", "b", "c"]);
    let time = strings(&["1", "2", "1", "2", "3"]);
    assert_eq!(
        validate_no_singleton_groups_two_way(&entity, Some(&time)),
        Err(PanelError::SingletonGroup {
            dimension: PanelDimension::Entity,
            group_id: "c".to_string(),
        })
    );
}

#[test]
fn validate_no_singleton_groups_two_way_requires_time() {
    let entity = strings(&["a", "a"]);
    assert_eq!(
        validate_no_singleton_groups_two_way(&entity, None),
        Err(PanelError::TwoWayRequiresTime)
    );
}

#[test]
fn validate_no_singleton_groups_two_way_reports_missing_time_even_with_entity_singleton() {
    let entity = strings(&["a", "a", "c"]);
    assert_eq!(
        validate_no_singleton_groups_two_way(&entity, None),
        Err(PanelError::TwoWayRequiresTime)
    );
}

#[test]
fn reject_singleton_group_with_no_observations_succeeds() {
    assert_eq!(reject_singleton_group(PanelDimension::Entity, &[]), Ok(()));
}

#[test]
fn validate_no_singleton_groups_two_way_accepts_no_singleton() {
    let entity = strings(&["a", "a", "b", "b"]);
    let time = strings(&["1", "2", "1", "2"]);
    assert_eq!(validate_no_singleton_groups_two_way(&entity, Some(&time)), Ok(()));
}

#[test]
fn reject_singleton_group_reports_the_first_singleton_in_observation_order() {
    let ids = strings(&["b", "z", "b", "y"]);
    assert_eq!(
        reject_singleton_group(PanelDimension::Time, &ids),
        Err(PanelError::SingletonGroup {
            dimension: PanelDimension::Time,
            group_id: "z".to_string(),
        })
    );
}

// ── balanced panels ─────────────────────────────────────────────────────────

#[test]
fn validate_balanced_panel_rejects_missing_combination() {
    let entity = strings(&["a", "a", "b"]);
    let time = strings(&["1", "2", "1"]);
    assert_eq!(
        validate_balanced_panel(&entity, &time),
        Err(PanelError::UnbalancedPanelForTwoWay {
            n_obs: 3,
            n_entities: 2,
            n_periods: 2,
            expected: 4,
        })
    );
}

#[test]
fn validate_balanced_panel_rejects_duplicate_pair_that_offsets_missing_combination() {
    let entity = strings(&["a", "a", "b", "b"]);
    let time = strings(&["1", "1", "2", "2"]);
    assert_eq!(
        validate_balanced_panel(&entity, &time),
        Err(PanelError::UnbalancedPanelForTwoWay {
            n_obs: 4,
            n_entities: 2,
            n_periods: 2,
            expected: 4,
        })
    );
}

#[test]
fn validate_balanced_panel_accepts_every_pair_once_in_any_order() {
    let entity = strings(&["b", "a", "a", "b", "c", "c"]);
    let time = strings(&["2", "1", "2", "1", "2", "1"]);
    assert_eq!(validate_balanced_panel(&entity, &time), Ok(()));
}

// ── the checks before the within transformation, and degrees of freedom ────

#[test]
fn validate_fe_panel_two_way_propagates_unbalanced_panel_error() {
    let entity = strings(&["a", "a", "b", "b"]);
    let time = strings(&["1", "1", "2", "2"]);
    assert_eq!(
        validate_fe_panel(&entity, Some(&time), 0, FeEffects::TwoWay),
        Err(PanelError::UnbalancedPanelForTwoWay {
            n_obs: 4,
            n_entities: 2,
            n_periods: 2,
            expected: 4,
        })
    );
}

#[test]
fn validate_fe_panel_one_way_propagates_singleton_error() {
    let entity = strings(&["a", "a", "b"]);
    assert_eq!(
        validate_fe_panel(&entity, None, 1, FeEffects::OneWay),
        Err(PanelError::SingletonGroup {
            dimension: PanelDimension::Entity,
            group_id: "b".to_string(),
        })
    );
}

#[test]
fn validate_fe_panel_two_way_counts_entities_and_periods() {
    let entity = strings(&["a", "a", "a", "b", "b", "b", "c", "c", "c"]);
    let time = strings(&["1", "2", "3", "1", "2", "3", "1", "2", "3"]);
    assert_eq!(
        validate_fe_panel(&entity, Some(&time), 2, FeEffects::TwoWay),
        Ok(FeDegreesOfFreedom {
            n_entities: 3,
            n_periods: Some(3),
            neffects: 5,
            df_model: 7,
            df_resid: 2,
        })
    );
}

#[test]
fn fe_degrees_of_freedom_one_way_subtracts_entities_and_regressors() {
    assert_eq!(
        fe_degrees_of_freedom(6, 3, None, 0),
        Ok(FeDegreesOfFreedom {
            n_entities: 3,
            n_periods: None,
            neffects: 3,
            df_model: 3,
            df_resid: 3,
        })
    );
}

#[test]
fn fe_degrees_of_freedom_rejects_non_positive_residual_degrees() {
    assert_eq!(
        fe_degrees_of_freedom(10, 8, None, 2),
        Err(PanelError::InsufficientDegreesOfFreedom {
            n_obs: 10,
            n_entities: 8,
            n_periods: None,
            k: 2,
        })
    );
    assert_eq!(
        fe_degrees_of_freedom(20, 5, Some(4), 12),
        Err(PanelError::InsufficientDegreesOfFreedom {
            n_obs: 20,
            n_entities: 5,
            n_periods: Some(4),
            k: 12,
        })
    );
}

// ── clusters ────────────────────────────────────────────────────────────────

#[test]
fn entity_nested_within_cluster_true_for_default_entity_grouping() {
    let entity = strings(&["a", "a", "b", "b"]);
    assert!(entity_nested_within_cluster(&entity, &entity));
}

#[test]
fn entity_nested_within_cluster_true_for_coarser_grouping() {
    let entity = strings(&["a", "a", "b", "b", "c", "c", "d", "d"]);
    let state = strings(&["east", "east", "east", "east", "west", "west", "west", "west"]);
    assert!(entity_nested_within_cluster(&entity, &state));
}

#[test]
fn entity_nested_within_cluster_false_when_an_entity_spans_multiple_clusters() {
    let entity = strings(&["a", "a", "b", "b"]);
    let cluster = strings(&["1", "2", "1", "2"]);
    assert!(!entity_nested_within_cluster(&entity, &cluster));
}

#[test]
fn fe_cov_plan_cluster_propagates_insufficient_clusters_error() {
    let entity = strings(&["a", "a", "b", "b", "c", "c"]);
    let single_cluster = strings(&["g", "g", "g", "g", "g", "g"]);
    assert_eq!(
        fe_cov_plan(
            &FeCovType::Cluster { groups: Some(single_cluster) },
            &entity,
            None,
            1,
            FeEffects::OneWay,
            3,
        ),
        Err(PanelError::Common(CommonError::InsufficientClusters { g: 1 }))
    );
}

#[test]
fn fe_cov_plan_cluster_propagates_insufficient_clusters_for_inference_error() {
    let entity = strings(&["a", "a", "b", "b", "c", "c"]);
    let two_clusters = strings(&["g", "g", "g", "h", "h", "h"]);
    assert_eq!(
        fe_cov_plan(
            &FeCovType::Cluster { groups: Some(two_clusters) },
            &entity,
            None,
            2,
            FeEffects::OneWay,
            3,
        ),
        Err(PanelError::Common(CommonError::InsufficientClustersForInference { g: 2, q: 2 }))
    );
}

#[test]
fn fe_cov_plan_cluster_on_entity_removes_no_extra_degrees_one_way() {
    let entity = strings(&["a", "a", "b", "b", "c", "c"]);
    assert_eq!(
        fe_cov_plan(&FeCovType::Cluster { groups: None }, &entity, None, 1, FeEffects::OneWay, 3),
        Ok(PanelCovPlan::Cluster { n_groups: 3, extra_df: 0 })
    );
}

#[test]
fn fe_cov_plan_cluster_on_entity_removes_effects_two_way() {
    let entity = strings(&["a", "a", "b", "b", "c", "c"]);
    let time = strings(&["1", "2", "1", "2", "1", "2"]);
    assert_eq!(
        fe_cov_plan(
            &FeCovType::Cluster { groups: None },
            &entity,
            Some(&time),
            1,
            FeEffects::TwoWay,
            4,
        ),
        Ok(PanelCovPlan::Cluster { n_groups: 3, extra_df: 4 })
    );
}

#[test]
fn fe_cov_plan_cluster_on_non_nested_variable_removes_effects() {
    let entity = strings(&["a", "a", "b", "b", "c", "c"]);
    let cluster = strings(&["1", "2", "1", "2", "1", "2"]);
    assert_eq!(
        fe_cov_plan(
            &FeCovType::Cluster { groups: Some(cluster) },
            &entity,
            None,
            1,
            FeEffects::OneWay,
            3,
        ),
        Ok(PanelCovPlan::Cluster { n_groups: 2, extra_df: 3 })
    );
}

fn three_period_panel() -> (Vec<String>, Vec<String>) {
    (
        strings(&["a", "a", "a", "b", "b", "b", "c", "c", "c"]),
        strings(&["1", "2", "3", "1", "2", "3", "1", "2", "3"]),
    )
}

#[test]
fn fe_cov_plan_hac_rejects_bandwidth_out_of_range() {
    let (entity, time) = three_period_panel();
    assert_eq!(
        fe_cov_plan(&FeCovType::Hac { bandwidth: Some(3) }, &entity, Some(&time), 1, FeEffects::OneWay, 3),
        Err(PanelError::InvalidHacBandwidth { bandwidth: 3, t: 3 })
    );
}

#[test]
fn fe_cov_plan_hac_rejects_negative_bandwidth() {
    let (entity, time) = three_period_panel();
    assert_eq!(
        fe_cov_plan(&FeCovType::Hac { bandwidth: Some(-1) }, &entity, Some(&time), 1, FeEffects::OneWay, 3),
        Err(PanelError::InvalidHacBandwidth { bandwidth: -1, t: 3 })
    );
}

#[test]
fn fe_cov_plan_hac_requires_time() {
    let (entity, _) = three_period_panel();
    assert_eq!(
        fe_cov_plan(&FeCovType::Hac { bandwidth: None }, &entity, None, 1, FeEffects::OneWay, 3),
        Err(PanelError::HacRequiresTime)
    );
}

#[test]
fn fe_cov_plan_hac_default_bandwidth_for_three_periods() {
    let (entity, time) = three_period_panel();
    assert_eq!(
        fe_cov_plan(&FeCovType::Hac { bandwidth: None }, &entity, Some(&time), 1, FeEffects::OneWay, 3),
        Ok(PanelCovPlan::Hac { bandwidth: 1, t_periods: 3 })
    );
}

#[test]
fn fe_cov_plan_plain_types_need_nothing() {
    let (entity, time) = three_period_panel();
    for cov_type in [FeCovType::Classical, FeCovType::Hc1, FeCovType::Hc2, FeCovType::Hc3] {
        assert_eq!(
            fe_cov_plan(&cov_type, &entity, Some(&time), 1, FeEffects::TwoWay, 5),
            Ok(PanelCovPlan::Plain)
        );
    }
}

#[test]
fn re_cov_plan_hac_rejects_bandwidth_at_least_t_periods() {
    let (entity, time) = three_period_panel();
    assert_eq!(
        re_cov_plan(&ReCovType::Hac { bandwidth: Some(3) }, &entity, Some(&time), 2),
        Err(PanelError::InvalidHacBandwidth { bandwidth: 3, t: 3 })
    );
}

#[test]
fn re_cov_plan_cluster_returns_error_when_cluster_count_at_most_slopes() {
    let entity = strings(&["a", "a", "b", "b", "c", "c"]);
    let two_clusters = strings(&["g", "g", "g", "h", "h", "h"]);
    assert_eq!(
        re_cov_plan(&ReCovType::Cluster { groups: Some(two_clusters) }, &entity, None, 3),
        Err(PanelError::Common(CommonError::InsufficientClustersForInference { g: 2, q: 2 }))
    );
}

#[test]
fn re_cov_plan_cluster_defaults_to_entity_without_extra_degrees() {
    let entity = strings(&["a", "a", "b", "b", "c", "c"]);
    assert_eq!(
        re_cov_plan(&ReCovType::Cluster { groups: None }, &entity, None, 2),
        Ok(PanelCovPlan::Cluster { n_groups: 3, extra_df: 0 })
    );
}

// ── bandwidth rule ──────────────────────────────────────────────────────────

#[test]
fn resolve_dk_bandwidth_default_rule_values() {
    assert_eq!(resolve_dk_bandwidth(None, 0), Ok(0));
    assert_eq!(resolve_dk_bandwidth(None, 1), Ok(1));
    assert_eq!(resolve_dk_bandwidth(None, 3), Ok(1));
    assert_eq!(resolve_dk_bandwidth(None, 10), Ok(2));
    assert_eq!(resolve_dk_bandwidth(None, 100), Ok(4));
    assert_eq!(resolve_dk_bandwidth(None, 1000), Ok(6));
    // 4 * (51200 / 100)^(2/9) is exactly 16.
    assert_eq!(resolve_dk_bandwidth(None, 51200), Ok(16));
    assert_eq!(resolve_dk_bandwidth(None, 51199), Ok(15));
}

#[test]
fn resolve_dk_bandwidth_default_never_exceeds_periods() {
    for t in 0..200usize {
        let b = resolve_dk_bandwidth(None, t).unwrap();
        assert!(b <= t);
        if t >= 2 {
            assert!(b < t);
        }
    }
}

#[test]
fn resolve_dk_bandwidth_explicit_values() {
    assert_eq!(resolve_dk_bandwidth(Some(0), 3), Ok(0));
    assert_eq!(resolve_dk_bandwidth(Some(2), 3), Ok(2));
    assert_eq!(
        resolve_dk_bandwidth(Some(3), 3),
        Err(PanelError::InvalidHacBandwidth { bandwidth: 3, t: 3 })
    );
    assert_eq!(
        resolve_dk_bandwidth(Some(0), 0),
        Err(PanelError::InvalidHacBandwidth { bandwidth: 0, t: 0 })
    );
}

// ── grouping and counting labels ────────────────────────────────────────────

#[test]
fn group_indices_by_key_sorts_labels_and_keeps_positions_in_order() {
    let ids = strings(&["b", "a", "c", "a", "b", "b"]);
    let groups = group_indices_by_key(&ids);
    assert_eq!(groups.keys, strings(&["a", "b", "c"]));
    assert_eq!(groups.indices, vec![vec![1, 3], vec![0, 4, 5], vec![2]]);
}

#[test]
fn group_indices_by_key_orders_by_code_points() {
    let ids = strings(&["2021", "b", "B", "2020", "ab", "a"]);
    let groups = group_indices_by_key(&ids);
    assert_eq!(groups.keys, strings(&["2020", "2021", "B", "a", "ab", "b"]));
    assert_eq!(groups.indices, vec![vec![3], vec![0], vec![2], vec![5], vec![4], vec![1]]);
}

#[test]
fn group_indices_by_key_of_empty_column_is_empty() {
    let groups = group_indices_by_key(&[]);
    assert!(groups.keys.is_empty());
    assert!(groups.indices.is_empty());
}

#[test]
fn group_count_equals_count_unique() {
    let ids = strings(&["x", "y", "x", "z", "y", "x"]);
    assert_eq!(group_indices_by_key(&ids).keys.len(), count_unique(&ids));
    assert_eq!(count_unique(&ids), 3);
    assert_eq!(count_unique(&[]), 0);
}

#[test]
fn group_sizes_counts_each_label() {
    let ids = strings(&["a", "b", "a", "c", "a"]);
    let mut sizes = group_sizes(&ids);
    sizes.sort();
    assert_eq!(
        sizes,
        vec![("a".to_string(), 3), ("b".to_string(), 1), ("c".to_string(), 1)]
    );
}

// ── random-effects inputs share the same layout ─────────────────────────────

#[test]
fn from_columns_builds_input_without_time() {
    let entity = strings(&["a", "a", "b", "b"]);
    let layout =
        PanelLayout::from_columns(4, &[4], vec!["x1".to_string()], &entity, None, "y".to_string())
            .unwrap();
    assert_eq!(layout.x_names(), &["x1".to_string()]);
    assert_eq!(layout.entity(), entity.as_slice());
    assert_eq!(layout.time(), None);
    assert_eq!(layout.dep_var_name(), "y");
    assert_eq!(layout.nobs(), 4);
}

#[test]
fn from_columns_builds_input_with_time() {
    let entity = strings(&["a", "a", "b", "b"]);
    let time = strings(&["2020", "2021", "2020", "2021"]);
    let layout = PanelLayout::from_columns(
        4,
        &[4],
        vec!["x1".to_string()],
        &entity,
        Some(&time),
        "y".to_string(),
    )
    .unwrap();
    assert_eq!(layout.time(), Some(time.as_slice()));
}

#[test]
fn re_from_columns_with_no_regressors_succeeds() {
    let entity = strings(&["a", "b"]);
    let layout = PanelLayout::from_columns(2, &[], vec![], &entity, None, "y".to_string()).unwrap();
    assert!(layout.x_names().is_empty());
}

#[test]
fn re_from_columns_returns_dimension_mismatch_on_mismatched_x_column_length() {
    let entity = strings(&["a", "b", "c"]);
    let result =
        PanelLayout::from_columns(3, &[2], vec!["x1".to_string()], &entity, None, "y".to_string());
    assert_eq!(
        result.err(),
        Some(PanelError::Common(CommonError::DimensionMismatch { y_rows: 3, x_rows: 2 }))
    );
}

#[test]
fn re_from_columns_returns_identifier_dimension_mismatch_for_entity() {
    let entity = strings(&["a", "b"]);
    let result = PanelLayout::from_columns(3, &[], vec![], &entity, None, "y".to_string());
    assert_eq!(
        result.err(),
        Some(PanelError::IdentifierDimensionMismatch {
            dimension: PanelDimension::Entity,
            y_rows: 3,
            other_rows: 2,
        })
    );
}

#[test]
fn re_from_columns_returns_identifier_dimension_mismatch_for_time() {
    let entity = strings(&["a", "b", "c"]);
    let time = strings(&["2020", "2021"]);
    let result = PanelLayout::from_columns(3, &[], vec![], &entity, Some(&time), "y".to_string());
    assert_eq!(
        result.err(),
        Some(PanelError::IdentifierDimensionMismatch {
            dimension: PanelDimension::Time,
            y_rows: 3,
            other_rows: 2,
        })
    );
}

#[test]
fn re_from_columns_with_zero_observations_succeeds() {
    let layout = PanelLayout::from_columns(0, &[], vec![], &[], Some(&[]), "y".to_string()).unwrap();
    assert_eq!(layout.nobs(), 0);
    assert_eq!(layout.time(), Some([].as_slice()));
}
