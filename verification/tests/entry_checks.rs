use engine::columns::{validate_iv_roles, validate_ols_names};
use engine::error::LeastSquaresError;
use engine::options::{
    parse_iv_method, parse_linear_cov_type, validate_ols_request, validate_ols_size, CovType,
    IvMethod, LinearCovKind,
};

fn names(values: &[&str]) -> Vec<String> {
    values.iter().map(|s| s.to_string()).collect()
}

// ── standard errors of linear fits ──────────────────────────────────────────

#[test]
fn parse_cov_type_is_case_insensitive() {
    for (input, expected) in [
        ("classical", "classical"),
        ("CLASSICAL", "classical"),
        ("Classical", "classical"),
        ("HC0", "hc0"),
        ("Hc1", "hc1"),
        ("HC2", "hc2"),
        ("hc3", "hc3"),
        ("CLUSTER", "cluster"),
        ("Hac", "hac"),
    ] {
        let Ok((_, normalized)) = parse_linear_cov_type(input) else {
            panic!("expected Ok for input={input}");
        };
        assert_eq!(normalized, expected, "input={input}");
    }
}

#[test]
fn parse_cov_type_accepts_nonrobust_as_classical_alias() {
    for input in ["nonrobust", "NONROBUST", "NonRobust"] {
        let Ok((kind, normalized)) = parse_linear_cov_type(input) else {
            panic!("expected Ok for input={input}");
        };
        assert_eq!(kind, LinearCovKind::Classical, "input={input}");
        assert_eq!(normalized, "nonrobust", "input={input}");
    }
}

#[test]
fn parse_cov_type_returns_validation_error_for_unknown_value() {
    assert!(parse_linear_cov_type("bogus").is_err());
}

#[test]
fn parse_linear_cov_type_names_every_kind() {
    assert_eq!(parse_linear_cov_type("HC0"), Ok((LinearCovKind::Hc0, "hc0".to_string())));
    assert_eq!(parse_linear_cov_type("hc3"), Ok((LinearCovKind::Hc3, "hc3".to_string())));
    assert_eq!(parse_linear_cov_type("HAC"), Ok((LinearCovKind::Hac, "hac".to_string())));
    assert_eq!(
        parse_linear_cov_type("Cluster"),
        Ok((LinearCovKind::Cluster, "cluster".to_string()))
    );
    assert_eq!(
        parse_linear_cov_type("Unknown"),
        Err("unknown cov_type: 'unknown'. Expected one of 'classical', 'hc0' through 'hc3', \
             'hac', or 'cluster'"
            .to_string())
    );
}

// ── instrumental variables ──────────────────────────────────────────────────

#[test]
fn build_iv_input_returns_error_for_unknown_method() {
    assert_eq!(
        parse_iv_method("3SLS"),
        Err("unknown method: '3SLS'. Expected one of '2sls' or 'gmm'".to_string())
    );
}

#[test]
fn build_iv_input_succeeds_for_gmm_method() {
    assert_eq!(parse_iv_method("GMM"), Ok((IvMethod::Gmm, "gmm".to_string())));
    assert_eq!(parse_iv_method("2SLS"), Ok((IvMethod::TwoSls, "2sls".to_string())));
}

#[test]
fn build_iv_input_returns_error_for_unknown_cov_type() {
    assert!(parse_linear_cov_type("unknown").is_err());
}

fn iv_roles(
    x_exog: &[&str],
    x_endog: &[&str],
    instruments: &[&str],
    include_intercept: bool,
) -> Result<(), String> {
    validate_iv_roles(
        "y",
        &names(x_exog),
        &names(x_endog),
        &names(instruments),
        include_intercept,
    )
}

#[test]
fn validate_iv_roles_accepts_well_formed_and_empty_roles() {
    assert_eq!(iv_roles(&["x1"], &["endog1"], &["z1", "z2"], true), Ok(()));
    assert_eq!(iv_roles(&[], &["endog1"], &["z1", "z2"], true), Ok(()));
    assert_eq!(iv_roles(&["x1"], &[], &[], true), Ok(()));
    assert_eq!(iv_roles(&["const"], &["endog1"], &["z1"], false), Ok(()));
}

#[test]
fn build_iv_input_returns_error_when_y_overlaps_x_exog() {
    assert_eq!(
        iv_roles(&["y", "x1"], &["endog1"], &["z1", "z2"], true),
        Err("the column 'y' specified as y is also included in x_exog".to_string())
    );
}

#[test]
fn build_iv_input_returns_error_when_y_overlaps_x_endog() {
    assert_eq!(
        iv_roles(&["x1"], &["y"], &["z1", "z2"], true),
        Err("the column 'y' specified as y is also included in x_endog".to_string())
    );
}

#[test]
fn build_iv_input_returns_error_when_y_overlaps_instruments() {
    assert_eq!(
        iv_roles(&["x1"], &["endog1"], &["y", "z2"], true),
        Err("the column 'y' specified as y is also included in instruments".to_string())
    );
}

#[test]
fn build_iv_input_returns_error_when_x_exog_overlaps_x_endog() {
    assert_eq!(
        iv_roles(&["x1", "endog1"], &["endog1"], &["z1", "z2"], true),
        Err("the column 'endog1' specified as x_exog is also included in x_endog".to_string())
    );
}

#[test]
fn build_iv_input_returns_error_when_instruments_overlaps_x_exog() {
    assert_eq!(
        iv_roles(&["x1"], &["endog1"], &["x1", "z2"], true),
        Err("the column 'x1' specified as x_exog is also included in instruments".to_string())
    );
}

#[test]
fn build_iv_input_returns_error_when_x_endog_overlaps_instruments() {
    assert_eq!(
        iv_roles(&["x1"], &["z1"], &["z1", "z2"], true),
        Err("the column 'z1' specified as x_endog is also included in instruments".to_string())
    );
}

#[test]
fn build_iv_input_returns_error_when_instruments_contains_duplicate() {
    assert_eq!(
        iv_roles(&["x1"], &["endog1"], &["z1", "z1"], true),
        Err("column 'z1' is specified more than once in instruments".to_string())
    );
}

#[test]
fn build_iv_input_returns_error_when_include_intercept_and_x_exog_contains_const() {
    assert_eq!(
        iv_roles(&["x1", "const"], &["endog1"], &["z1", "z2"], true),
        Err("when include_intercept=true, x_exog cannot contain a column named 'const' \
             (it collides with the automatically added intercept)"
            .to_string())
    );
}

#[test]
fn validate_iv_roles_reports_conflicts_before_repeats() {
    assert_eq!(
        iv_roles(&["a", "a"], &["b"], &["b"], true),
        Err("the column 'b' specified as x_endog is also included in instruments".to_string())
    );
    assert_eq!(
        iv_roles(&["a", "c", "c", "a"], &[], &[], true),
        Err("column 'c' is specified more than once in x_exog".to_string())
    );
}

// ── least squares ───────────────────────────────────────────────────────────

#[test]
fn validate_ols_names_checks_in_order() {
    assert_eq!(
        validate_ols_names("y", &[], true),
        Err("x must contain at least one column name".to_string())
    );
    assert_eq!(
        validate_ols_names("y", &names(&["x1", "x1", "y"]), true),
        Err("the column 'y' specified as y is also included in x".to_string())
    );
    assert_eq!(
        validate_ols_names("y", &names(&["x1", "x2", "x2", "x1"]), true),
        Err("column 'x2' is specified more than once in x".to_string())
    );
    assert_eq!(
        validate_ols_names("y", &names(&["const", "x1"]), true),
        Err("when include_intercept=true, x cannot contain a column named 'const' \
             (it collides with the automatically added intercept)"
            .to_string())
    );
    assert_eq!(validate_ols_names("y", &names(&["const", "x1"]), false), Ok(()));
}

#[test]
fn validate_ols_request_requires_cluster_column_then_regressors() {
    assert_eq!(
        validate_ols_request(CovType::Cluster, false, 0),
        Err("cov_type='cluster'を指定する場合、options.cluster_colの指定が必要です".to_string())
    );
    assert_eq!(
        validate_ols_request(CovType::Hc1, false, 0),
        Err("xに最低1つは列名を指定してください".to_string())
    );
    assert_eq!(validate_ols_request(CovType::Cluster, true, 2), Ok(()));
}

#[test]
fn validate_ols_size_counts_the_intercept() {
    assert_eq!(validate_ols_size(4, 2, true), Ok(3));
    assert_eq!(
        validate_ols_size(3, 2, true),
        Err("観測数不足: n=3 は k=3（説明変数の数、定数項含む）より大きい必要があります".to_string())
    );
    assert_eq!(validate_ols_size(3, 2, false), Ok(2));
}

#[test]
fn least_squares_error_messages_of_weights_and_lags() {
    assert_eq!(
        LeastSquaresError::WeightDimensionMismatch { y_rows: 5, weight_rows: 4 }.to_string(),
        "dimension mismatch: y has 5 rows but weight has 4 rows"
    );
    assert_eq!(
        LeastSquaresError::NonPositiveWeight { index: 2 }.to_string(),
        "weights must be strictly positive: the weight in row 2 is not"
    );
    assert_eq!(
        LeastSquaresError::InvalidHacLags { lags: -1, n: 10 }.to_string(),
        "hac_lags must be in the range [0, n): got -1, n=10"
    );
}
