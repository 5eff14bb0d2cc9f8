use engine::columns::{validate_no_sigma_collision, x_column_names};
use engine::options::{cov_type_from_lowercase, CovType};

fn names(values: &[&str]) -> Vec<String> {
    values.iter().map(|s| s.to_string()).collect()
}

#[test]
fn cov_type_try_from_accepts_every_name_in_any_case() {
    assert_eq!(CovType::try_from("classical"), Ok(CovType::Classical));
    assert_eq!(CovType::try_from("NonRobust"), Ok(CovType::Classical));
    assert_eq!(CovType::try_from("HC0"), Ok(CovType::Hc0));
    assert_eq!(CovType::try_from("hc1"), Ok(CovType::Hc1));
    assert_eq!(CovType::try_from("Hc2"), Ok(CovType::Hc2));
    assert_eq!(CovType::try_from("hC3"), Ok(CovType::Hc3));
    assert_eq!(CovType::try_from("CLUSTER"), Ok(CovType::Cluster));
}

#[test]
fn cov_type_try_from_reports_the_lowercased_unknown_name() {
    assert_eq!(
        CovType::try_from("HAC"),
        Err("未知のcov_type: 'hac'。'classical', 'hc0'〜'hc3', 'cluster'のいずれかを指定してください"
            .to_string())
    );
}

#[test]
fn cov_type_from_lowercase_matches_exact_names_only() {
    assert_eq!(cov_type_from_lowercase("hc1"), Ok(CovType::Hc1));
    assert!(cov_type_from_lowercase("HC1").is_err());
    assert!(cov_type_from_lowercase("hc").is_err());
    assert!(cov_type_from_lowercase("").is_err());
}

#[test]
fn x_column_names_keeps_all_names_when_no_intercept_and_no_trailing_exclusion() {
    let param_names = names(&["x1", "x2"]);
    assert_eq!(x_column_names(&param_names, false, 0), &param_names[..]);
}

#[test]
fn x_column_names_drops_leading_const_when_has_intercept() {
    let param_names = names(&["const", "x1", "x2"]);
    assert_eq!(x_column_names(&param_names, true, 0), &param_names[1..]);
}

#[test]
fn x_column_names_drops_trailing_elements_for_exclude_trailing() {
    let param_names = names(&["const", "x1", "x2", "sigma"]);
    assert_eq!(x_column_names(&param_names, true, 1), &param_names[1..3]);
}

#[test]
fn validate_no_sigma_collision_rejects_a_sigma_regressor() {
    assert_eq!(validate_no_sigma_collision(&names(&["x1", "x2"])), Ok(()));
    assert_eq!(
        validate_no_sigma_collision(&names(&["x1", "sigma"])),
        Err("x cannot contain a column named 'sigma' (it collides with the error term's \
             standard deviation, which TobitResult appends to param_names/params)"
            .to_string())
    );
    assert_eq!(validate_no_sigma_collision(&names(&["Sigma"])), Ok(()));
}
