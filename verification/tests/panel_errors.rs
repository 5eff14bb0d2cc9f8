use engine::error::{CommonError, LeastSquaresError};
use engine::panel::common::{PanelDimension, PanelError};

#[test]
fn panel_dimension_displays_lowercase_name() {
    assert_eq!(PanelDimension::Entity.to_string(), "entity");
    assert_eq!(PanelDimension::Time.to_string(), "time");
}

#[test]
fn panel_error_messages_are_human_readable() {
    assert_eq!(
        PanelError::IdentifierDimensionMismatch {
            dimension: PanelDimension::Entity,
            y_rows: 10,
            other_rows: 8,
        }
        .to_string(),
        "dimension mismatch: y has 10 rows but entity has 8 rows"
    );
    assert_eq!(
        PanelError::IdentifierDimensionMismatch {
            dimension: PanelDimension::Time,
            y_rows: 10,
            other_rows: 8,
        }
        .to_string(),
        "dimension mismatch: y has 10 rows but time has 8 rows"
    );
    assert_eq!(
        PanelError::InsufficientDegreesOfFreedom {
            n_obs: 10,
            n_entities: 8,
            n_periods: None,
            k: 2,
        }
        .to_string(),
        "insufficient degrees of freedom for panel estimation: n_obs=10, \
         n_entities=8, k=2 \
         (the panel-adjusted residual degrees of freedom must be positive)"
    );
    assert_eq!(
        PanelError::InsufficientDegreesOfFreedom {
            n_obs: 20,
            n_entities: 5,
            n_periods: Some(4),
            k: 3,
        }
        .to_string(),
        "insufficient degrees of freedom for panel estimation: n_obs=20, \
         n_entities=5, n_periods=4, k=3 \
         (the panel-adjusted residual degrees of freedom must be positive)"
    );
    assert_eq!(
        PanelError::SingletonGroup {
            dimension: PanelDimension::Entity,
            group_id: "firm_42".to_string(),
        }
        .to_string(),
        "singleton entity group detected: entity 'firm_42' has only 1 observation. \
         Singleton groups are not dropped automatically; remove them from the input"
    );
    assert_eq!(
        PanelError::SingletonGroup {
            dimension: PanelDimension::Time,
            group_id: "2020".to_string(),
        }
        .to_string(),
        "singleton time group detected: time '2020' has only 1 observation. \
         Singleton groups are not dropped automatically; remove them from the input"
    );
    assert_eq!(
        PanelError::UnbalancedPanelForTwoWay {
            n_obs: 39,
            n_entities: 10,
            n_periods: 4,
            expected: 40,
        }
        .to_string(),
        "two-way fixed effects requires a balanced panel: got n_obs=39 for \
         n_entities=10 x n_periods=4 (expected 40 observations)"
    );
    assert_eq!(
        PanelError::ZeroVarianceAfterDemeaning {
            column: "female".to_string(),
        }
        .to_string(),
        "regressor 'female' has zero variance after the within-transformation \
         (it is time-invariant, or collinear with the fixed effects)"
    );
    assert_eq!(
        PanelError::TwoWayRequiresTime.to_string(),
        "two-way fixed effects requires the `time` option to be set"
    );
    assert_eq!(
        PanelError::WithinRegressionFailed {
            source: LeastSquaresError::SingularMatrix,
        }
        .to_string(),
        "within-transformed least-squares estimation failed: design matrix is \
         singular (perfect multicollinearity detected)"
    );
    assert_eq!(
        PanelError::Common(CommonError::InsufficientClusters { g: 1 }).to_string(),
        "cov_type='cluster' requires at least 2 clusters, got 1"
    );
}

#[test]
fn panel_error_implements_partial_eq() {
    assert_eq!(
        PanelError::SingletonGroup {
            dimension: PanelDimension::Entity,
            group_id: "a".to_string(),
        },
        PanelError::SingletonGroup {
            dimension: PanelDimension::Entity,
            group_id: "a".to_string(),
        }
    );
    assert_ne!(
        PanelError::SingletonGroup {
            dimension: PanelDimension::Entity,
            group_id: "a".to_string(),
        },
        PanelError::SingletonGroup {
            dimension: PanelDimension::Time,
            group_id: "a".to_string(),
        }
    );
    assert_ne!(
        PanelError::InsufficientDegreesOfFreedom {
            n_obs: 10,
            n_entities: 8,
            n_periods: None,
            k: 2,
        },
        PanelError::InsufficientDegreesOfFreedom {
            n_obs: 10,
            n_entities: 8,
            n_periods: Some(2),
            k: 2,
        }
    );
}

#[test]
fn panel_error_wraps_common_error_via_from() {
    let common = CommonError::InvalidConfidenceLevel {
        confidence_level: 1.5f64.to_bits(),
    };
    let panel_error: PanelError = common.into();
    assert_eq!(
        panel_error,
        PanelError::Common(CommonError::InvalidConfidenceLevel {
            confidence_level: 1.5f64.to_bits(),
        })
    );
}

fn failing_common_step() -> Result<(), CommonError> {
    Err(CommonError::InsufficientClusters { g: 1 })
}

fn panel_step_propagating_common() -> Result<(), PanelError> {
    failing_common_step()?;
    Ok(())
}

#[test]
fn panel_error_from_operator_propagates_common_error() {
    assert_eq!(
        panel_step_propagating_common().unwrap_err(),
        PanelError::Common(CommonError::InsufficientClusters { g: 1 })
    );
}

#[test]
fn within_regression_failed_preserves_source() {
    let err = PanelError::WithinRegressionFailed {
        source: LeastSquaresError::Common(CommonError::InsufficientObservations { n: 2, k: 3 }),
    };
    assert_eq!(
        err,
        PanelError::WithinRegressionFailed {
            source: LeastSquaresError::Common(CommonError::InsufficientObservations {
                n: 2,
                k: 3,
            }),
        }
    );
}

#[test]
fn between_regression_failed_message_and_equality() {
    let err = PanelError::BetweenRegressionFailed {
        source: LeastSquaresError::Common(CommonError::InsufficientObservations { n: 2, k: 3 }),
    };
    assert_eq!(
        err.to_string(),
        "between-regression least-squares estimation for variance component failed: \
         insufficient observations: n=2 must be greater than k=3 \
         (number of independent variables, including the intercept)"
    );
    assert_eq!(
        err,
        PanelError::BetweenRegressionFailed {
            source: LeastSquaresError::Common(CommonError::InsufficientObservations {
                n: 2,
                k: 3,
            }),
        }
    );
}

#[test]
fn quasi_demeaned_regression_failed_message_and_equality() {
    let err = PanelError::QuasiDemeanedRegressionFailed {
        source: LeastSquaresError::SingularMatrix,
    };
    assert_eq!(
        err.to_string(),
        "quasi-demeaned least-squares estimation for random effects failed: design matrix \
         is singular (perfect multicollinearity detected)"
    );
    assert_eq!(
        err,
        PanelError::QuasiDemeanedRegressionFailed {
            source: LeastSquaresError::SingularMatrix,
        }
    );
}
