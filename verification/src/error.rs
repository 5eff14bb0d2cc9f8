//! Error types shared across estimation methods.
//!
//! `CommonError` gathers the validation and computation errors that every method can
//! raise; `LeastSquaresError` is what a least-squares fit reports. Each type renders
//! its user-facing message with `to_string`, whose result is fixed by `message`.
use vstd::prelude::*;

use crate::text::{decimal, push_count, push_signed, signed_decimal};

verus! {

/// Validation and computation errors common to all estimation methods.
#[derive(Debug, Clone, PartialEq, Eq)]
pub enum CommonError {
    /// `y` and an `x` column do not have the same number of rows.
    DimensionMismatch { y_rows: usize, x_rows: usize },
    /// The number of observations does not exceed the number of parameters.
    InsufficientObservations { n: usize, k: usize },
    /// The confidence level lies outside `(0, 1)`. The level is kept as the IEEE-754
    /// bit pattern of the `f64` that was passed.
    InvalidConfidenceLevel { confidence_level: u64 },
    /// `cov_type='cluster'` was requested without a cluster column.
    MissingClusterColumn,
    /// Fewer than two distinct clusters.
    InsufficientClusters { g: usize },
    /// No more clusters than slope coefficients, so the overall test is singular.
    InsufficientClustersForInference { g: usize, q: usize },
    /// A numerical step failed (singular matrix and the like); the text says which.
    ComputationFailed(String),
}

impl CommonError {
    /// The user-facing message of the error.
    pub open spec fn message(&self) -> Seq<char> {
        match self {
            CommonError::DimensionMismatch { y_rows, x_rows } => "dimension mismatch: y has "@
                + decimal(*y_rows as nat) + " rows but an x column has "@ + decimal(
                *x_rows as nat,
            ) + " rows"@,
            CommonError::InsufficientObservations { n, k } => "insufficient observations: n="@
                + decimal(*n as nat) + " must be greater than k="@ + decimal(*k as nat)
                + " (number of independent variables, including the intercept)"@,
            CommonError::InvalidConfidenceLevel { .. } =>
                "confidence_level must lie in the open interval (0, 1)"@,
            CommonError::MissingClusterColumn =>
                "cov_type='cluster' requires a cluster column to be specified"@,
            CommonError::InsufficientClusters { g } =>
                "cov_type='cluster' requires at least 2 clusters, got "@ + decimal(*g as nat),
            CommonError::InsufficientClustersForInference { g, q } =>
                "cov_type='cluster' requires more clusters than slope coefficients: got "@
                    + decimal(*g as nat) + " clusters for "@ + decimal(*q as nat)
                    + " slope coefficients"@,
            CommonError::ComputationFailed(detail) => "computation failed: "@ + detail@,
        }
    }

    /// Renders the user-facing message.
    pub fn to_string(&self) -> (r: String)
        ensures
            r@ == self.message(),
    {
        let mut s = String::new();
        match self {
            CommonError::DimensionMismatch { y_rows, x_rows } => {
                s.append("dimension mismatch: y has ");
                push_count(&mut s, *y_rows);
                s.append(" rows but an x column has ");
                push_count(&mut s, *x_rows);
                s.append(" rows");
            },
            CommonError::InsufficientObservations { n, k } => {
                s.append("insufficient observations: n=");
                push_count(&mut s, *n);
                s.append(" must be greater than k=");
                push_count(&mut s, *k);
                s.append(" (number of independent variables, including the intercept)");
            },
            CommonError::InvalidConfidenceLevel { .. } => {
                s.append("confidence_level must lie in the open interval (0, 1)");
            },
            CommonError::MissingClusterColumn => {
                s.append("cov_type='cluster' requires a cluster column to be specified");
            },
            CommonError::InsufficientClusters { g } => {
                s.append("cov_type='cluster' requires at least 2 clusters, got ");
                push_count(&mut s, *g);
            },
            CommonError::InsufficientClustersForInference { g, q } => {
                s.append("cov_type='cluster' requires more clusters than slope coefficients: got ");
                push_count(&mut s, *g);
                s.append(" clusters for ");
                push_count(&mut s, *q);
                s.append(" slope coefficients");
            },
            CommonError::ComputationFailed(detail) => {
                s.append("computation failed: ");
                s.append(detail.as_str());
            },
        }
        proof {
            assert(s@ =~= self.message());
        }
        s
    }
}

/// Errors of a least-squares fit.
#[derive(Debug, Clone, PartialEq, Eq)]
pub enum LeastSquaresError {
    /// A validation or computation error common to all methods.
    Common(CommonError),
    /// `y` and the weight column differ in length.
    WeightDimensionMismatch { y_rows: usize, weight_rows: usize },
    /// A weight is zero or negative; `index` is its row.
    NonPositiveWeight { index: usize },
    /// An explicit HAC lag count outside `[0, n)`.
    InvalidHacLags { lags: i64, n: usize },
    /// The design matrix is singular.
    SingularMatrix,
}

impl LeastSquaresError {
    /// The user-facing message of the error (a `Common` error shows its own message).
    pub open spec fn message(&self) -> Seq<char> {
        match self {
            LeastSquaresError::Common(c) => c.message(),
            LeastSquaresError::WeightDimensionMismatch { y_rows, weight_rows } =>
                "dimension mismatch: y has "@ + decimal(*y_rows as nat) + " rows but weight has "@
                    + decimal(*weight_rows as nat) + " rows"@,
            LeastSquaresError::NonPositiveWeight { index } =>
                "weights must be strictly positive: the weight in row "@ + decimal(*index as nat)
                    + " is not"@,
            LeastSquaresError::InvalidHacLags { lags, n } => "hac_lags must be in the range [0, n): got "@
                + signed_decimal(*lags as int) + ", n="@ + decimal(*n as nat),
            LeastSquaresError::SingularMatrix =>
                "design matrix is singular (perfect multicollinearity detected)"@,
        }
    }

    /// Renders the user-facing message.
    pub fn to_string(&self) -> (r: String)
        ensures
            r@ == self.message(),
    {
        match self {
            LeastSquaresError::Common(c) => c.to_string(),
            LeastSquaresError::WeightDimensionMismatch { y_rows, weight_rows } => {
                let mut s = String::new();
                s.append("dimension mismatch: y has ");
                push_count(&mut s, *y_rows);
                s.append(" rows but weight has ");
                push_count(&mut s, *weight_rows);
                s.append(" rows");
                proof {
                    assert(s@ =~= self.message());
                }
                s
            },
            LeastSquaresError::NonPositiveWeight { index } => {
                let mut s = String::new();
                s.append("weights must be strictly positive: the weight in row ");
                push_count(&mut s, *index);
                s.append(" is not");
                proof {
                    assert(s@ =~= self.message());
                }
                s
            },
            LeastSquaresError::InvalidHacLags { lags, n } => {
                let mut s = String::new();
                s.append("hac_lags must be in the range [0, n): got ");
                push_signed(&mut s, *lags);
                s.append(", n=");
                push_count(&mut s, *n);
                proof {
                    assert(s@ =~= self.message());
                }
                s
            },
            LeastSquaresError::SingularMatrix => {
                let mut s = String::new();
                s.append("design matrix is singular (perfect multicollinearity detected)");
                proof {
                    assert(s@ =~= self.message());
                }
                s
            },
        }
    }
}

/// Whether a least-squares error arose during the computation (a singular matrix or a
/// failed numerical step) rather than from invalid input.
pub fn least_squares_error_is_computation_error(err: &LeastSquaresError) -> (r: bool)
    ensures
        r == (err is SingularMatrix || err matches LeastSquaresError::Common(
            CommonError::ComputationFailed(_),
        )),
{
    match err {
        LeastSquaresError::SingularMatrix => true,
        LeastSquaresError::Common(CommonError::ComputationFailed(_)) => true,
        _ => false,
    }
}

} // verus!
