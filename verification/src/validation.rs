//! Input validation shared by all estimation methods.
use vstd::prelude::*;

use crate::error::CommonError;
use crate::panel::common::count_unique;
use crate::panel::groups::{distinct_count, labels};

verus! {

/// Validates the cluster keys of `cov_type="cluster"` and returns the number of
/// clusters `G`.
///
/// `groups` holds one key per observation (`n` of them); only the identity of a key
/// matters.
///
/// # Errors
/// `CommonError::InsufficientClusters { g }` when there are fewer than two distinct keys.
pub fn validate_cluster_groups(groups: &[String], n: usize) -> (r: Result<usize, CommonError>)
    requires
        groups.len() == n,
    ensures
        ({
            let g = distinct_count(labels(groups@));
            match r {
                Ok(count) => g >= 2 && count == g,
                Err(e) => g < 2 && e == CommonError::InsufficientClusters { g: g as usize },
            }
        }),
{
    let g = count_unique(groups);
    if g < 2 {
        return Err(CommonError::InsufficientClusters { g });
    }
    Ok(g)
}

/// Checks that the number of clusters `g` exceeds the number `q` of slope coefficients
/// of the overall Wald/F test.
///
/// The clustered score covariance has rank at most `g - 1`, so its `q x q` block is
/// singular whenever `g <= q`. With `q == 0` (intercept only) the test is skipped and
/// the check always passes.
///
/// # Errors
/// `CommonError::InsufficientClustersForInference { g, q }` when `g <= q`.
pub fn validate_cluster_count_covers_slopes(g: usize, q: usize) -> (r: Result<(), CommonError>)
    requires
        g >= 2,
    ensures
        r is Ok <==> g > q,
        r is Err ==> r == Err::<(), CommonError>(
            CommonError::InsufficientClustersForInference { g, q },
        ),
{
    if g <= q {
        return Err(CommonError::InsufficientClustersForInference { g, q });
    }
    Ok(())
}

} // verus!
