//! Random effects: the covariance types and the decisions they take from the
//! identifier columns.
use vstd::prelude::*;

use crate::panel::common::{
    cluster_plan, cluster_plan_outcome, hac_plan, hac_plan_outcome, PanelCovPlan, PanelError,
};
use crate::panel::groups::labels;

verus! {

/// Covariance estimators offered for random effects. Random effects never remove
/// extra degrees of freedom, and their Driscoll-Kraay covariance uses the `time`
/// column of the input.
#[derive(Debug, Clone, PartialEq, Eq)]
pub enum ReCovType {
    /// Homoskedastic: `SSR/df_resid * (X'X)^-1`.
    Classical,
    /// White heteroskedasticity-robust with small-sample factor `n/df_resid`.
    Hc1,
    /// Leverage-based heteroskedasticity-robust covariance.
    Hc2,
    /// More conservative leverage correction than `Hc2`.
    Hc3,
    /// Cluster-robust; `groups: None` clusters by entity.
    Cluster { groups: Option<Vec<String>> },
    /// Driscoll-Kraay panel HAC; `bandwidth: None` uses the default rule.
    Hac { bandwidth: Option<i64> },
}

/// The decisions a random-effects covariance type takes from the identifier columns,
/// after the quasi-demeaned regression with `df_model` columns (the transformed
/// constant included):
///
/// - cluster-robust (clusters default to the entities): at least two clusters and more
///   clusters than the `df_model - 1` slope coefficients; never extra degrees of
///   freedom;
/// - Driscoll-Kraay: a time column and a bandwidth resolved against its periods;
/// - the other types: nothing.
pub fn re_cov_plan(
    cov_type: &ReCovType,
    entity: &[String],
    time: Option<&[String]>,
    df_model: usize,
) -> (r: Result<PanelCovPlan, PanelError>)
    requires
        df_model >= 1,
    ensures
        match cov_type {
            ReCovType::Cluster { groups } => cluster_plan_outcome(
                r,
                match groups {
                    Some(g) => labels(g@),
                    None => labels(entity@),
                },
                (df_model - 1) as nat,
                0,
            ),
            ReCovType::Hac { bandwidth } => hac_plan_outcome(
                r,
                match time {
                    Some(tm) => Some(tm@),
                    None => None,
                },
                *bandwidth,
            ),
            _ => r == Ok::<PanelCovPlan, PanelError>(PanelCovPlan::Plain),
        },
{
    match cov_type {
        ReCovType::Cluster { groups } => {
            let resolved: &[String] = match groups {
                Some(g) => g.as_slice(),
                None => entity,
            };
            cluster_plan(resolved, df_model - 1, 0)
        },
        ReCovType::Hac { bandwidth } => hac_plan(time, *bandwidth),
        _ => Ok(PanelCovPlan::Plain),
    }
}

} // verus!
