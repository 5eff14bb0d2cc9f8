//! The error type shared by fixed and random effects (`PanelError`), the panel
//! dimensions, distinct-label counting and the Driscoll-Kraay bandwidth rule.
use vstd::prelude::*;

use crate::error::{CommonError, LeastSquaresError};
use crate::validation::{validate_cluster_count_covers_slopes, validate_cluster_groups};
use crate::panel::groups::{distinct_count, index_labels, labels, LabelIndex};
use crate::text::{decimal, push_count, push_signed, signed_decimal};

verus! {

/// The two dimensions of a panel. Errors use it to say which identifier column is
/// concerned.
#[derive(Debug, Clone, Copy, PartialEq, Eq, Structural)]
pub enum PanelDimension {
    /// The entity direction (individuals, firms, states: the `entity` column).
    Entity,
    /// The time direction (the `time` column).
    Time,
}

impl PanelDimension {
    /// The lowercase name of the dimension.
    pub open spec fn name(&self) -> Seq<char> {
        match self {
            PanelDimension::Entity => "entity"@,
            PanelDimension::Time => "time"@,
        }
    }

    /// Renders the lowercase name of the dimension.
    pub fn to_string(&self) -> (r: String)
        ensures
            r@ == self.name(),
    {
        match self {
            PanelDimension::Entity => String::from_str("entity"),
            PanelDimension::Time => String::from_str("time"),
        }
    }
}

/// Errors of fixed- and random-effects estimation.
#[derive(Debug, PartialEq, Eq)]
pub enum PanelError {
    /// A validation or computation error common to all methods.
    Common(CommonError),
    /// `y` and the `entity` or `time` column differ in length.
    IdentifierDimensionMismatch { dimension: PanelDimension, y_rows: usize, other_rows: usize },
    /// The panel-adjusted residual degrees of freedom are not positive.
    /// `n_periods` is present for two-way effects only.
    InsufficientDegreesOfFreedom {
        n_obs: usize,
        n_entities: usize,
        n_periods: Option<usize>,
        k: usize,
    },
    /// A group with a single observation.
    SingletonGroup { dimension: PanelDimension, group_id: String },
    /// Two-way effects on a panel where some (entity, time) pair is missing or repeated.
    UnbalancedPanelForTwoWay { n_obs: usize, n_entities: usize, n_periods: usize, expected: usize },
    /// A regressor with zero variance after the within transformation.
    ZeroVarianceAfterDemeaning { column: String },
    /// Two-way effects requested without a `time` column.
    TwoWayRequiresTime,
    /// Driscoll-Kraay covariance requested without a `time` column.
    HacRequiresTime,
    /// An explicit Driscoll-Kraay bandwidth outside `[0, t)`.
    InvalidHacBandwidth { bandwidth: i64, t: usize },
    /// The least-squares fit of the within-transformed data failed.
    WithinRegressionFailed { source: LeastSquaresError },
    /// The joint F-test of the slope coefficients failed.
    FTestFailed { source: LeastSquaresError },
    /// The between regression of the variance-component estimation failed.
    BetweenRegressionFailed { source: LeastSquaresError },
    /// The least-squares fit of the quasi-demeaned data failed.
    QuasiDemeanedRegressionFailed { source: LeastSquaresError },
}

/// `, n_periods=<T>` for two-way effects, nothing otherwise.
pub open spec fn n_periods_text(n_periods: Option<usize>) -> Seq<char> {
    match n_periods {
        Some(p) => ", n_periods="@ + decimal(p as nat),
        None => Seq::empty(),
    }
}

/// Renders `n_periods_text`: the periods clause of the degrees-of-freedom message.
pub fn n_periods_clause(n_periods: &Option<usize>) -> (r: String)
    ensures
        r@ == n_periods_text(*n_periods),
{
    let mut s = String::new();
    match n_periods {
        Some(p) => {
            s.append(", n_periods=");
            push_count(&mut s, *p);
        },
        None => {},
    }
    proof {
        assert(s@ =~= n_periods_text(*n_periods));
    }
    s
}

impl PanelError {
    /// The user-facing message of the error. A wrapped error contributes its own
    /// message; `Common` shows the common error's message alone.
    pub open spec fn message(&self) -> Seq<char> {
        match self {
            PanelError::Common(c) => c.message(),
            PanelError::IdentifierDimensionMismatch { dimension, y_rows, other_rows } =>
                "dimension mismatch: y has "@ + decimal(*y_rows as nat) + " rows but "@
                    + dimension.name() + " has "@ + decimal(*other_rows as nat) + " rows"@,
            PanelError::InsufficientDegreesOfFreedom { n_obs, n_entities, n_periods, k } =>
                "insufficient degrees of freedom for panel estimation: n_obs="@ + decimal(
                *n_obs as nat,
            ) + ", n_entities="@ + decimal(*n_entities as nat) + n_periods_text(*n_periods)
                + ", k="@ + decimal(*k as nat)
                + " (the panel-adjusted residual degrees of freedom must be positive)"@,
            PanelError::SingletonGroup { dimension, group_id } => "singleton "@
                + dimension.name() + " group detected: "@ + dimension.name() + " '"@
                + group_id@ + "' has only 1 observation. Singleton groups are not dropped automatically; remove them from the input"@,
            PanelError::UnbalancedPanelForTwoWay { n_obs, n_entities, n_periods, expected } =>
                "two-way fixed effects requires a balanced panel: got n_obs="@ + decimal(
                *n_obs as nat,
            ) + " for n_entities="@ + decimal(*n_entities as nat) + " x n_periods="@ + decimal(
                *n_periods as nat,
            ) + " (expected "@ + decimal(*expected as nat) + " observations)"@,
            PanelError::ZeroVarianceAfterDemeaning { column } => "regressor '"@ + column@
                + "' has zero variance after the within-transformation (it is time-invariant, or collinear with the fixed effects)"@,
            PanelError::TwoWayRequiresTime =>
                "two-way fixed effects requires the `time` option to be set"@,
            PanelError::HacRequiresTime =>
                "Driscoll-Kraay panel HAC requires the `time` option to be set"@,
            PanelError::InvalidHacBandwidth { bandwidth, t } =>
                "bandwidth must be in the range [0, t): got "@ + signed_decimal(
                *bandwidth as int,
            ) + ", t="@ + decimal(*t as nat),
            PanelError::WithinRegressionFailed { source } =>
                "within-transformed least-squares estimation failed: "@ + source.message(),
            PanelError::FTestFailed { source } =>
                "F-test for joint significance of the slope coefficients failed: "@
                    + source.message(),
            PanelError::BetweenRegressionFailed { source } =>
                "between-regression least-squares estimation for variance component failed: "@
                    + source.message(),
            PanelError::QuasiDemeanedRegressionFailed { source } =>
                "quasi-demeaned least-squares estimation for random effects failed: "@
                    + source.message(),
        }
    }

    /// Renders the user-facing message.
    pub fn to_string(&self) -> (r: String)
        ensures
            r@ == self.message(),
    {
        let mut s = String::new();
        match self {
            PanelError::Common(c) => {
                return c.to_string();
            },
            PanelError::IdentifierDimensionMismatch { dimension, y_rows, other_rows } => {
                s.append("dimension mismatch: y has ");
                push_count(&mut s, *y_rows);
                s.append(" rows but ");
                s.append(dimension.to_string().as_str());
                s.append(" has ");
                push_count(&mut s, *other_rows);
                s.append(" rows");
            },
            PanelError::InsufficientDegreesOfFreedom { n_obs, n_entities, n_periods, k } => {
                s.append("insufficient degrees of freedom for panel estimation: n_obs=");
                push_count(&mut s, *n_obs);
                s.append(", n_entities=");
                push_count(&mut s, *n_entities);
                s.append(n_periods_clause(n_periods).as_str());
                s.append(", k=");
                push_count(&mut s, *k);
                s.append(" (the panel-adjusted residual degrees of freedom must be positive)");
            },
            PanelError::SingletonGroup { dimension, group_id } => {
                let name = dimension.to_string();
                s.append("singleton ");
                s.append(name.as_str());
                s.append(" group detected: ");
                s.append(name.as_str());
                s.append(" '");
                s.append(group_id.as_str());
                s.append("' has only 1 observation. Singleton groups are not dropped automatically; remove them from the input");
            },
            PanelError::UnbalancedPanelForTwoWay { n_obs, n_entities, n_periods, expected } => {
                s.append("two-way fixed effects requires a balanced panel: got n_obs=");
                push_count(&mut s, *n_obs);
                s.append(" for n_entities=");
                push_count(&mut s, *n_entities);
                s.append(" x n_periods=");
                push_count(&mut s, *n_periods);
                s.append(" (expected ");
                push_count(&mut s, *expected);
                s.append(" observations)");
            },
            PanelError::ZeroVarianceAfterDemeaning { column } => {
                s.append("regressor '");
                s.append(column.as_str());
                s.append("' has zero variance after the within-transformation (it is time-invariant, or collinear with the fixed effects)");
            },
            PanelError::TwoWayRequiresTime => {
                s.append("two-way fixed effects requires the `time` option to be set");
            },
            PanelError::HacRequiresTime => {
                s.append("Driscoll-Kraay panel HAC requires the `time` option to be set");
            },
            PanelError::InvalidHacBandwidth { bandwidth, t } => {
                s.append("bandwidth must be in the range [0, t): got ");
                push_signed(&mut s, *bandwidth);
                s.append(", t=");
                push_count(&mut s, *t);
            },
            PanelError::WithinRegressionFailed { source } => {
                s.append("within-transformed least-squares estimation failed: ");
                s.append(source.to_string().as_str());
            },
            PanelError::FTestFailed { source } => {
                s.append("F-test for joint significance of the slope coefficients failed: ");
                s.append(source.to_string().as_str());
            },
            PanelError::BetweenRegressionFailed { source } => {
                s.append(
                    "between-regression least-squares estimation for variance component failed: ",
                );
                s.append(source.to_string().as_str());
            },
            PanelError::QuasiDemeanedRegressionFailed { source } => {
                s.append("quasi-demeaned least-squares estimation for random effects failed: ");
                s.append(source.to_string().as_str());
            },
        }
        proof {
            assert(s@ =~= self.message());
        }
        s
    }
}

impl From<CommonError> for PanelError {
    fn from(err: CommonError) -> (r: Self)
        ensures
            r == PanelError::Common(err),
    {
        PanelError::Common(err)
    }
}

impl vstd::std_specs::convert::FromSpecImpl<CommonError> for PanelError {
    open spec fn obeys_from_spec() -> bool {
        true
    }

    open spec fn from_spec(v: CommonError) -> Self {
        PanelError::Common(v)
    }
}

/// The keys of a label index are exactly the distinct labels of the column, so their
/// number is the number of distinct labels.
pub proof fn lemma_index_distinct_count(t: LabelIndex, v: Seq<Seq<char>>)
    requires
        t.indexes(v),
    ensures
        labels(t.keys@).to_set() == v.to_set(),
        t.keys.len() == distinct_count(v),
{
    let lk = labels(t.keys@);
    assert forall|x: Seq<char>| lk.to_set().contains(x) <==> v.to_set().contains(x) by {
        if lk.contains(x) {
            let g = choose|g: int| 0 <= g < lk.len() && lk[g] == x;
            assert(v.contains(t.keys@[g]@));
        }
        if v.contains(x) {
            let i = choose|i: int| 0 <= i < v.len() && v[i] == x;
            let g = t.group_of@[i];
            assert(lk[g as int] == x);
        }
    }
    assert(lk.to_set() =~= v.to_set());
    lk.unique_seq_to_set();
}

/// Number of distinct labels in a column (`n_entities`, `n_periods`, number of clusters).
pub fn count_unique(ids: &[String]) -> (r: usize)
    ensures
        r == distinct_count(labels(ids@)),
{
    let t = index_labels(ids);
    proof {
        lemma_index_distinct_count(t, labels(ids@));
    }
    t.keys.len()
}

/// `x * x`.
pub open spec fn square(x: int) -> int {
    x * x
}

/// `b` to the ninth power, grouped as the computation groups it.
pub open spec fn ninth_power(b: int) -> int {
    square(square(square(b))) * b
}

/// `b` does not exceed `4 * (t / 100)^(2/9)`: raising both sides to the power 9/2 and
/// clearing denominators gives `625 * b^9 <= 16384 * t^2`.
pub open spec fn bandwidth_fits(b: int, t: int) -> bool {
    625 * ninth_power(b) <= 16384 * (t * t)
}

/// `b` is the default Driscoll-Kraay bandwidth `floor(4 * (t / 100)^(2/9))` for `t`
/// periods: the largest natural number that fits.
pub open spec fn is_default_dk_bandwidth(b: int, t: int) -> bool {
    0 <= b && bandwidth_fits(b, t) && !bandwidth_fits(b + 1, t)
}

proof fn lemma_square_mono(x: int, y: int)
    by (nonlinear_arith)
    requires
        0 <= x <= y,
    ensures
        0 <= square(x) <= square(y),
{
}

/// The ninth power grows with its base.
pub proof fn lemma_ninth_power_mono(x: int, y: int)
    requires
        0 <= x <= y,
    ensures
        0 <= ninth_power(x) <= ninth_power(y),
{
    lemma_square_mono(x, y);
    lemma_square_mono(square(x), square(y));
    lemma_square_mono(square(square(x)), square(square(y)));
    let a = square(square(square(x)));
    let b = square(square(square(y)));
    assert(0 <= a * x <= b * y) by (nonlinear_arith)
        requires
            0 <= a <= b,
            0 <= x <= y,
    ;
}

/// Fitting is downward closed: a smaller bandwidth fits whenever a larger one does.
pub proof fn lemma_fits_downward(a: int, b: int, t: int)
    requires
        0 <= a <= b,
        bandwidth_fits(b, t),
    ensures
        bandwidth_fits(a, t),
{
    lemma_ninth_power_mono(a, b);
}

/// The default bandwidth is unique.
pub proof fn lemma_default_dk_bandwidth_unique(a: int, b: int, t: int)
    requires
        is_default_dk_bandwidth(a, t),
        is_default_dk_bandwidth(b, t),
    ensures
        a == b,
{
    if a < b {
        lemma_fits_downward(a + 1, b, t);
    } else if b < a {
        lemma_fits_downward(b + 1, a, t);
    }
}

/// No bandwidth from 28000 on fits a period count below `2^64`.
proof fn lemma_fits_bound(c: int, t: int)
    requires
        c >= 28000,
        0 <= t < 0x1_0000_0000_0000_0000,
    ensures
        !bandwidth_fits(c, t),
{
    lemma_ninth_power_mono(28000, c);
    assert(square(28000) == 784000000);
    assert(square(784000000) == 614656000000000000) by (nonlinear_arith);
    assert(square(614656000000000000) == 377801998336000000000000000000000000) by (nonlinear_arith);
    assert(ninth_power(28000) == 10578455953408000000000000000000000000000);
    assert(t * t < 0x1_0000_0000_0000_0000 * 0x1_0000_0000_0000_0000) by (nonlinear_arith)
        requires
            0 <= t < 0x1_0000_0000_0000_0000,
    ;
}

/// Decides `bandwidth_fits(c, t)` for `1 <= c < 28000` without overflow.
fn fits_exec(c: u128, t: usize) -> (r: bool)
    requires
        1 <= c < 28000,
    ensures
        r == bandwidth_fits(c as int, t as int),
{
    assert((t as u128) * (t as u128) < 0x1_0000_0000_0000_0000_0000_0000_0000_0000) by (nonlinear_arith)
        requires
            (t as u128) < 0x1_0000_0000_0000_0000,
    ;
    let q: u128 = (t as u128) * (t as u128);
    assert(c * c < 784000000) by (nonlinear_arith)
        requires
            c < 28000,
    ;
    let c2: u128 = c * c;
    assert(c2 * c2 < 614656000000000000) by (nonlinear_arith)
        requires
            c2 < 784000000,
    ;
    let c4: u128 = c2 * c2;
    assert(c4 * c4 < 377801998336000000000000000000000000) by (nonlinear_arith)
        requires
            c4 < 614656000000000000,
    ;
    let c8: u128 = c4 * c4;
    assert(ninth_power(c as int) == c8 * c);
    if c < 16384 {
        // c^9 fits in 128 bits; compare ceil(625 * c^9 / 16384) with t^2.
        assert(c8 * c < 0x1_0000_0000_0000_0000_0000_0000_0000_0000) by (nonlinear_arith)
            requires
                c8 == c4 * c4,
                c4 == c2 * c2,
                c2 == c * c,
                c < 16384,
        ;
        let p: u128 = c8 * c;
        let a: u128 = p / 16384;
        let rem: u128 = p % 16384;
        let m: u128 = (625 * rem + 16383) / 16384;
        assert(p == 16384 * a + rem);
        let lhs: u128 = 625 * a + m;
        proof {
            let y = q as int - 625 * a;
            assert(625 * rem + 16383 == 16384 * m + (625 * rem + 16383) % 16384);
            assert((625 * p <= 16384 * q) <==> (m <= y));
        }
        lhs <= q
    } else {
        // c >= 16384: compare 625 * c^8 with floor(16384 * t^2 / c).
        let big_a: u128 = 625 * c8;
        let qd: u128 = q / c;
        let s: u128 = q % c;
        proof {
            assert(q == c * qd + s) by (nonlinear_arith)
                requires
                    c > 0,
                    qd == q / c,
                    s == q % c,
            ;
            assert(16384 * qd <= q) by (nonlinear_arith)
                requires
                    q == c * qd + s,
                    0 <= s,
                    c >= 16384,
                    qd >= 0,
            ;
        }
        let u: u128 = (16384 * s) / c;
        let w: u128 = (16384 * s) % c;
        proof {
            assert(16384 * s == c * u + w) by (nonlinear_arith)
                requires
                    c > 0,
                    u as int == (16384 * s) / (c as int),
                    w as int == (16384 * s) % (c as int),
            ;
            assert(16384 * qd + u <= q) by (nonlinear_arith)
                requires
                    q == c * qd + s,
                    16384 * s == c * u + w,
                    0 <= w < c,
                    0 <= s < c,
                    c >= 16384,
                    qd >= 0,
                    u >= 0,
            ;
        }
        let f: u128 = 16384 * qd + u;
        proof {
            assert(16384 * q == c * f + w) by (nonlinear_arith)
                requires
                    q == c * qd + s,
                    16384 * s == c * u + w,
                    f == 16384 * qd + u,
            ;
            assert((big_a * c <= 16384 * q) <==> (big_a <= f)) by (nonlinear_arith)
                requires
                    16384 * q == c * f + w,
                    0 <= w < c,
                    c > 0,
            ;
            assert(625 * ninth_power(c as int) == big_a * c) by (nonlinear_arith)
                requires
                    ninth_power(c as int) == c8 * c,
                    big_a == 625 * c8,
            ;
        }
        big_a <= f
    }
}

/// Resolves the Driscoll-Kraay bandwidth for `t` distinct periods.
///
/// An explicit `bandwidth` must lie in `[0, t)` and is used as is. Without one, the
/// rule `floor(4 * (t / 100)^(2/9))` applies (`is_default_dk_bandwidth`).
///
/// # Errors
/// `PanelError::InvalidHacBandwidth { bandwidth, t }` for an explicit bandwidth
/// outside `[0, t)`.
pub fn resolve_dk_bandwidth(bandwidth: Option<i64>, t: usize) -> (r: Result<usize, PanelError>)
    ensures
        bandwidth matches Some(bw) ==> (0 <= bw < t ==> r == Ok::<usize, PanelError>(
            bw as usize,
        )),
        bandwidth matches Some(bw) ==> (!(0 <= bw < t) ==> r == Err::<usize, PanelError>(
            PanelError::InvalidHacBandwidth { bandwidth: bw, t },
        )),
        bandwidth is None ==> (r matches Ok(b) && is_default_dk_bandwidth(b as int, t as int)),
{
    match bandwidth {
        Some(bw) => {
            if bw < 0 || (bw as u64) >= (t as u64) {
                return Err(PanelError::InvalidHacBandwidth { bandwidth: bw, t });
            }
            Ok(bw as usize)
        },
        None => {
            let mut b: u128 = 0;
            assert(bandwidth_fits(0, t as int)) by {
                assert(ninth_power(0) == 0);
                assert(0 <= t * t) by (nonlinear_arith);
            }
            loop
                invariant
                    bandwidth is None,
                    b < 28000,
                    bandwidth_fits(b as int, t as int),
                decreases 28000 - b,
            {
                proof {
                    if b + 1 >= 28000 {
                        lemma_fits_bound(b + 1, t as int);
                    }
                }
                if b + 1 >= 28000 || !fits_exec(b + 1, t) {
                    proof {
                        if b + 1 >= 28000 {
                            lemma_fits_bound(b + 1, t as int);
                        }
                    }
                    return Ok(b as usize);
                }
                b = b + 1;
                proof {
                    if b >= 28000 {
                        lemma_fits_bound(b as int, t as int);
                    }
                }
            }
        },
    }
}

/// What a covariance type needs beyond the coefficients and residuals, as decided from
/// the identifier columns.
#[derive(Debug, Clone, Copy, PartialEq, Eq)]
pub enum PanelCovPlan {
    /// Classical and heteroskedasticity-robust types need nothing further.
    Plain,
    /// Cluster-robust: the number of clusters, and the extra degrees of freedom removed
    /// in the `n / (n - extra_df - k)` scale.
    Cluster { n_groups: usize, extra_df: usize },
    /// Driscoll-Kraay: the bandwidth in use and the number of distinct periods.
    Hac { bandwidth: usize, t_periods: usize },
}

/// `r` is the cluster plan for cluster labels `vg` with `q` slope coefficients and
/// `extra_df` extra degrees of freedom.
pub open spec fn cluster_plan_outcome(
    r: Result<PanelCovPlan, PanelError>,
    vg: Seq<Seq<char>>,
    q: nat,
    extra_df: nat,
) -> bool {
    let g = distinct_count(vg);
    if g < 2 {
        r == Err::<PanelCovPlan, PanelError>(
            PanelError::Common(CommonError::InsufficientClusters { g: g as usize }),
        )
    } else if g <= q {
        r == Err::<PanelCovPlan, PanelError>(
            PanelError::Common(
                CommonError::InsufficientClustersForInference { g: g as usize, q: q as usize },
            ),
        )
    } else {
        r == Ok::<PanelCovPlan, PanelError>(
            PanelCovPlan::Cluster { n_groups: g as usize, extra_df: extra_df as usize },
        )
    }
}

/// Validates cluster labels (at least two clusters, more clusters than the `q` slope
/// coefficients) and records the number of clusters with `extra_df`.
pub fn cluster_plan(groups: &[String], q: usize, extra_df: usize) -> (r: Result<
    PanelCovPlan,
    PanelError,
>)
    ensures
        cluster_plan_outcome(r, labels(groups@), q as nat, extra_df as nat),
{
    let n_groups = match validate_cluster_groups(groups, groups.len()) {
        Ok(g) => g,
        Err(e) => {
            return Err(PanelError::Common(e));
        },
    };
    match validate_cluster_count_covers_slopes(n_groups, q) {
        Ok(()) => {},
        Err(e) => {
            return Err(PanelError::Common(e));
        },
    }
    Ok(PanelCovPlan::Cluster { n_groups, extra_df })
}

/// `r` is the Driscoll-Kraay plan for the time column `time` and the requested
/// bandwidth.
pub open spec fn hac_plan_outcome(
    r: Result<PanelCovPlan, PanelError>,
    time: Option<Seq<String>>,
    bandwidth: Option<i64>,
) -> bool {
    match time {
        None => r == Err::<PanelCovPlan, PanelError>(PanelError::HacRequiresTime),
        Some(tm) => {
            let t = distinct_count(labels(tm));
            match bandwidth {
                Some(bw) => if 0 <= bw < t {
                    r == Ok::<PanelCovPlan, PanelError>(
                        PanelCovPlan::Hac { bandwidth: bw as usize, t_periods: t as usize },
                    )
                } else {
                    r == Err::<PanelCovPlan, PanelError>(
                        PanelError::InvalidHacBandwidth { bandwidth: bw, t: t as usize },
                    )
                },
                None => r matches Ok(PanelCovPlan::Hac { bandwidth: b, t_periods })
                    && t_periods == t && is_default_dk_bandwidth(b as int, t as int),
            }
        },
    }
}

/// Driscoll-Kraay needs a time column; the bandwidth is resolved against the number of
/// distinct periods.
///
/// # Errors
/// `PanelError::HacRequiresTime` without a time column, `PanelError::InvalidHacBandwidth`
/// for an explicit bandwidth outside `[0, t)`.
pub fn hac_plan(time: Option<&[String]>, bandwidth: Option<i64>) -> (r: Result<
    PanelCovPlan,
    PanelError,
>)
    ensures
        hac_plan_outcome(
            r,
            match time {
                Some(tm) => Some(tm@),
                None => None,
            },
            bandwidth,
        ),
{
    match time {
        None => Err(PanelError::HacRequiresTime),
        Some(tm) => {
            let t_periods = count_unique(tm);
            match resolve_dk_bandwidth(bandwidth, t_periods) {
                Ok(bw) => Ok(PanelCovPlan::Hac { bandwidth: bw, t_periods }),
                Err(e) => Err(e),
            }
        },
    }
}

/// `r` is the outcome of the column-length check: the first `x` column whose length
/// differs from `y`, then the entity column, then the time column.
pub open spec fn column_lengths_outcome(
    r: Result<(), PanelError>,
    y_rows: usize,
    x_rows: Seq<usize>,
    entity_rows: usize,
    time_rows: Option<usize>,
) -> bool {
    if exists|j: int| 0 <= j < x_rows.len() && x_rows[j] != y_rows {
        exists|j: int|
            0 <= j < x_rows.len() && #[trigger] x_rows[j] != y_rows && (forall|l: int|
                0 <= l < j ==> x_rows[l] == y_rows) && r == Err::<(), PanelError>(
                PanelError::Common(
                    CommonError::DimensionMismatch { y_rows, x_rows: x_rows[j] },
                ),
            )
    } else if entity_rows != y_rows {
        r == Err::<(), PanelError>(
            PanelError::IdentifierDimensionMismatch {
                dimension: PanelDimension::Entity,
                y_rows,
                other_rows: entity_rows,
            },
        )
    } else if time_rows matches Some(tr) && tr != y_rows {
        r == Err::<(), PanelError>(
            PanelError::IdentifierDimensionMismatch {
                dimension: PanelDimension::Time,
                y_rows,
                other_rows: time_rows.unwrap(),
            },
        )
    } else {
        r == Ok::<(), PanelError>(())
    }
}

/// The first length mismatch, in the order of `check_column_lengths`.
fn first_length_mismatch(
    y_rows: usize,
    x_rows: &[usize],
    entity_rows: usize,
    time_rows: Option<usize>,
) -> (r: Result<(), PanelError>)
    ensures
        column_lengths_outcome(r, y_rows, x_rows@, entity_rows, time_rows),
{
    let mut j: usize = 0;
    while j < x_rows.len()
        invariant
            j <= x_rows.len(),
            forall|l: int| 0 <= l < j ==> x_rows@[l] == y_rows,
        decreases x_rows.len() - j,
    {
        if x_rows[j] != y_rows {
            let r = Err(
                PanelError::Common(CommonError::DimensionMismatch { y_rows, x_rows: x_rows[j] }),
            );
            proof {
                assert(x_rows@[j as int] != y_rows);
            }
            return r;
        }
        j += 1;
    }
    if entity_rows != y_rows {
        return Err(
            PanelError::IdentifierDimensionMismatch {
                dimension: PanelDimension::Entity,
                y_rows,
                other_rows: entity_rows,
            },
        );
    }
    match time_rows {
        Some(tr) => {
            if tr != y_rows {
                return Err(
                    PanelError::IdentifierDimensionMismatch {
                        dimension: PanelDimension::Time,
                        y_rows,
                        other_rows: tr,
                    },
                );
            }
        },
        None => {},
    }
    Ok(())
}


/// Checks that every `x` column, the entity column and the time column (when given)
/// have as many rows as `y`, reporting the first mismatch in that order.
pub fn check_column_lengths(
    y_rows: usize,
    x_rows: &[usize],
    entity_rows: usize,
    time_rows: Option<usize>,
) -> (r: Result<(), PanelError>)
    ensures
        column_lengths_outcome(r, y_rows, x_rows@, entity_rows, time_rows),
        r is Ok <==> ((forall|j: int| 0 <= j < x_rows.len() ==> #[trigger] x_rows@[j] == y_rows)
            && entity_rows == y_rows && (time_rows matches Some(t) ==> t == y_rows)),
{
    let r = first_length_mismatch(y_rows, x_rows, entity_rows, time_rows);
    proof {
        crate::panel::properties::law_column_lengths_accept_equal_rows(
            r,
            y_rows,
            x_rows@,
            entity_rows,
            time_rows,
        );
    }
    r
}
} // verus!
