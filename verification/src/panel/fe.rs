//! Fixed effects: the identifier checks that precede the within transformation
//! (singleton groups, balanced two-way panels), the panel degrees of freedom, and
//! the choice of the cluster-robust degrees-of-freedom correction.
use vstd::prelude::*;

use crate::panel::common::{
    cluster_plan, cluster_plan_outcome, count_unique, hac_plan, hac_plan_outcome,
    lemma_index_distinct_count, PanelCovPlan, PanelDimension, PanelError,
};
use crate::panel::groups::{
    distinct_count, find_label, index_labels, labels, lemma_occ_one_unique, lemma_occ_present,
    occ, LabelIndex,
};

verus! {

/// Direction of the fixed effects.
#[derive(Debug, Clone, Copy, PartialEq, Eq, Structural)]
pub enum FeEffects {
    /// Entity effects only.
    OneWay,
    /// Entity and time effects (requires a balanced panel).
    TwoWay,
}

/// Covariance estimators offered for fixed effects.
#[derive(Debug, Clone, PartialEq, Eq)]
pub enum FeCovType {
    /// Homoskedastic: `SSR/df_resid * (X'X)^-1`.
    Classical,
    /// White heteroskedasticity-robust with small-sample factor `n/df_resid`.
    Hc1,
    /// Leverage-based robust covariance using the full (dummy-variable) leverage.
    Hc2,
    /// More conservative leverage correction than `Hc2`.
    Hc3,
    /// Cluster-robust; `groups: None` clusters by entity.
    Cluster { groups: Option<Vec<String>> },
    /// Driscoll-Kraay panel HAC; `bandwidth: None` uses the default rule.
    Hac { bandwidth: Option<i64> },
}

/// Position `i` holds the first label (in observation order) that occurs exactly once.
pub open spec fn is_first_singleton(v: Seq<Seq<char>>, i: int) -> bool {
    &&& 0 <= i < v.len()
    &&& occ(v, v[i]) == 1
    &&& forall|j: int| 0 <= j < i ==> occ(v, v[j]) != 1
}

/// `r` is the outcome of the singleton check of column `v` in dimension `d`: success
/// when every label occurs at least twice, otherwise the first label (in observation
/// order) that occurs once.
pub open spec fn singleton_outcome(
    r: Result<(), PanelError>,
    d: PanelDimension,
    v: Seq<Seq<char>>,
) -> bool {
    match r {
        Ok(()) => forall|i: int| 0 <= i < v.len() ==> occ(v, v[i]) >= 2,
        Err(e) => exists|i: int|
            #[trigger] is_first_singleton(v, i) && (e matches PanelError::SingletonGroup {
                dimension,
                group_id,
            } && dimension == d && group_id@ == v[i]),
    }
}

/// The singleton check of `reject_singleton_group`, stated through `singleton_outcome`.
fn find_singleton(dimension: PanelDimension, ids: &[String]) -> (r: Result<
    (),
    PanelError,
>)
    ensures
        singleton_outcome(r, dimension, labels(ids@)),
{
    let ghost v = labels(ids@);
    let t = index_labels(ids);
    let mut i: usize = 0;
    while i < ids.len()
        invariant
            i <= ids.len(),
            v == labels(ids@),
            t.indexes(v),
            forall|j: int| 0 <= j < i ==> occ(v, v[j]) != 1,
        decreases ids.len() - i,
    {
        let g = t.group_of[i];
        if t.counts[g] == 1 {
            let group_id = ids[i].clone();
            proof {
                assert(ids@[i as int]@ == v[i as int]);
                assert(is_first_singleton(v, i as int));
            }
            return Err(PanelError::SingletonGroup { dimension, group_id });
        }
        i += 1;
    }
    proof {
        assert forall|j: int| 0 <= j < v.len() implies occ(v, v[j]) >= 2 by {
            lemma_occ_present(v, j);
        }
    }
    Ok(())
}

/// Position `i` of `ids` shares its label with another position.
pub open spec fn has_partner(ids: Seq<String>, i: int) -> bool {
    exists|j: int| 0 <= j < ids.len() && j != i && #[trigger] ids[j]@ == ids[i]@
}

/// Rejects the first group (in observation order) of `ids` that has a single
/// observation.
pub fn reject_singleton_group(dimension: PanelDimension, ids: &[String]) -> (r: Result<
    (),
    PanelError,
>)
    ensures
        singleton_outcome(r, dimension, labels(ids@)),
        r is Ok <==> forall|i: int| 0 <= i < ids.len() ==> #[trigger] has_partner(ids@, i),
{
    let r = find_singleton(dimension, ids);
    proof {
        let v = labels(ids@);
        assert forall|i: int| 0 <= i < ids.len() implies (occ(v, v[i]) >= 2 <==> #[trigger] has_partner(ids@, i)) by {
            crate::panel::properties::law_singleton_is_label_at_one_position(v, i);
            assert(v[i] == ids@[i]@);
            if exists|j: int| 0 <= j < v.len() && j != i && #[trigger] v[j] == v[i] {
                let j = choose|j: int| 0 <= j < v.len() && j != i && #[trigger] v[j] == v[i];
                assert(ids@[j]@ == v[j]);
            }
            if has_partner(ids@, i) {
                let j = choose|j: int| 0 <= j < ids.len() && j != i && #[trigger] ids@[j]@ == ids@[i]@;
                assert(v[j] == ids@[j]@);
            }
        }
        if r is Err {
            let i = choose|i: int| #[trigger] is_first_singleton(v, i);
            assert(!has_partner(ids@, i));
        }
    }
    r
}

/// Singleton check of one-way fixed effects: no entity may have a single observation.
///
/// # Errors
/// `PanelError::SingletonGroup` (entity dimension) for the first such entity.
pub fn validate_no_singleton_groups_one_way(entity: &[String]) -> (r: Result<(), PanelError>)
    ensures
        singleton_outcome(r, PanelDimension::Entity, labels(entity@)),
{
    reject_singleton_group(PanelDimension::Entity, entity)
}

/// Singleton check of two-way fixed effects: entities and time periods alike.
///
/// The presence of `time` is checked first; then the entity column, then the time
/// column.
///
/// # Errors
/// - `PanelError::TwoWayRequiresTime` without a time column
/// - `PanelError::SingletonGroup` for the first singleton entity, or else the first
///   singleton time period
pub fn validate_no_singleton_groups_two_way(entity: &[String], time: Option<&[String]>) -> (r:
    Result<(), PanelError>)
    ensures
        match time {
            None => r == Err::<(), PanelError>(PanelError::TwoWayRequiresTime),
            Some(tm) => {
                let ve = labels(entity@);
                let vt = labels(tm@);
                if exists|i: int| 0 <= i < ve.len() && occ(ve, ve[i]) == 1 {
                    singleton_outcome(r, PanelDimension::Entity, ve)
                } else {
                    singleton_outcome(r, PanelDimension::Time, vt)
                }
            },
        },
{
    match time {
        None => Err(PanelError::TwoWayRequiresTime),
        Some(tm) => {
            let re = reject_singleton_group(PanelDimension::Entity, entity);
            match re {
                Err(e) => {
                    proof {
                        let ve = labels(entity@);
                        let i = choose|i: int| #[trigger] is_first_singleton(ve, i);
                        assert(0 <= i < ve.len() && occ(ve, ve[i]) == 1);
                    }
                    Err(e)
                },
                Ok(()) => {
                    proof {
                        let ve = labels(entity@);
                        assert forall|i: int| 0 <= i < ve.len() implies occ(ve, ve[i]) != 1 by {
                            assert(occ(ve, ve[i]) >= 2);
                        }
                    }
                    reject_singleton_group(PanelDimension::Time, tm)
                },
            }
        },
    }
}

/// No two observations share both their entity and their time label.
pub open spec fn pairs_distinct(ve: Seq<Seq<char>>, vt: Seq<Seq<char>>) -> bool {
    forall|i: int, j: int|
        0 <= i < j < ve.len() ==> !(#[trigger] ve[i] == #[trigger] ve[j] && vt[i] == vt[j])
}

/// Every combination of an entity label and a time label occurs in some observation.
pub open spec fn covers_grid(ve: Seq<Seq<char>>, vt: Seq<Seq<char>>) -> bool {
    forall|e: Seq<char>, tl: Seq<char>|
        ve.contains(e) && vt.contains(tl) ==> exists|i: int|
            0 <= i < ve.len() && #[trigger] ve[i] == e && vt[i] == tl
}

/// Two positions hold the same label exactly when they are assigned the same key.
pub proof fn lemma_same_group(t: LabelIndex, v: Seq<Seq<char>>, j: int, k: int)
    requires
        t.indexes(v),
        0 <= j < v.len(),
        0 <= k < v.len(),
    ensures
        (t.group_of@[j] == t.group_of@[k]) <==> (v[j] == v[k]),
{
    let gj = t.group_of@[j] as int;
    let gk = t.group_of@[k] as int;
    assert(labels(t.keys@)[gj] == t.keys@[gj]@);
    assert(labels(t.keys@)[gk] == t.keys@[gk]@);
}

proof fn lemma_cell_bound(a: int, b: int, ne: int, nt: int)
    by (nonlinear_arith)
    requires
        0 <= a < ne,
        0 <= b < nt,
    ensures
        0 <= a * nt + b < ne * nt,
{
}

proof fn lemma_cell_unique(a: int, b: int, c: int, d: int, nt: int)
    by (nonlinear_arith)
    requires
        0 <= a,
        0 <= c,
        0 <= b < nt,
        0 <= d < nt,
        a * nt + b == c * nt + d,
    ensures
        a == c,
        b == d,
{
    if a < c {
        assert(a * nt + nt <= c * nt);
    } else if c < a {
        assert(c * nt + nt <= a * nt);
    }
}

proof fn lemma_cell_split(x: int, nt: int)
    by (nonlinear_arith)
    requires
        0 <= x,
        0 < nt,
    ensures
        x == (x / nt) * nt + x % nt,
        0 <= x % nt < nt,
        0 <= x / nt,
{
}

/// The grid cell of an observation: its entity key times the number of periods plus
/// its time key.
pub open spec fn cell(te: LabelIndex, tt: LabelIndex, i: int) -> int {
    te.group_of@[i] * tt.keys.len() + tt.group_of@[i]
}

/// With distinct pairs, the cells of the observations are distinct; when their number
/// equals the grid size they fill the grid, so every entity-time combination occurs.
proof fn lemma_grid_filled(
    te: LabelIndex,
    tt: LabelIndex,
    ve: Seq<Seq<char>>,
    vt: Seq<Seq<char>>,
)
    requires
        te.indexes(ve),
        tt.indexes(vt),
        ve.len() == vt.len(),
        pairs_distinct(ve, vt),
        ve.len() == te.keys.len() * tt.keys.len(),
    ensures
        covers_grid(ve, vt),
{
    let n = ve.len();
    let ne = te.keys.len() as int;
    let nt = tt.keys.len() as int;
    let cs = Seq::new(n, |i: int| cell(te, tt, i));
    assert forall|i: int, j: int| 0 <= i < cs.len() && 0 <= j < cs.len() && i != j implies cs[i]
        != cs[j] by {
        if cs[i] == cs[j] {
            lemma_cell_unique(
                te.group_of@[i] as int,
                tt.group_of@[i] as int,
                te.group_of@[j] as int,
                tt.group_of@[j] as int,
                nt,
            );
            lemma_same_group(te, ve, i, j);
            lemma_same_group(tt, vt, i, j);
            if i < j {
                assert(!(ve[i] == ve[j] && vt[i] == vt[j]));
            } else {
                assert(!(ve[j] == ve[i] && vt[j] == vt[i]));
            }
        }
    }
    cs.unique_seq_to_set();
    let range = vstd::set_lib::set_int_range(0, n as int);
    vstd::set_lib::lemma_int_range(0, n as int);
    assert forall|x: int| cs.to_set().contains(x) implies range.contains(x) by {
        let i = choose|i: int| 0 <= i < cs.len() && cs[i] == x;
        lemma_cell_bound(te.group_of@[i] as int, tt.group_of@[i] as int, ne, nt);
    }
    assert(cs.to_set().subset_of(range));
    vstd::set_lib::lemma_subset_equality(cs.to_set(), range);
    assert forall|e: Seq<char>, tl: Seq<char>| ve.contains(e) && vt.contains(tl) implies exists|
        i: int,
    | 0 <= i < ve.len() && #[trigger] ve[i] == e && vt[i] == tl by {
        let ie = choose|i: int| 0 <= i < ve.len() && ve[i] == e;
        let it = choose|i: int| 0 <= i < vt.len() && vt[i] == tl;
        let a = te.group_of@[ie] as int;
        let b = tt.group_of@[it] as int;
        lemma_cell_bound(a, b, ne, nt);
        assert(range.contains(a * nt + b));
        let i = choose|i: int| 0 <= i < cs.len() && cs[i] == a * nt + b;
        lemma_cell_unique(te.group_of@[i] as int, tt.group_of@[i] as int, a, b, nt);
        assert(te.keys@[a]@ == e);
        assert(tt.keys@[b]@ == tl);
    }
}

/// With distinct pairs covering the grid, the observations are exactly the grid cells,
/// so their number is the grid size.
proof fn lemma_grid_count(te: LabelIndex, tt: LabelIndex, ve: Seq<Seq<char>>, vt: Seq<Seq<char>>)
    requires
        te.indexes(ve),
        tt.indexes(vt),
        ve.len() == vt.len(),
        pairs_distinct(ve, vt),
        covers_grid(ve, vt),
    ensures
        ve.len() == te.keys.len() * tt.keys.len(),
{
    let n = ve.len();
    let ne = te.keys.len() as int;
    let nt = tt.keys.len() as int;
    let cs = Seq::new(n, |i: int| cell(te, tt, i));
    assert forall|i: int, j: int| 0 <= i < cs.len() && 0 <= j < cs.len() && i != j implies cs[i]
        != cs[j] by {
        if cs[i] == cs[j] {
            lemma_cell_unique(
                te.group_of@[i] as int,
                tt.group_of@[i] as int,
                te.group_of@[j] as int,
                tt.group_of@[j] as int,
                nt,
            );
            lemma_same_group(te, ve, i, j);
            lemma_same_group(tt, vt, i, j);
            if i < j {
                assert(!(ve[i] == ve[j] && vt[i] == vt[j]));
            } else {
                assert(!(ve[j] == ve[i] && vt[j] == vt[i]));
            }
        }
    }
    cs.unique_seq_to_set();
    if nt == 0 {
        if n > 0 {
            assert(tt.group_of@[0] < tt.keys.len());
        }
        assert(ne * nt == 0) by (nonlinear_arith)
            requires
                nt == 0,
        ;
    } else {
        let range = vstd::set_lib::set_int_range(0, ne * nt);
        assert(0 <= ne * nt) by (nonlinear_arith)
            requires
                0 <= ne,
                0 <= nt,
        ;
        vstd::set_lib::lemma_int_range(0, ne * nt);
        assert forall|x: int| cs.to_set().contains(x) <==> range.contains(x) by {
            if cs.to_set().contains(x) {
                let i = choose|i: int| 0 <= i < cs.len() && cs[i] == x;
                lemma_cell_bound(te.group_of@[i] as int, tt.group_of@[i] as int, ne, nt);
            }
            if range.contains(x) {
                lemma_cell_split(x, nt);
                let a = x / nt;
                let b = x % nt;
                assert(a < ne) by (nonlinear_arith)
                    requires
                        x == a * nt + b,
                        0 <= b,
                        x < ne * nt,
                        0 < nt,
                ;
                let e = te.keys@[a]@;
                let tl = tt.keys@[b]@;
                assert(ve.contains(e));
                assert(vt.contains(tl));
                let i = choose|i: int| 0 <= i < ve.len() && #[trigger] ve[i] == e && vt[i] == tl;
                let ga = te.group_of@[i] as int;
                let gb = tt.group_of@[i] as int;
                assert(labels(te.keys@)[ga] == labels(te.keys@)[a]);
                assert(labels(tt.keys@)[gb] == labels(tt.keys@)[b]);
                assert(cs[i] == x);
            }
        }
        assert(cs.to_set() =~= range);
    }
}

/// Checks that a two-way panel is balanced: every (entity, time) combination occurs
/// exactly once.
///
/// Counting alone is not enough (a repeated pair can offset a missing one), so the
/// check is that no pair repeats and that the number of observations equals
/// `n_entities * n_periods`; together these mean every combination occurs exactly once.
///
/// # Errors
/// `PanelError::UnbalancedPanelForTwoWay` with the counts otherwise.
pub fn validate_balanced_panel(entity: &[String], time: &[String]) -> (r: Result<(), PanelError>)
    requires
        entity.len() == time.len(),
        distinct_count(labels(entity@)) * distinct_count(labels(time@)) <= usize::MAX,
    ensures
        ({
            let ve = labels(entity@);
            let vt = labels(time@);
            let ne = distinct_count(ve);
            let nt = distinct_count(vt);
            &&& r is Ok <==> (pairs_distinct(ve, vt) && entity.len() == ne * nt)
            &&& r is Ok <==> (pairs_distinct(ve, vt) && covers_grid(ve, vt))
            &&& r is Err ==> r == Err::<(), PanelError>(
                PanelError::UnbalancedPanelForTwoWay {
                    n_obs: entity.len(),
                    n_entities: ne as usize,
                    n_periods: nt as usize,
                    expected: (ne * nt) as usize,
                },
            )
        }),
{
    let ghost ve = labels(entity@);
    let ghost vt = labels(time@);
    let n_obs = entity.len();
    let te = index_labels(entity);
    let tt = index_labels(time);
    proof {
        lemma_index_distinct_count(te, ve);
        lemma_index_distinct_count(tt, vt);
    }
    let n_entities = te.keys.len();
    let n_periods = tt.keys.len();
    let expected = n_entities * n_periods;
    let err = PanelError::UnbalancedPanelForTwoWay { n_obs, n_entities, n_periods, expected };
    if n_obs != expected {
        proof {
            if covers_grid(ve, vt) && pairs_distinct(ve, vt) {
                lemma_grid_count(te, tt, ve, vt);
            }
        }
        return Err(err);
    }
    let mut marks: Vec<bool> = Vec::new();
    let mut c: usize = 0;
    while c < n_obs
        invariant
            c <= n_obs,
            marks.len() == c,
            forall|x: int| 0 <= x < c ==> !marks@[x],
        decreases n_obs - c,
    {
        marks.push(false);
        c += 1;
    }
    let mut i: usize = 0;
    while i < n_obs
        invariant
            i <= n_obs,
            n_obs == entity.len(),
            n_obs == time.len(),
            n_obs == n_entities * n_periods,
            n_entities == te.keys.len(),
            n_periods == tt.keys.len(),
            n_entities == distinct_count(ve),
            n_periods == distinct_count(vt),
            err == (PanelError::UnbalancedPanelForTwoWay { n_obs, n_entities, n_periods, expected }),
            expected == n_entities * n_periods,
            ve == labels(entity@),
            vt == labels(time@),
            te.indexes(ve),
            tt.indexes(vt),
            marks.len() == n_obs,
            forall|j: int| 0 <= j < i ==> marks@[cell(te, tt, j)],
            forall|x: int|
                0 <= x < n_obs && #[trigger] marks@[x] ==> exists|j: int|
                    0 <= j < i && cell(te, tt, j) == x,
            forall|a: int, b: int|
                0 <= a < b < i ==> !(#[trigger] ve[a] == #[trigger] ve[b] && vt[a] == vt[b]),
        decreases n_obs - i,
    {
        let a = te.group_of[i];
        let b = tt.group_of[i];
        proof {
            lemma_cell_bound(a as int, b as int, n_entities as int, n_periods as int);
        }
        let x = a * n_periods + b;
        if marks[x] {
            proof {
                let j = choose|j: int| 0 <= j < i && cell(te, tt, j) == x;
                lemma_cell_unique(
                    te.group_of@[j] as int,
                    tt.group_of@[j] as int,
                    a as int,
                    b as int,
                    n_periods as int,
                );
                lemma_same_group(te, ve, j, i as int);
                lemma_same_group(tt, vt, j, i as int);
                assert(!pairs_distinct(ve, vt));
            }
            return Err(err);
        }
        marks.set(x, true);
        proof {
            assert forall|p: int, q: int|
                0 <= p < q < i + 1 implies !(#[trigger] ve[p] == #[trigger] ve[q] && vt[p]
                == vt[q]) by {
                if q == i && ve[p] == ve[q] && vt[p] == vt[q] {
                    lemma_same_group(te, ve, p, q);
                    lemma_same_group(tt, vt, p, q);
                    assert(marks@[cell(te, tt, p)]);
                }
            }
            assert forall|j: int| 0 <= j < i + 1 implies marks@[cell(te, tt, j)] by {
                lemma_cell_bound(
                    te.group_of@[j] as int,
                    tt.group_of@[j] as int,
                    n_entities as int,
                    n_periods as int,
                );
            }
            assert forall|y: int|
                0 <= y < n_obs && #[trigger] marks@[y] implies exists|j: int|
                    0 <= j < i + 1 && cell(te, tt, j) == y by {
                if y == x {
                    assert(cell(te, tt, i as int) == y);
                }
            }
        }
        i += 1;
    }
    proof {
        lemma_grid_filled(te, tt, ve, vt);
    }
    Ok(())
}

/// Observations with the same entity always share their cluster label (over the
/// first `m` positions): each entity lies within a single cluster.
pub open spec fn entity_nested(ve: Seq<Seq<char>>, vc: Seq<Seq<char>>, m: int) -> bool {
    forall|i: int, j: int|
        0 <= i < m && 0 <= j < m && #[trigger] ve[i] == #[trigger] ve[j] ==> vc[i] == vc[j]
}

/// Position `j` carries a recorded entity key whose first observation has the same
/// cluster as `j`.
pub open spec fn first_shares_cluster(
    keys: Seq<String>,
    firsts: Seq<usize>,
    ve: Seq<Seq<char>>,
    vc: Seq<Seq<char>>,
    j: int,
) -> bool {
    exists|g: int|
        0 <= g < keys.len() && #[trigger] keys[g]@ == ve[j] && vc[j] == vc[firsts[g] as int]
}

/// Whether every entity belongs to a single cluster, i.e. the clustering equals the
/// entity grouping or is coarser than it. Pairs are taken position by position up to
/// the shorter of the two columns.
pub fn entity_nested_within_cluster(entity: &[String], cluster: &[String]) -> (r: bool)
    ensures
        r == entity_nested(
            labels(entity@),
            labels(cluster@),
            if entity.len() < cluster.len() {
                entity.len() as int
            } else {
                cluster.len() as int
            },
        ),
        r <==> forall|i: int, j: int|
            0 <= i < entity.len() && i < cluster.len() && 0 <= j < entity.len() && j
                < cluster.len() && #[trigger] entity@[i]@ == #[trigger] entity@[j]@
                ==> cluster@[i]@ == cluster@[j]@,
{
    proof {
        crate::panel::properties::law_entity_nesting_is_pairwise(entity@, cluster@);
    }
    let ghost ve = labels(entity@);
    let ghost vc = labels(cluster@);
    let m = if entity.len() < cluster.len() {
        entity.len()
    } else {
        cluster.len()
    };
    let mut keys: Vec<String> = Vec::new();
    let mut firsts: Vec<usize> = Vec::new();
    let mut i: usize = 0;
    while i < m
        invariant
            i <= m,
            m <= entity.len(),
            m <= cluster.len(),
            ve == labels(entity@),
            vc == labels(cluster@),
            keys.len() == firsts.len(),
            labels(keys@).no_duplicates(),
            forall|g: int|
                0 <= g < keys.len() ==> {
                    &&& #[trigger] firsts@[g] < i
                    &&& keys@[g]@ == ve[firsts@[g] as int]
                },
            forall|j: int| 0 <= j < i ==> #[trigger] first_shares_cluster(keys@, firsts@, ve, vc, j),
        decreases m - i,
    {
        match find_label(&keys, &entity[i]) {
            Some(g) => {
                let f = firsts[g];
                if !cluster[f].eq(&cluster[i]) {
                    proof {
                        assert(entity@[i as int]@ == ve[i as int]);
                        assert(cluster@[i as int]@ == vc[i as int]);
                        assert(cluster@[f as int]@ == vc[f as int]);
                        assert(ve[f as int] == ve[i as int]);
                        assert(!entity_nested(ve, vc, m as int));
                    }
                    return false;
                }
                proof {
                    assert(cluster@[i as int]@ == vc[i as int]);
                    assert(cluster@[f as int]@ == vc[f as int]);
                    assert forall|j: int| 0 <= j < i + 1 implies #[trigger] first_shares_cluster(keys@, firsts@, ve, vc, j) by {
                        if j == i {
                            assert(keys@[g as int]@ == ve[j]);
                        }
                    }
                }
            },
            None => {
                let ghost pre_keys = keys@;
                let ghost pre_firsts = firsts@;
                let k = entity[i].clone();
                keys.push(k);
                firsts.push(i);
                proof {
                    let lk = labels(keys@);
                    assert(lk =~= labels(pre_keys).push(ve[i as int]));
                    assert forall|a: int, b: int|
                        0 <= a < lk.len() && 0 <= b < lk.len() && a != b implies lk[a]
                        != lk[b] by {
                        if a < pre_keys.len() && b < pre_keys.len() {
                            assert(labels(pre_keys)[a] == lk[a]);
                            assert(labels(pre_keys)[b] == lk[b]);
                        }
                    }
                    assert forall|j: int| 0 <= j < i + 1 implies #[trigger] first_shares_cluster(keys@, firsts@, ve, vc, j) by {
                        if j == i {
                            assert(keys@[pre_keys.len() as int]@ == ve[j]);
                        } else {
                            assert(first_shares_cluster(pre_keys, pre_firsts, ve, vc, j));
                            let h = choose|h: int|
                                0 <= h < pre_keys.len() && #[trigger] pre_keys[h]@ == ve[j]
                                    && vc[j] == vc[pre_firsts[h] as int];
                            assert(keys@[h]@ == ve[j]);
                        }
                    }
                }
            },
        }
        i += 1;
    }
    proof {
        assert forall|a: int, b: int|
            0 <= a < m && 0 <= b < m && #[trigger] ve[a] == #[trigger] ve[b] implies vc[a]
            == vc[b] by {
            assert(first_shares_cluster(keys@, firsts@, ve, vc, a));
            assert(first_shares_cluster(keys@, firsts@, ve, vc, b));
            let ga = choose|g: int|
                0 <= g < keys.len() && #[trigger] keys@[g]@ == ve[a] && vc[a] == vc[firsts@[g] as int];
            let gb = choose|g: int|
                0 <= g < keys.len() && #[trigger] keys@[g]@ == ve[b] && vc[b] == vc[firsts@[g] as int];
            assert(labels(keys@)[ga] == labels(keys@)[gb]);
        }
    }
    true
}

/// Number of observations of each distinct label, each label listed once.
pub fn group_sizes(ids: &[String]) -> (r: Vec<(String, usize)>)
    ensures
        r.len() == distinct_count(labels(ids@)),
        forall|g: int, h: int| 0 <= g < h < r.len() ==> r@[g].0@ != r@[h].0@,
        forall|g: int|
            0 <= g < r.len() ==> labels(ids@).contains(#[trigger] r@[g].0@) && r@[g].1 == occ(
                labels(ids@),
                r@[g].0@,
            ),
        forall|x: Seq<char>|
            #[trigger] labels(ids@).contains(x) ==> exists|g: int|
                0 <= g < r.len() && #[trigger] r@[g].0@ == x,
{
    let ghost v = labels(ids@);
    let t = index_labels(ids);
    proof {
        lemma_index_distinct_count(t, v);
    }
    let mut r: Vec<(String, usize)> = Vec::new();
    let mut g: usize = 0;
    while g < t.keys.len()
        invariant
            g <= t.keys.len(),
            v == labels(ids@),
            t.indexes(v),
            r.len() == g,
            forall|h: int| 0 <= h < g ==> #[trigger] r@[h].0@ == t.keys@[h]@ && r@[h].1 == t.counts@[h],
        decreases t.keys.len() - g,
    {
        r.push((t.keys[g].clone(), t.counts[g]));
        g += 1;
    }
    proof {
        assert forall|a: int, b: int| 0 <= a < b < r.len() implies r@[a].0@ != r@[b].0@ by {
            assert(labels(t.keys@)[a] == r@[a].0@);
            assert(labels(t.keys@)[b] == r@[b].0@);
        }
        assert forall|x: Seq<char>| #[trigger] v.contains(x) implies exists|h: int|
            0 <= h < r.len() && #[trigger] r@[h].0@ == x by {
            let i = choose|i: int| 0 <= i < v.len() && v[i] == x;
            let h = t.group_of@[i] as int;
            assert(r@[h].0@ == v[i]);
        }
    }
    r
}

/// The panel dimensions and degrees of freedom of a fixed-effects fit.
#[derive(Debug, Clone, PartialEq, Eq)]
pub struct FeDegreesOfFreedom {
    /// Number of distinct entities.
    pub n_entities: usize,
    /// Number of distinct periods (two-way effects only).
    pub n_periods: Option<usize>,
    /// Parameters absorbed by the effects: `n_entities` one-way,
    /// `n_entities + n_periods - 1` two-way.
    pub neffects: usize,
    /// `k + neffects`.
    pub df_model: usize,
    /// `n - df_model`, always positive.
    pub df_resid: usize,
}

/// The number of parameters absorbed by the effects.
pub open spec fn neffects_of(ne: nat, np: Option<usize>) -> int {
    match np {
        None => ne as int,
        Some(p) => ne + p - 1,
    }
}

/// `r` is the degrees-of-freedom outcome for `n` observations, `ne` entities, the
/// period count `np` (two-way only) and `k` regressors.
pub open spec fn fe_df_outcome(
    r: Result<FeDegreesOfFreedom, PanelError>,
    n: nat,
    ne: nat,
    np: Option<usize>,
    k: nat,
) -> bool {
    let neffects = neffects_of(ne, np);
    let df_model = k + neffects;
    if n <= df_model {
        r == Err::<FeDegreesOfFreedom, PanelError>(
            PanelError::InsufficientDegreesOfFreedom {
                n_obs: n as usize,
                n_entities: ne as usize,
                n_periods: np,
                k: k as usize,
            },
        )
    } else {
        r == Ok::<FeDegreesOfFreedom, PanelError>(
            FeDegreesOfFreedom {
                n_entities: ne as usize,
                n_periods: np,
                neffects: neffects as usize,
                df_model: df_model as usize,
                df_resid: (n - df_model) as usize,
            },
        )
    }
}

/// Panel degrees of freedom: `df_model = k + neffects` and `df_resid = n - df_model`,
/// where the effects absorb `n_entities` parameters one-way and
/// `n_entities + n_periods - 1` two-way (the entity and time dummies share one
/// constant).
///
/// # Errors
/// `PanelError::InsufficientDegreesOfFreedom` when `n <= df_model`.
pub fn fe_degrees_of_freedom(n: usize, n_entities: usize, n_periods: Option<usize>, k: usize) -> (r:
    Result<FeDegreesOfFreedom, PanelError>)
    requires
        n_periods matches Some(p) ==> n_entities + p >= 1,
    ensures
        fe_df_outcome(r, n as nat, n_entities as nat, n_periods, k as nat),
        ({
            let absorbed = match n_periods {
                None => n_entities as int,
                Some(p) => n_entities + p - 1,
            };
            &&& r is Err <==> n <= k + absorbed
            &&& r matches Ok(d) ==> d.neffects == absorbed && d.df_model == k + absorbed
                && d.df_resid == n - k - absorbed && d.n_entities == n_entities && d.n_periods
                == n_periods
        }),
{
    proof {
        crate::panel::properties::law_absorbed_effects(n_entities as nat, n_periods);
    }
    let err = PanelError::InsufficientDegreesOfFreedom { n_obs: n, n_entities, n_periods, k };
    let neffects = match n_periods {
        None => n_entities,
        Some(p) => match n_entities.checked_add(p) {
            Some(total) => total - 1,
            None => {
                return Err(err);
            },
        },
    };
    let df_model = match k.checked_add(neffects) {
        Some(d) => d,
        None => {
            return Err(err);
        },
    };
    if n <= df_model {
        return Err(err);
    }
    Ok(FeDegreesOfFreedom { n_entities, n_periods, neffects, df_model, df_resid: n - df_model })
}

/// Some label occurs exactly once.
pub open spec fn has_singleton(v: Seq<Seq<char>>) -> bool {
    exists|i: int| 0 <= i < v.len() && occ(v, v[i]) == 1
}

/// The checks of a fixed-effects fit that precede the within transformation, in the
/// order the fit runs them, and the resulting degrees of freedom:
///
/// - one-way: singleton entities, then the degrees of freedom;
/// - two-way: a time column must be given; singleton entities, then singleton periods;
///   a balanced panel; then the degrees of freedom.
///
/// `k` is the number of regressors.
pub fn validate_fe_panel(
    entity: &[String],
    time: Option<&[String]>,
    k: usize,
    effects: FeEffects,
) -> (r: Result<FeDegreesOfFreedom, PanelError>)
    requires
        time matches Some(tm) ==> tm.len() == entity.len(),
        effects == FeEffects::TwoWay && time is Some ==> entity.len() > 0,
        effects == FeEffects::TwoWay && time is Some ==> distinct_count(labels(entity@))
            * distinct_count(labels(time.unwrap()@)) <= usize::MAX,
    ensures
        ({
            let ve = labels(entity@);
            let n = entity.len() as nat;
            let ne = distinct_count(ve);
            match effects {
                FeEffects::OneWay => if has_singleton(ve) {
                    r matches Err(e) && singleton_outcome(Err(e), PanelDimension::Entity, ve)
                } else {
                    fe_df_outcome(r, n, ne, None, k as nat)
                },
                FeEffects::TwoWay => match time {
                    None => r == Err::<FeDegreesOfFreedom, PanelError>(
                        PanelError::TwoWayRequiresTime,
                    ),
                    Some(tm) => {
                        let vt = labels(tm@);
                        let nt = distinct_count(vt);
                        if has_singleton(ve) {
                            r matches Err(e) && singleton_outcome(
                                Err(e),
                                PanelDimension::Entity,
                                ve,
                            )
                        } else if has_singleton(vt) {
                            r matches Err(e) && singleton_outcome(Err(e), PanelDimension::Time, vt)
                        } else if !(pairs_distinct(ve, vt) && covers_grid(ve, vt)) {
                            r == Err::<FeDegreesOfFreedom, PanelError>(
                                PanelError::UnbalancedPanelForTwoWay {
                                    n_obs: n as usize,
                                    n_entities: ne as usize,
                                    n_periods: nt as usize,
                                    expected: (ne * nt) as usize,
                                },
                            )
                        } else {
                            fe_df_outcome(r, n, ne, Some(nt as usize), k as nat)
                        }
                    },
                },
            }
        }),
{
    let n = entity.len();
    match effects {
        FeEffects::OneWay => {
            match validate_no_singleton_groups_one_way(entity) {
                Ok(()) => {},
                Err(e) => {
                    return Err(e);
                },
            }
            let n_entities = count_unique(entity);
            fe_degrees_of_freedom(n, n_entities, None, k)
        },
        FeEffects::TwoWay => {
            match validate_no_singleton_groups_two_way(entity, time) {
                Ok(()) => {},
                Err(e) => {
                    return Err(e);
                },
            }
            let tm = match time {
                Some(tm) => tm,
                None => {
                    return Err(PanelError::TwoWayRequiresTime);
                },
            };
            match validate_balanced_panel(entity, tm) {
                Ok(()) => {},
                Err(e) => {
                    return Err(e);
                },
            }
            let n_entities = count_unique(entity);
            let n_periods = count_unique(tm);
            proof {
                labels(tm@).lemma_cardinality_of_empty_set_is_0();
            }
            fe_degrees_of_freedom(n, n_entities, Some(n_periods), k)
        },
    }
}

/// The decisions a fixed-effects covariance type takes from the identifier columns,
/// after the within regression:
///
/// - cluster-robust (clusters default to the entities): at least two clusters and more
///   clusters than the `k` regressors; no extra degrees of freedom when the effects are
///   one-way and every entity lies in a single cluster, `neffects` otherwise;
/// - Driscoll-Kraay: a time column and a bandwidth resolved against its periods;
/// - the other types: nothing.
pub fn fe_cov_plan(
    cov_type: &FeCovType,
    entity: &[String],
    time: Option<&[String]>,
    k: usize,
    effects: FeEffects,
    neffects: usize,
) -> (r: Result<PanelCovPlan, PanelError>)
    ensures
        match cov_type {
            FeCovType::Cluster { groups } => {
                let vg = match groups {
                    Some(g) => labels(g@),
                    None => labels(entity@),
                };
                let m = if entity.len() < vg.len() {
                    entity.len() as int
                } else {
                    vg.len() as int
                };
                let extra = if effects == FeEffects::OneWay && entity_nested(
                    labels(entity@),
                    vg,
                    m,
                ) {
                    0nat
                } else {
                    neffects as nat
                };
                cluster_plan_outcome(r, vg, k as nat, extra)
            },
            FeCovType::Hac { bandwidth } => hac_plan_outcome(
                r,
                match time {
                    Some(tm) => Some(tm@),
                    None => None,
                },
                *bandwidth,
            ),
            _ => r == Ok::<PanelCovPlan, PanelError>(PanelCovPlan::Plain),
        },
{
    match cov_type {
        FeCovType::Cluster { groups } => {
            let resolved: &[String] = match groups {
                Some(g) => g.as_slice(),
                None => entity,
            };
            let extra_df = if effects == FeEffects::OneWay && entity_nested_within_cluster(
                entity,
                resolved,
            ) {
                0
            } else {
                neffects
            };
            cluster_plan(resolved, k, extra_df)
        },
        FeCovType::Hac { bandwidth } => hac_plan(time, *bandwidth),
        _ => Ok(PanelCovPlan::Plain),
    }
}

} // verus!
