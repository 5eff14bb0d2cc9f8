//! Properties that tie the panel functions together.
use vstd::prelude::*;

use crate::error::CommonError;
use crate::panel::common::{
    bandwidth_fits, column_lengths_outcome, hac_plan_outcome, is_default_dk_bandwidth, ninth_power, square,
    PanelCovPlan, PanelError,
};
use crate::panel::fe::{entity_nested, fe_df_outcome, neffects_of, FeDegreesOfFreedom};
use crate::panel::groups::{
    distinct_count, labels, lemma_lex_irreflexive, lemma_occ_absent, lemma_occ_one_unique, lex_lt,
    occ, KeyGroups,
};

verus! {

/// A bandwidth that fits `t >= 0` periods is at most `t`, and below `t` once there are
/// at least two periods.
proof fn lemma_fitting_bandwidth_bound(b: int, t: int)
    requires
        0 <= b,
        0 <= t,
        bandwidth_fits(b, t),
    ensures
        b <= t,
        t >= 2 ==> b < t,
{
    if b >= 2 {
        assert(ninth_power(b) >= 128 * (b * b)) by (nonlinear_arith)
            requires
                b >= 2,
                ninth_power(b) == square(square(square(b))) * b,
                square(b) == b * b,
                square(square(b)) == square(b) * square(b),
                square(square(square(b))) == square(square(b)) * square(square(b)),
        ;
        assert(b <= t) by (nonlinear_arith)
            requires
                b >= 2,
                0 <= t,
                625 * ninth_power(b) <= 16384 * (t * t),
                ninth_power(b) >= 128 * (b * b),
        ;
        if t >= 2 && b == t {
            assert(ninth_power(b) >= 128 * (b * b));
            assert(false) by (nonlinear_arith)
                requires
                    b >= 2,
                    b == t,
                    625 * ninth_power(b) <= 16384 * (t * t),
                    ninth_power(b) >= 128 * (b * b),
            ;
        }
    } else if b == 1 {
        assert(square(1) == 1 * 1);
        assert(1 * 1 == 1);
        assert(ninth_power(1) == 1);
        assert(t >= 1) by (nonlinear_arith)
            requires
                0 <= t,
                625 <= 16384 * (t * t),
        ;
    }
}

/// The default Driscoll-Kraay bandwidth never exceeds the number of periods, and is
/// below it from two periods on (with one period it is one).
pub proof fn lemma_default_bandwidth_within_periods(b: int, t: int)
    requires
        0 <= t,
        is_default_dk_bandwidth(b, t),
    ensures
        b <= t,
        t >= 2 ==> b < t,
{
    lemma_fitting_bandwidth_bound(b, t);
}

/// A Driscoll-Kraay plan uses a bandwidth of at most the number of distinct periods,
/// whether the bandwidth was given or derived by the default rule, so every lag it
/// sums over exists.
pub proof fn lemma_hac_plan_bandwidth_within_periods(
    r: Result<PanelCovPlan, PanelError>,
    time: Option<Seq<String>>,
    bandwidth: Option<i64>,
)
    requires
        hac_plan_outcome(r, time, bandwidth),
        time matches Some(tm) ==> tm.len() <= usize::MAX,
    ensures
        r matches Ok(PanelCovPlan::Hac { bandwidth: b, t_periods }) ==> b <= t_periods,
{
    if let Ok(PanelCovPlan::Hac { bandwidth: b, t_periods }) = r {
        let tm = time.unwrap();
        lemma_distinct_count_bounds(labels(tm));
        if bandwidth is None {
            lemma_default_bandwidth_within_periods(b as int, t_periods as int);
        }
    }
}

/// Every position of a grouped label column is listed by exactly one group: the
/// groups partition the positions.
pub proof fn lemma_groups_partition(r: KeyGroups, v: Seq<Seq<char>>, i: int, g: int, h: int)
    requires
        r.groups(v),
        0 <= i < v.len(),
        r.holds_at(v, g, i),
        r.holds_at(v, h, i),
    ensures
        g == h,
{
    if g < h {
        assert(lex_lt(r.keys@[g]@, r.keys@[h]@));
        lemma_lex_irreflexive(v[i]);
    } else if h < g {
        assert(lex_lt(r.keys@[h]@, r.keys@[g]@));
        lemma_lex_irreflexive(v[i]);
    }
}

/// The grouping of a label column has one group per distinct label, as many as
/// `count_unique` reports for the same column.
pub proof fn lemma_group_count_is_distinct_count(r: KeyGroups, v: Seq<Seq<char>>)
    requires
        r.groups(v),
    ensures
        r.keys.len() == distinct_count(v),
        labels(r.keys@).to_set() == v.to_set(),
{
    let lk = labels(r.keys@);
    assert forall|a: int, b: int| 0 <= a < lk.len() && 0 <= b < lk.len() && a != b implies lk[a]
        != lk[b] by {
        if a < b {
            assert(lex_lt(r.keys@[a]@, r.keys@[b]@));
            lemma_lex_irreflexive(lk[a]);
        } else {
            assert(lex_lt(r.keys@[b]@, r.keys@[a]@));
            lemma_lex_irreflexive(lk[b]);
        }
    }
    assert forall|x: Seq<char>| lk.to_set().contains(x) <==> v.to_set().contains(x) by {
        if lk.contains(x) {
            let g = choose|g: int| 0 <= g < lk.len() && lk[g] == x;
            assert(r.group_ok(v, g, v.len() as int));
            let p = r.indices@[g]@[0];
            assert(v[p as int] == x);
        }
        if v.contains(x) {
            let i = choose|i: int| 0 <= i < v.len() && v[i] == x;
            assert(r.covers(v, i));
            let g = choose|g: int| #[trigger] r.holds_at(v, g, i);
            assert(lk[g] == x);
        }
    }
    assert(lk.to_set() =~= v.to_set());
    lk.unique_seq_to_set();
}

/// A column has at most as many distinct labels as positions, and at least one when it
/// is not empty.
pub proof fn lemma_distinct_count_bounds(v: Seq<Seq<char>>)
    ensures
        distinct_count(v) <= v.len(),
        v.len() > 0 ==> distinct_count(v) >= 1,
{
    v.lemma_cardinality_of_set();
    if v.len() > 0 {
        assert(v.to_set().contains(v[0]));
        if v.to_set().len() == 0 {
            v.to_set().lemma_len0_is_empty();
        }
    }
}

/// Clustering by the entities themselves (the default clustering) always nests the
/// entities, so one-way fixed effects then remove no extra degrees of freedom.
pub proof fn lemma_entity_nested_in_itself(ve: Seq<Seq<char>>, m: int)
    ensures
        entity_nested(ve, ve, m),
{
}

/// The panel degrees of freedom add up to the number of observations, leave a positive
/// residual part, and the model part counts the regressors and the absorbed effects.
pub proof fn lemma_fe_degrees_of_freedom_add_up(
    r: Result<FeDegreesOfFreedom, PanelError>,
    n: nat,
    ne: nat,
    np: Option<usize>,
    k: nat,
)
    requires
        fe_df_outcome(r, n, ne, np, k),
        n <= usize::MAX,
        np matches Some(p) ==> ne + p >= 1,
    ensures
        r matches Ok(d) ==> {
            &&& d.df_model + d.df_resid == n
            &&& d.df_resid >= 1
            &&& d.df_model == k + neffects_of(ne, np)
        },
        r is Err <==> n <= k + neffects_of(ne, np),
{
}

/// A common error wrapped in a panel error keeps its message.
pub proof fn lemma_common_message_transparent(c: CommonError)
    ensures
        PanelError::Common(c).message() == c.message(),
{
}

/// The length check accepts exactly the inputs whose every regressor column, the entity
/// column and the time column (when given) have as many rows as `y`; a column longer
/// than `y` is rejected like a shorter one.
pub proof fn law_column_lengths_accept_equal_rows(
    r: Result<(), PanelError>,
    y_rows: usize,
    x_rows: Seq<usize>,
    entity_rows: usize,
    time_rows: Option<usize>,
)
    requires
        column_lengths_outcome(r, y_rows, x_rows, entity_rows, time_rows),
    ensures
        r is Ok <==> ((forall|j: int| 0 <= j < x_rows.len() ==> #[trigger] x_rows[j] == y_rows)
            && entity_rows == y_rows && (time_rows matches Some(t) ==> t == y_rows)),
{
    if exists|j: int| 0 <= j < x_rows.len() && x_rows[j] != y_rows {
        let j = choose|j: int| 0 <= j < x_rows.len() && x_rows[j] != y_rows;
        assert(!(forall|l: int| 0 <= l < x_rows.len() ==> #[trigger] x_rows[l] == y_rows)) by {
            assert(x_rows[j] != y_rows);
        }
    }
}

/// Fixed effects absorb one parameter per entity one-way, and one per entity plus one
/// per period less the shared constant two-way.
pub proof fn law_absorbed_effects(ne: nat, np: Option<usize>)
    ensures
        np is None ==> neffects_of(ne, np) == ne,
        np matches Some(p) ==> neffects_of(ne, np) == ne + p - 1,
{
}

/// An entity is nested in the clustering exactly when any two positions (up to the
/// shorter column) with the same entity label have the same cluster label, however
/// the rows are ordered.
pub proof fn law_entity_nesting_is_pairwise(entity: Seq<String>, cluster: Seq<String>)
    ensures
        entity_nested(
            labels(entity),
            labels(cluster),
            if entity.len() < cluster.len() {
                entity.len() as int
            } else {
                cluster.len() as int
            },
        ) <==> forall|i: int, j: int|
            0 <= i < entity.len() && i < cluster.len() && 0 <= j < entity.len() && j
                < cluster.len() && #[trigger] entity[i]@ == #[trigger] entity[j]@ ==> cluster[i]@
                == cluster[j]@,
{
    let ve = labels(entity);
    let vc = labels(cluster);
    let m = if entity.len() < cluster.len() {
        entity.len() as int
    } else {
        cluster.len() as int
    };
    if entity_nested(ve, vc, m) {
        assert forall|i: int, j: int|
            0 <= i < entity.len() && i < cluster.len() && 0 <= j < entity.len() && j
                < cluster.len() && #[trigger] entity[i]@ == #[trigger] entity[j]@ implies cluster[i]@
            == cluster[j]@ by {
            assert(ve[i] == entity[i]@ && ve[j] == entity[j]@);
            assert(vc[i] == cluster[i]@ && vc[j] == cluster[j]@);
        }
    }
    if forall|i: int, j: int|
        0 <= i < entity.len() && i < cluster.len() && 0 <= j < entity.len() && j < cluster.len()
            && #[trigger] entity[i]@ == #[trigger] entity[j]@ ==> cluster[i]@ == cluster[j]@ {
        assert forall|i: int, j: int|
            0 <= i < m && 0 <= j < m && #[trigger] ve[i] == #[trigger] ve[j] implies vc[i]
            == vc[j] by {
            assert(ve[i] == entity[i]@ && ve[j] == entity[j]@);
            assert(vc[i] == cluster[i]@ && vc[j] == cluster[j]@);
        }
    }
}

/// A value held at one position only is counted once.
proof fn lemma_occ_only(v: Seq<Seq<char>>, i: int)
    requires
        0 <= i < v.len(),
        forall|j: int| 0 <= j < v.len() && j != i ==> v[j] != v[i],
    ensures
        occ(v, v[i]) == 1,
    decreases v.len(),
{
    let last = v.len() - 1;
    let w = v.drop_last();
    if i == last {
        assert forall|j: int| 0 <= j < w.len() implies w[j] != v[i] by {
            assert(w[j] == v[j]);
        }
        lemma_occ_absent(w, v[i]);
    } else {
        assert forall|j: int| 0 <= j < w.len() && j != i implies w[j] != w[i] by {
            assert(w[j] == v[j]);
        }
        lemma_occ_only(w, i);
        assert(w[i] == v[i]);
    }
}

/// A label occurs at least twice exactly when another position holds it too, so the
/// singleton check rejects precisely the labels held by a single position.
pub proof fn law_singleton_is_label_at_one_position(v: Seq<Seq<char>>, i: int)
    requires
        0 <= i < v.len(),
    ensures
        occ(v, v[i]) >= 2 <==> exists|j: int| 0 <= j < v.len() && j != i && #[trigger] v[j] == v[i],
        occ(v, v[i]) == 1 <==> !exists|j: int| 0 <= j < v.len() && j != i && #[trigger] v[j] == v[i],
{
    if exists|j: int| 0 <= j < v.len() && j != i && #[trigger] v[j] == v[i] {
        let j = choose|j: int| 0 <= j < v.len() && j != i && #[trigger] v[j] == v[i];
        lemma_occ_one_unique(v, i, j);
    } else {
        lemma_occ_only(v, i);
    }
}

} // verus!
