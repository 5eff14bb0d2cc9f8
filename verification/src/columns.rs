//! Names of the regressor columns and of the estimated parameters.
use vstd::prelude::*;

use crate::panel::groups::labels;
use crate::text::same_text;

verus! {

/// The regressor names among the parameter names: without the leading `"const"` when
/// the model has an intercept, and without the last `exclude_trailing` names (such as
/// a trailing `"sigma"`).
pub fn x_column_names(param_names: &[String], has_intercept: bool, exclude_trailing: usize) -> (r:
    &[String])
    requires
        (if has_intercept {
            1int
        } else {
            0int
        }) + exclude_trailing <= param_names.len(),
    ensures
        r@ == param_names@.subrange(
            if has_intercept {
                1int
            } else {
                0int
            },
            param_names.len() - exclude_trailing,
        ),
{
    let start: usize = if has_intercept {
        1
    } else {
        0
    };
    let end: usize = param_names.len() - exclude_trailing;
    &param_names[start..end]
}

/// The message for a regressor named `"sigma"`.
pub open spec fn sigma_collision_message() -> Seq<char> {
    "x cannot contain a column named 'sigma' (it collides with the error term's standard deviation, which TobitResult appends to param_names/params)"@
}

/// Rejects a regressor named `"sigma"`: a censored-regression fit appends the
/// standard deviation of the error term to the parameters under that name.
///
/// # Errors
/// `sigma_collision_message()` when some name in `x` is `"sigma"`.
pub fn validate_no_sigma_collision(x: &[String]) -> (r: Result<(), String>)
    ensures
        r is Ok <==> !exists|i: int| 0 <= i < x.len() && #[trigger] x@[i]@ == "sigma"@,
        r matches Err(e) ==> e@ == sigma_collision_message(),
{
    proof {
        reveal_strlit("sigma");
    }
    let mut i: usize = 0;
    while i < x.len()
        invariant
            i <= x.len(),
            forall|j: int| 0 <= j < i ==> #[trigger] x@[j]@ != "sigma"@,
        decreases x.len() - i,
    {
        if same_text(x[i].as_str(), "sigma") {
            let msg = String::from_str(
                "x cannot contain a column named 'sigma' (it collides with the error term's standard deviation, which TobitResult appends to param_names/params)",
            );
            proof {
                reveal_strlit(
                    "x cannot contain a column named 'sigma' (it collides with the error term's standard deviation, which TobitResult appends to param_names/params)",
                );
            }
            return Err(msg);
        }
        i += 1;
    }
    Ok(())
}

/// Some position before `end` holds `x`.
pub open spec fn occurs_before(v: Seq<Seq<char>>, end: int, x: Seq<char>) -> bool {
    exists|j: int| 0 <= j < end && j < v.len() && v[j] == x
}

/// Position `p` holds the first name of `v` that also occurs in `w`.
pub open spec fn is_first_in(v: Seq<Seq<char>>, w: Seq<Seq<char>>, p: int) -> bool {
    &&& 0 <= p < v.len()
    &&& occurs_before(w, w.len() as int, v[p])
    &&& forall|q: int| 0 <= q < p ==> !#[trigger] occurs_before(w, w.len() as int, v[q])
}

/// Position `p` holds the first name of `v` that repeats an earlier one.
pub open spec fn is_first_repeat(v: Seq<Seq<char>>, p: int) -> bool {
    &&& 0 <= p < v.len()
    &&& occurs_before(v, p, v[p])
    &&& forall|q: int| 0 <= q < p ==> !#[trigger] occurs_before(v, q, v[q])
}

/// `None` for success, the message for a failure.
pub open spec fn failure(r: Result<(), String>) -> Option<Seq<char>> {
    match r {
        Ok(_) => None,
        Err(e) => Some(e@),
    }
}

/// The first of two checks that fails.
pub open spec fn either(a: Option<Seq<char>>, b: Option<Seq<char>>) -> Option<Seq<char>> {
    if a is Some {
        a
    } else {
        b
    }
}

/// The message for a name given in two roles.
pub open spec fn two_roles_message(name: Seq<char>, earlier: Seq<char>, later: Seq<char>) -> Seq<
    char,
> {
    "the column '"@ + name + "' specified as "@ + earlier + " is also included in "@ + later
}

/// The message for a name given twice in one role.
pub open spec fn repeated_message(name: Seq<char>, role: Seq<char>) -> Seq<char> {
    "column '"@ + name + "' is specified more than once in "@ + role
}

/// The message for a `"const"` regressor next to an intercept.
pub open spec fn const_collision_message(role: Seq<char>) -> Seq<char> {
    "when include_intercept=true, "@ + role
        + " cannot contain a column named 'const' (it collides with the automatically added intercept)"@
}

/// The message for an empty list of regressors.
pub open spec fn no_regressor_message() -> Seq<char> {
    "x must contain at least one column name"@
}

/// The failure, if any, of requiring that no name of the `later` role occurs in the
/// `earlier` role: the first such name of `later`.
pub open spec fn two_roles_failure(
    later: Seq<Seq<char>>,
    earlier: Seq<Seq<char>>,
    later_role: Seq<char>,
    earlier_role: Seq<char>,
) -> Option<Seq<char>> {
    if exists|p: int| is_first_in(later, earlier, p) {
        Some(
            two_roles_message(
                later[choose|p: int| is_first_in(later, earlier, p)],
                earlier_role,
                later_role,
            ),
        )
    } else {
        None
    }
}

/// The failure, if any, of requiring that no name repeats within a role: the first
/// name that repeats an earlier one.
pub open spec fn repeated_failure(v: Seq<Seq<char>>, role: Seq<char>) -> Option<Seq<char>> {
    if exists|p: int| is_first_repeat(v, p) {
        Some(repeated_message(v[choose|p: int| is_first_repeat(v, p)], role))
    } else {
        None
    }
}

/// The failure, if any, of requiring no `"const"` name next to an intercept.
pub open spec fn const_failure(v: Seq<Seq<char>>, role: Seq<char>, include_intercept: bool) -> Option<
    Seq<char>,
> {
    if include_intercept && occurs_before(v, v.len() as int, "const"@) {
        Some(const_collision_message(role))
    } else {
        None
    }
}

/// Whether some position before `end` of `ids` holds `id`.
fn occurs_in(ids: &[String], end: usize, id: &str) -> (r: bool)
    requires
        end <= ids.len(),
    ensures
        r == occurs_before(labels(ids@), end as int, id@),
{
    let ghost v = labels(ids@);
    let mut j: usize = 0;
    while j < end
        invariant
            end <= ids.len(),
            v == labels(ids@),
            j <= end,
            forall|q: int| 0 <= q < j ==> v[q] != id@,
        decreases end - j,
    {
        if same_text(ids[j].as_str(), id) {
            assert(v[j as int] == id@);
            return true;
        }
        j += 1;
    }
    false
}

proof fn lemma_first_in_unique(v: Seq<Seq<char>>, w: Seq<Seq<char>>, p: int, q: int)
    requires
        is_first_in(v, w, p),
        is_first_in(v, w, q),
    ensures
        p == q,
{
    if p < q {
        assert(!occurs_before(w, w.len() as int, v[p]));
    } else if q < p {
        assert(!occurs_before(w, w.len() as int, v[q]));
    }
}

proof fn lemma_first_repeat_unique(v: Seq<Seq<char>>, p: int, q: int)
    requires
        is_first_repeat(v, p),
        is_first_repeat(v, q),
    ensures
        p == q,
{
    if p < q {
        assert(!occurs_before(v, p, v[p]));
    } else if q < p {
        assert(!occurs_before(v, q, v[q]));
    }
}

/// A first repeated name exists as soon as some name repeats an earlier one.
proof fn lemma_first_repeat_exists(v: Seq<Seq<char>>, p: int)
    requires
        0 <= p < v.len(),
        occurs_before(v, p, v[p]),
    ensures
        exists|q: int| is_first_repeat(v, q),
    decreases p,
{
    if exists|q: int| 0 <= q < p && #[trigger] occurs_before(v, q, v[q]) {
        let q = choose|q: int| 0 <= q < p && #[trigger] occurs_before(v, q, v[q]);
        lemma_first_repeat_exists(v, q);
    } else {
        assert(is_first_repeat(v, p));
    }
}

/// A first name of `v` found in `w` exists as soon as some name of `v` is in `w`.
proof fn lemma_first_in_exists(v: Seq<Seq<char>>, w: Seq<Seq<char>>, p: int)
    requires
        0 <= p < v.len(),
        occurs_before(w, w.len() as int, v[p]),
    ensures
        exists|q: int| is_first_in(v, w, q),
    decreases p,
{
    if exists|q: int| 0 <= q < p && #[trigger] occurs_before(w, w.len() as int, v[q]) {
        let q = choose|q: int| 0 <= q < p && #[trigger] occurs_before(w, w.len() as int, v[q]);
        lemma_first_in_exists(v, w, q);
    } else {
        assert(is_first_in(v, w, p));
    }
}

/// The repeat check passes exactly when no two positions of the role hold the same
/// name, wherever they stand.
pub proof fn law_no_repeat_means_no_duplicates(v: Seq<Seq<char>>, role: Seq<char>)
    ensures
        repeated_failure(v, role) is None <==> v.no_duplicates(),
{
    if v.no_duplicates() {
        assert forall|q: int| !is_first_repeat(v, q) by {
            if 0 <= q < v.len() && occurs_before(v, q, v[q]) {
                let j = choose|j: int| 0 <= j < q && j < v.len() && v[j] == v[q];
                assert(v[j] == v[q]);
            }
        }
    } else {
        let (i, j) = choose|i: int, j: int|
            0 <= i < v.len() && 0 <= j < v.len() && i != j && v[i] == v[j];
        if i < j {
            assert(occurs_before(v, j, v[j]));
            lemma_first_repeat_exists(v, j);
        } else {
            assert(occurs_before(v, i, v[i]));
            lemma_first_repeat_exists(v, i);
        }
    }
}

/// The two-role check passes exactly when no name of the later role is a name of the
/// earlier role.
pub proof fn law_two_roles_means_disjoint(
    v: Seq<Seq<char>>,
    w: Seq<Seq<char>>,
    later_role: Seq<char>,
    earlier_role: Seq<char>,
)
    ensures
        two_roles_failure(v, w, later_role, earlier_role) is None <==> forall|p: int|
            0 <= p < v.len() ==> !w.contains(#[trigger] v[p]),
{
    if exists|p: int| 0 <= p < v.len() && w.contains(#[trigger] v[p]) {
        let p = choose|p: int| 0 <= p < v.len() && w.contains(#[trigger] v[p]);
        let j = choose|j: int| 0 <= j < w.len() && w[j] == v[p];
        assert(occurs_before(w, w.len() as int, v[p]));
        lemma_first_in_exists(v, w, p);
    } else {
        assert forall|q: int| !is_first_in(v, w, q) by {
            if 0 <= q < v.len() && occurs_before(w, w.len() as int, v[q]) {
                let j = choose|j: int| 0 <= j < w.len() as int && j < w.len() && w[j] == v[q];
                assert(w.contains(v[q]));
            }
        }
    }
}

/// The `"const"` check passes exactly when there is no intercept or no name `"const"`.
pub proof fn law_no_const_means_no_const_name(v: Seq<Seq<char>>, role: Seq<char>, include_intercept: bool)
    ensures
        const_failure(v, role, include_intercept) is None <==> !(include_intercept && v.contains(
            "const"@,
        )),
{
    if v.contains("const"@) {
        let j = choose|j: int| 0 <= j < v.len() && v[j] == "const"@;
        assert(occurs_before(v, v.len() as int, "const"@));
    }
}

/// No name of `v` equals `y` exactly when `y` is not among the names of `v`.
proof fn lemma_single_role(v: Seq<Seq<char>>, y: Seq<char>)
    ensures
        (forall|p: int| 0 <= p < v.len() ==> !seq![y].contains(#[trigger] v[p])) <==> !v.contains(y),
{
    if v.contains(y) {
        let p = choose|p: int| 0 <= p < v.len() && v[p] == y;
        assert(seq![y][0] == y);
        assert(seq![y].contains(v[p]));
    } else {
        assert forall|p: int| 0 <= p < v.len() implies !seq![y].contains(#[trigger] v[p]) by {
            if seq![y].contains(v[p]) {
                let j = choose|j: int| 0 <= j < 1 && seq![y][j] == v[p];
                assert(v[p] == y);
            }
        }
    }
}

/// Requires that no name of the `later` role occurs in the `earlier` role.
///
/// # Errors
/// `two_roles_message` for the first such name of `later`.
pub fn check_two_roles(later: &[String], earlier: &[String], later_role: &str, earlier_role: &str) -> (r:
    Result<(), String>)
    ensures
        failure(r) == two_roles_failure(labels(later@), labels(earlier@), later_role@, earlier_role@),
        r is Ok <==> forall|p: int|
            0 <= p < later.len() ==> !labels(earlier@).contains(#[trigger] later@[p]@),
{
    proof {
        law_two_roles_means_disjoint(labels(later@), labels(earlier@), later_role@, earlier_role@);
        assert forall|p: int| 0 <= p < later.len() implies labels(later@)[p] == #[trigger] later@[p]@ by {}
    }
    let ghost v = labels(later@);
    let ghost w = labels(earlier@);
    let mut p: usize = 0;
    while p < later.len()
        invariant
            v == labels(later@),
            w == labels(earlier@),
            p <= later.len(),
            forall|q: int| 0 <= q < p ==> !#[trigger] occurs_before(w, w.len() as int, v[q]),
        decreases later.len() - p,
    {
        if occurs_in(earlier, earlier.len(), later[p].as_str()) {
            proof {
                assert(is_first_in(v, w, p as int));
                let c = choose|c: int| is_first_in(v, w, c);
                lemma_first_in_unique(v, w, p as int, c);
            }
            let mut msg = String::from_str("the column '");
            msg.append(later[p].as_str());
            msg.append("' specified as ");
            msg.append(earlier_role);
            msg.append(" is also included in ");
            msg.append(later_role);
            proof {
                assert(msg@ =~= two_roles_message(v[p as int], earlier_role@, later_role@));
            }
            return Err(msg);
        }
        p += 1;
    }
    Ok(())
}

/// Requires that no name repeats within a role.
///
/// # Errors
/// `repeated_message` for the first name that repeats an earlier one.
pub fn check_no_repeat(names: &[String], role: &str) -> (r: Result<(), String>)
    ensures
        failure(r) == repeated_failure(labels(names@), role@),
        r is Ok <==> labels(names@).no_duplicates(),
{
    proof {
        law_no_repeat_means_no_duplicates(labels(names@), role@);
    }
    let ghost v = labels(names@);
    let mut p: usize = 0;
    while p < names.len()
        invariant
            v == labels(names@),
            p <= names.len(),
            forall|q: int| 0 <= q < p ==> !#[trigger] occurs_before(v, q, v[q]),
        decreases names.len() - p,
    {
        if occurs_in(names, p, names[p].as_str()) {
            proof {
                assert(is_first_repeat(v, p as int));
                let c = choose|c: int| is_first_repeat(v, c);
                lemma_first_repeat_unique(v, p as int, c);
            }
            let mut msg = String::from_str("column '");
            msg.append(names[p].as_str());
            msg.append("' is specified more than once in ");
            msg.append(role);
            proof {
                assert(msg@ =~= repeated_message(v[p as int], role@));
            }
            return Err(msg);
        }
        p += 1;
    }
    Ok(())
}

/// Requires no `"const"` name in the role when an intercept is added.
///
/// # Errors
/// `const_collision_message(role)`.
pub fn check_no_const(names: &[String], role: &str, include_intercept: bool) -> (r: Result<(), String>)
    ensures
        failure(r) == const_failure(labels(names@), role@, include_intercept),
        r is Ok <==> !(include_intercept && labels(names@).contains("const"@)),
{
    proof {
        law_no_const_means_no_const_name(labels(names@), role@, include_intercept);
    }
    if include_intercept && occurs_in(names, names.len(), "const") {
        let mut msg = String::from_str("when include_intercept=true, ");
        msg.append(role);
        msg.append(
            " cannot contain a column named 'const' (it collides with the automatically added intercept)",
        );
        proof {
            assert(msg@ =~= const_collision_message(role@));
        }
        return Err(msg);
    }
    Ok(())
}

/// The name checks of a least-squares fit, in this order: at least one regressor, `y`
/// not among the regressors, no regressor named twice (the first repeat is reported),
/// and no `"const"` regressor when an intercept is added.
pub fn validate_ols_names(y: &str, x: &[String], include_intercept: bool) -> (r: Result<(), String>)
    ensures
        failure(r) == (if x.len() == 0 {
            Some(no_regressor_message())
        } else {
            either(
                two_roles_failure(labels(x@), seq![y@], "x"@, "y"@),
                either(
                    repeated_failure(labels(x@), "x"@),
                    const_failure(labels(x@), "x"@, include_intercept),
                ),
            )
        }),
        r is Ok <==> (x.len() > 0 && !labels(x@).contains(y@) && labels(x@).no_duplicates() && !(
        include_intercept && labels(x@).contains("const"@))),
{
    if x.len() == 0 {
        return Err(String::from_str("x must contain at least one column name"));
    }
    let ys = vec![String::from_str(y)];
    assert(labels(ys@) =~= seq![y@]);
    proof {
        lemma_single_role(labels(x@), y@);
    }
    match check_two_roles(x, ys.as_slice(), "x", "y") {
        Ok(()) => {},
        Err(e) => {
            return Err(e);
        },
    }
    match check_no_repeat(x, "x") {
        Ok(()) => {},
        Err(e) => {
            return Err(e);
        },
    }
    check_no_const(x, "x", include_intercept)
}

/// The role checks of an instrumental-variables fit, in this order:
///
/// - no name in two roles, the roles taken in the order `y`, `x_exog`, `x_endog`,
///   `instruments`: for each later role, its names are checked against each earlier
///   role in that order, and the first name found is reported with both roles;
/// - no name repeated within `x_exog`, then `x_endog`, then `instruments`;
/// - no `"const"` in `x_exog` when an intercept is added.
///
/// Empty roles are accepted.
pub fn validate_iv_roles(
    y: &str,
    x_exog: &[String],
    x_endog: &[String],
    instruments: &[String],
    include_intercept: bool,
) -> (r: Result<(), String>)
    ensures
        ({
            let ve = labels(x_exog@);
            let vn = labels(x_endog@);
            let vi = labels(instruments@);
            let vy = seq![y@];
            failure(r) == either(
                two_roles_failure(ve, vy, "x_exog"@, "y"@),
                either(
                    two_roles_failure(vn, vy, "x_endog"@, "y"@),
                    either(
                        two_roles_failure(vn, ve, "x_endog"@, "x_exog"@),
                        either(
                            two_roles_failure(vi, vy, "instruments"@, "y"@),
                            either(
                                two_roles_failure(vi, ve, "instruments"@, "x_exog"@),
                                either(
                                    two_roles_failure(vi, vn, "instruments"@, "x_endog"@),
                                    either(
                                        repeated_failure(ve, "x_exog"@),
                                        either(
                                            repeated_failure(vn, "x_endog"@),
                                            either(
                                                repeated_failure(vi, "instruments"@),
                                                const_failure(ve, "x_exog"@, include_intercept),
                                            ),
                                        ),
                                    ),
                                ),
                            ),
                        ),
                    ),
                ),
            )
        }),
        ({
            let ve = labels(x_exog@);
            let vn = labels(x_endog@);
            let vi = labels(instruments@);
            r is Ok <==> {
                &&& !ve.contains(y@) && !vn.contains(y@) && !vi.contains(y@)
                &&& forall|p: int| 0 <= p < vn.len() ==> !ve.contains(#[trigger] vn[p])
                &&& forall|p: int|
                    0 <= p < vi.len() ==> !ve.contains(#[trigger] vi[p]) && !vn.contains(vi[p])
                &&& ve.no_duplicates() && vn.no_duplicates() && vi.no_duplicates()
                &&& !(include_intercept && ve.contains("const"@))
            }
        }),
{
    let ys = vec![String::from_str(y)];
    assert(labels(ys@) =~= seq![y@]);
    proof {
        lemma_single_role(labels(x_exog@), y@);
        lemma_single_role(labels(x_endog@), y@);
        lemma_single_role(labels(instruments@), y@);
        assert forall|p: int| 0 <= p < x_endog.len() implies labels(x_endog@)[p] == #[trigger] x_endog@[p]@ by {}
        assert forall|p: int| 0 <= p < instruments.len() implies labels(instruments@)[p] == #[trigger] instruments@[p]@ by {}
    }
    let y_role = ys.as_slice();
    match check_two_roles(x_exog, y_role, "x_exog", "y") {
        Ok(()) => {},
        Err(e) => {
            return Err(e);
        },
    }
    match check_two_roles(x_endog, y_role, "x_endog", "y") {
        Ok(()) => {},
        Err(e) => {
            return Err(e);
        },
    }
    match check_two_roles(x_endog, x_exog, "x_endog", "x_exog") {
        Ok(()) => {},
        Err(e) => {
            return Err(e);
        },
    }
    match check_two_roles(instruments, y_role, "instruments", "y") {
        Ok(()) => {},
        Err(e) => {
            return Err(e);
        },
    }
    match check_two_roles(instruments, x_exog, "instruments", "x_exog") {
        Ok(()) => {},
        Err(e) => {
            return Err(e);
        },
    }
    match check_two_roles(instruments, x_endog, "instruments", "x_endog") {
        Ok(()) => {},
        Err(e) => {
            return Err(e);
        },
    }
    match check_no_repeat(x_exog, "x_exog") {
        Ok(()) => {},
        Err(e) => {
            return Err(e);
        },
    }
    match check_no_repeat(x_endog, "x_endog") {
        Ok(()) => {},
        Err(e) => {
            return Err(e);
        },
    }
    match check_no_repeat(instruments, "instruments") {
        Ok(()) => {},
        Err(e) => {
            return Err(e);
        },
    }
    check_no_const(x_exog, "x_exog", include_intercept)
}

} // verus!
