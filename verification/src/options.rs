//! Options of a least-squares fit given by name.
use vstd::prelude::*;

use crate::text::{decimal, push_count, same_text};

verus! {

/// The kind of standard errors of a least-squares fit.
#[derive(Debug, Clone, Copy, PartialEq, Eq, Structural)]
pub enum CovType {
    Classical,
    Hc0,
    Hc1,
    Hc2,
    Hc3,
    Cluster,
}

/// What `str::to_lowercase` makes of a string: its Unicode lowercase mapping.
pub uninterp spec fn lowercase(s: Seq<char>) -> Seq<char>;

/// Calls `str::to_lowercase`. The contract claims only that the result is the
/// lowercase mapping of the argument, a function of its characters alone; what that
/// mapping is (Unicode case tables) is not stated.
#[verifier::external_body]
fn to_lowercase(s: &str) -> (r: String)
    ensures
        r@ == lowercase(s@),
{
    s.to_lowercase()
}

/// The standard error kind a lowercase name stands for; `"nonrobust"` is another name
/// of the classical kind.
pub open spec fn cov_type_named(name: Seq<char>) -> Option<CovType> {
    if name == "classical"@ || name == "nonrobust"@ {
        Some(CovType::Classical)
    } else if name == "hc0"@ {
        Some(CovType::Hc0)
    } else if name == "hc1"@ {
        Some(CovType::Hc1)
    } else if name == "hc2"@ {
        Some(CovType::Hc2)
    } else if name == "hc3"@ {
        Some(CovType::Hc3)
    } else if name == "cluster"@ {
        Some(CovType::Cluster)
    } else {
        None
    }
}

/// The message for a name that is no standard error kind.
pub open spec fn unknown_cov_type_message(name: Seq<char>) -> Seq<char> {
    "未知のcov_type: '"@ + name
        + "'。'classical', 'hc0'〜'hc3', 'cluster'のいずれかを指定してください"@
}

/// The standard error kind named by an already lowercased name.
///
/// # Errors
/// A message naming `lowered` when it names no kind.
pub fn cov_type_from_lowercase(lowered: &str) -> (r: Result<CovType, String>)
    ensures
        match cov_type_named(lowered@) {
            Some(c) => r == Ok::<CovType, String>(c),
            None => r matches Err(e) && e@ == unknown_cov_type_message(lowered@),
        },
{
    proof {
        reveal_strlit("classical");
        reveal_strlit("nonrobust");
        reveal_strlit("hc0");
        reveal_strlit("hc1");
        reveal_strlit("hc2");
        reveal_strlit("hc3");
        reveal_strlit("cluster");
    }
    if same_text(lowered, "classical") || same_text(lowered, "nonrobust") {
        Ok(CovType::Classical)
    } else if same_text(lowered, "hc0") {
        Ok(CovType::Hc0)
    } else if same_text(lowered, "hc1") {
        Ok(CovType::Hc1)
    } else if same_text(lowered, "hc2") {
        Ok(CovType::Hc2)
    } else if same_text(lowered, "hc3") {
        Ok(CovType::Hc3)
    } else if same_text(lowered, "cluster") {
        Ok(CovType::Cluster)
    } else {
        let mut msg = String::from_str("未知のcov_type: '");
        msg.append(lowered);
        msg.append("'。'classical', 'hc0'〜'hc3', 'cluster'のいずれかを指定してください");
        Err(msg)
    }
}

impl<'a> TryFrom<&'a str> for CovType {
    type Error = String;

    /// Parses a standard error kind by name, ignoring case.
    fn try_from(s: &'a str) -> (r: Result<CovType, String>)
        ensures
            match cov_type_named(lowercase(s@)) {
                Some(c) => r == Ok::<CovType, String>(c),
                None => r matches Err(e) && e@ == unknown_cov_type_message(lowercase(s@)),
            },
    {
        let lowered = to_lowercase(s);
        cov_type_from_lowercase(lowered.as_str())
    }
}

impl<'a> vstd::std_specs::convert::TryFromSpecImpl<&'a str> for CovType {
    /// `false`: an error message is pinned down by its characters only, so the result
    /// is stated by the contract of `try_from` itself, not as one value here.
    open spec fn obeys_try_from_spec() -> bool {
        false
    }

    open spec fn try_from_spec(s: &'a str) -> Result<CovType, String> {
        match cov_type_named(lowercase(s@)) {
            Some(c) => Ok(c),
            None => Err(choose|e: String| e@ == unknown_cov_type_message(lowercase(s@))),
        }
    }
}

/// The kind of standard errors of a linear (least-squares or instrumental-variables)
/// fit, including HAC.
#[derive(Debug, Clone, Copy, PartialEq, Eq, Structural)]
pub enum LinearCovKind {
    Classical,
    Hc0,
    Hc1,
    Hc2,
    Hc3,
    Hac,
    Cluster,
}

/// The linear standard error kind a lowercase name stands for; `"nonrobust"` is another
/// name of the classical kind.
pub open spec fn linear_cov_kind_named(name: Seq<char>) -> Option<LinearCovKind> {
    if name == "classical"@ || name == "nonrobust"@ {
        Some(LinearCovKind::Classical)
    } else if name == "hc0"@ {
        Some(LinearCovKind::Hc0)
    } else if name == "hc1"@ {
        Some(LinearCovKind::Hc1)
    } else if name == "hc2"@ {
        Some(LinearCovKind::Hc2)
    } else if name == "hc3"@ {
        Some(LinearCovKind::Hc3)
    } else if name == "hac"@ {
        Some(LinearCovKind::Hac)
    } else if name == "cluster"@ {
        Some(LinearCovKind::Cluster)
    } else {
        None
    }
}

/// The message for a name that is no linear standard error kind.
pub open spec fn unknown_linear_cov_message(name: Seq<char>) -> Seq<char> {
    "unknown cov_type: '"@ + name
        + "'. Expected one of 'classical', 'hc0' through 'hc3', 'hac', or 'cluster'"@
}

/// Parses the standard error kind of a linear fit by name, ignoring case, and returns
/// it with the lowercased name (the name a result reports). The caller reads the
/// cluster column only for `Cluster` and the time column only for `Hac`.
///
/// # Errors
/// A message naming the lowercased name when it names no kind.
pub fn parse_linear_cov_type(cov_type: &str) -> (r: Result<(LinearCovKind, String), String>)
    ensures
        match linear_cov_kind_named(lowercase(cov_type@)) {
            Some(k) => r matches Ok((k2, s)) && k2 == k && s@ == lowercase(cov_type@),
            None => r matches Err(e) && e@ == unknown_linear_cov_message(lowercase(cov_type@)),
        },
{
    proof {
        reveal_strlit("classical");
        reveal_strlit("nonrobust");
        reveal_strlit("hc0");
        reveal_strlit("hc1");
        reveal_strlit("hc2");
        reveal_strlit("hc3");
        reveal_strlit("hac");
        reveal_strlit("cluster");
    }
    let lowered = to_lowercase(cov_type);
    let name = lowered.as_str();
    let kind = if same_text(name, "classical") || same_text(name, "nonrobust") {
        LinearCovKind::Classical
    } else if same_text(name, "hc0") {
        LinearCovKind::Hc0
    } else if same_text(name, "hc1") {
        LinearCovKind::Hc1
    } else if same_text(name, "hc2") {
        LinearCovKind::Hc2
    } else if same_text(name, "hc3") {
        LinearCovKind::Hc3
    } else if same_text(name, "hac") {
        LinearCovKind::Hac
    } else if same_text(name, "cluster") {
        LinearCovKind::Cluster
    } else {
        let mut msg = String::from_str("unknown cov_type: '");
        msg.append(name);
        msg.append("'. Expected one of 'classical', 'hc0' through 'hc3', 'hac', or 'cluster'");
        return Err(msg);
    };
    Ok((kind, lowered))
}

/// The estimation method of an instrumental-variables fit.
#[derive(Debug, Clone, Copy, PartialEq, Eq, Structural)]
pub enum IvMethod {
    /// Two-stage least squares.
    TwoSls,
    /// Generalized method of moments.
    Gmm,
}

/// The message for an unknown method; it quotes the method as given.
pub open spec fn unknown_iv_method_message(method: Seq<char>) -> Seq<char> {
    "unknown method: '"@ + method + "'. Expected one of '2sls' or 'gmm'"@
}

/// Parses the method of an instrumental-variables fit, ignoring case, and returns it
/// with the lowercased name.
///
/// # Errors
/// A message quoting `method` as given when it is neither `"2sls"` nor `"gmm"`.
pub fn parse_iv_method(method: &str) -> (r: Result<(IvMethod, String), String>)
    ensures
        lowercase(method@) == "2sls"@ ==> (r matches Ok((m, s)) && m == IvMethod::TwoSls && s@
            == "2sls"@),
        lowercase(method@) == "gmm"@ ==> (r matches Ok((m, s)) && m == IvMethod::Gmm && s@
            == "gmm"@),
        lowercase(method@) != "2sls"@ && lowercase(method@) != "gmm"@ ==> (r matches Err(e)
            && e@ == unknown_iv_method_message(method@)),
{
    proof {
        reveal_strlit("2sls");
        reveal_strlit("gmm");
    }
    let lowered = to_lowercase(method);
    if same_text(lowered.as_str(), "2sls") {
        Ok((IvMethod::TwoSls, lowered))
    } else if same_text(lowered.as_str(), "gmm") {
        Ok((IvMethod::Gmm, lowered))
    } else {
        let mut msg = String::from_str("unknown method: '");
        msg.append(method);
        msg.append("'. Expected one of '2sls' or 'gmm'");
        Err(msg)
    }
}

/// The message for `cov_type='cluster'` without a cluster column.
pub open spec fn missing_cluster_col_message() -> Seq<char> {
    "cov_type='cluster'を指定する場合、options.cluster_colの指定が必要です"@
}

/// The message for an empty list of regressors.
pub open spec fn empty_x_message() -> Seq<char> {
    "xに最低1つは列名を指定してください"@
}

/// The checks of a least-squares request that precede reading the columns: a cluster
/// column is required for cluster-robust errors, then at least one regressor.
///
/// # Errors
/// `missing_cluster_col_message()`, then `empty_x_message()`.
pub fn validate_ols_request(cov_type: CovType, has_cluster_col: bool, n_x: usize) -> (r: Result<
    (),
    String,
>)
    ensures
        cov_type == CovType::Cluster && !has_cluster_col ==> (r matches Err(e) && e@
            == missing_cluster_col_message()),
        !(cov_type == CovType::Cluster && !has_cluster_col) && n_x == 0 ==> (r matches Err(e)
            && e@ == empty_x_message()),
        !(cov_type == CovType::Cluster && !has_cluster_col) && n_x != 0 ==> r is Ok,
{
    let is_cluster = match cov_type {
        CovType::Cluster => true,
        _ => false,
    };
    if is_cluster && !has_cluster_col {
        return Err(
            String::from_str("cov_type='cluster'を指定する場合、options.cluster_colの指定が必要です"),
        );
    }
    if n_x == 0 {
        return Err(String::from_str("xに最低1つは列名を指定してください"));
    }
    Ok(())
}

/// The message for too few observations.
pub open spec fn too_few_observations_message(n: nat, k: nat) -> Seq<char> {
    "観測数不足: n="@ + decimal(n) + " は k="@ + decimal(k)
        + "（説明変数の数、定数項含む）より大きい必要があります"@
}

/// The number of columns of the design matrix, `n_x` plus one for an intercept, which
/// the `n` observations must exceed.
///
/// # Errors
/// `too_few_observations_message(n, k)` when `n <= k`.
pub fn validate_ols_size(n: usize, n_x: usize, include_intercept: bool) -> (r: Result<usize, String>)
    requires
        n_x < usize::MAX,
    ensures
        ({
            let k = if include_intercept {
                n_x + 1
            } else {
                n_x as int
            };
            &&& n > k ==> r == Ok::<usize, String>(k as usize)
            &&& n <= k ==> (r matches Err(e) && e@ == too_few_observations_message(
                n as nat,
                k as nat,
            ))
        }),
{
    let k = if include_intercept {
        n_x + 1
    } else {
        n_x
    };
    if n <= k {
        let mut msg = String::from_str("観測数不足: n=");
        push_count(&mut msg, n);
        msg.append(" は k=");
        push_count(&mut msg, k);
        msg.append("（説明変数の数、定数項含む）より大きい必要があります");
        proof {
            assert(msg@ =~= too_few_observations_message(n as nat, k as nat));
        }
        return Err(msg);
    }
    Ok(k)
}

/// The names of the linear standard error kinds, in lowercase: `"classical"` and
/// `"nonrobust"` name the classical kind, and each other name its own kind; no other
/// name is known, and distinct kinds have distinct names.
pub proof fn law_linear_cov_names(name: Seq<char>)
    ensures
        linear_cov_kind_named("classical"@) == Some(LinearCovKind::Classical),
        linear_cov_kind_named("nonrobust"@) == Some(LinearCovKind::Classical),
        linear_cov_kind_named("hc0"@) == Some(LinearCovKind::Hc0),
        linear_cov_kind_named("hc1"@) == Some(LinearCovKind::Hc1),
        linear_cov_kind_named("hc2"@) == Some(LinearCovKind::Hc2),
        linear_cov_kind_named("hc3"@) == Some(LinearCovKind::Hc3),
        linear_cov_kind_named("hac"@) == Some(LinearCovKind::Hac),
        linear_cov_kind_named("cluster"@) == Some(LinearCovKind::Cluster),
        linear_cov_kind_named(name) is Some ==> name == "classical"@ || name == "nonrobust"@
            || name == "hc0"@ || name == "hc1"@ || name == "hc2"@ || name == "hc3"@ || name
            == "hac"@ || name == "cluster"@,
{
    reveal_strlit("classical");
    reveal_strlit("nonrobust");
    reveal_strlit("hc0");
    reveal_strlit("hc1");
    reveal_strlit("hc2");
    reveal_strlit("hc3");
    reveal_strlit("hac");
    reveal_strlit("cluster");
    assert("classical"@.len() == 9 && "nonrobust"@.len() == 9 && "cluster"@.len() == 7);
    assert("hac"@.len() == 3 && "hac"@[1] == 'a');
    assert("hc0"@.len() == 3 && "hc0"@[1] == 'c' && "hc0"@[2] == '0');
    assert("hc1"@.len() == 3 && "hc1"@[1] == 'c' && "hc1"@[2] == '1');
    assert("hc2"@.len() == 3 && "hc2"@[1] == 'c' && "hc2"@[2] == '2');
    assert("hc3"@.len() == 3 && "hc3"@[1] == 'c' && "hc3"@[2] == '3');
    assert("classical"@[0] == 'c' && "nonrobust"@[0] == 'n');
}

/// The names of the least-squares standard error kinds, in lowercase: `"classical"`
/// and `"nonrobust"` name the classical kind, and each other name its own kind; no
/// other name is known.
pub proof fn law_cov_type_names(name: Seq<char>)
    ensures
        cov_type_named("classical"@) == Some(CovType::Classical),
        cov_type_named("nonrobust"@) == Some(CovType::Classical),
        cov_type_named("hc0"@) == Some(CovType::Hc0),
        cov_type_named("hc1"@) == Some(CovType::Hc1),
        cov_type_named("hc2"@) == Some(CovType::Hc2),
        cov_type_named("hc3"@) == Some(CovType::Hc3),
        cov_type_named("cluster"@) == Some(CovType::Cluster),
        cov_type_named(name) is Some ==> name == "classical"@ || name == "nonrobust"@ || name
            == "hc0"@ || name == "hc1"@ || name == "hc2"@ || name == "hc3"@ || name == "cluster"@,
{
    reveal_strlit("classical");
    reveal_strlit("nonrobust");
    reveal_strlit("hc0");
    reveal_strlit("hc1");
    reveal_strlit("hc2");
    reveal_strlit("hc3");
    reveal_strlit("cluster");
    assert("classical"@.len() == 9 && "nonrobust"@.len() == 9 && "cluster"@.len() == 7);
    assert("hc0"@.len() == 3 && "hc0"@[1] == 'c' && "hc0"@[2] == '0');
    assert("hc1"@.len() == 3 && "hc1"@[1] == 'c' && "hc1"@[2] == '1');
    assert("hc2"@.len() == 3 && "hc2"@[1] == 'c' && "hc2"@[2] == '2');
    assert("hc3"@.len() == 3 && "hc3"@[1] == 'c' && "hc3"@[2] == '3');
    assert("classical"@[0] == 'c' && "nonrobust"@[0] == 'n');
}

} // verus!
