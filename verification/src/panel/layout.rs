//! The identifier side of a panel data set: regressor and dependent-variable names,
//! the entity column and the optional time column, and the number of observations.
//! The numeric columns themselves (`y` and `x`) stay with the caller; only their
//! lengths are checked here.
use vstd::prelude::*;

use crate::panel::common::{check_column_lengths, column_lengths_outcome, PanelError};

verus! {

/// An owned copy of a label column.
fn copy_labels(ids: &[String]) -> (r: Vec<String>)
    ensures
        r@ == ids@,
{
    let mut r: Vec<String> = Vec::with_capacity(ids.len());
    let mut i: usize = 0;
    while i < ids.len()
        invariant
            i <= ids.len(),
            r@ == ids@.take(i as int),
        decreases ids.len() - i,
    {
        r.push(ids[i].clone());
        assert(r@ =~= ids@.take(i + 1));
        i += 1;
    }
    assert(ids@.take(ids.len() as int) =~= ids@);
    r
}

/// Names and identifier columns of a panel whose columns all have `nobs` rows.
#[derive(Debug)]
pub struct PanelLayout {
    x_names: Vec<String>,
    entity: Vec<String>,
    time: Option<Vec<String>>,
    dep_var_name: String,
    nobs: usize,
}

impl PanelLayout {
    /// Every identifier column has one label per observation.
    #[verifier::type_invariant]
    spec fn rows_agree(self) -> bool {
        &&& self.entity.len() == self.nobs
        &&& self.time matches Some(t) ==> t.len() == self.nobs
    }

    /// The regressor names.
    pub closed spec fn spec_x_names(self) -> Seq<String> {
        self.x_names@
    }

    /// The entity label of each observation.
    pub closed spec fn spec_entity(self) -> Seq<String> {
        self.entity@
    }

    /// The time label of each observation, for panels that have one.
    pub closed spec fn spec_time(self) -> Option<Seq<String>> {
        match self.time {
            Some(t) => Some(t@),
            None => None,
        }
    }

    /// The dependent variable's name.
    pub closed spec fn spec_dep_var_name(self) -> Seq<char> {
        self.dep_var_name@
    }

    /// The number of observations.
    pub closed spec fn spec_nobs(self) -> nat {
        self.nobs as nat
    }

    /// Builds the layout of a panel with `y_rows` observations and regressor columns of
    /// `x_rows` rows, keeping the names and identifier columns. The names are meant to
    /// name the regressor columns one for one; their number is not checked here.
    ///
    /// # Errors
    /// As `check_column_lengths`: the first regressor column whose length differs from
    /// `y` (`PanelError::Common(DimensionMismatch)`), then the entity column, then the
    /// time column (`PanelError::IdentifierDimensionMismatch`).
    pub fn from_columns(
        y_rows: usize,
        x_rows: &[usize],
        x_names: Vec<String>,
        entity: &[String],
        time: Option<&[String]>,
        dep_var_name: String,
    ) -> (r: Result<PanelLayout, PanelError>)
        ensures
            column_lengths_outcome(
                match r {
                    Ok(_) => Ok(()),
                    Err(e) => Err(e),
                },
                y_rows,
                x_rows@,
                entity.len(),
                match time {
                    Some(t) => Some(t.len()),
                    None => None,
                },
            ),
            r is Ok <==> ((forall|j: int| 0 <= j < x_rows.len() ==> #[trigger] x_rows@[j] == y_rows)
                && entity.len() == y_rows && (time matches Some(t) ==> t.len() == y_rows)),
            r matches Ok(l) ==> {
                &&& l.spec_x_names() == x_names@
                &&& l.spec_entity() == entity@
                &&& l.spec_time() == match time {
                    Some(t) => Some(t@),
                    None => None::<Seq<String>>,
                }
                &&& l.spec_dep_var_name() == dep_var_name@
                &&& l.spec_nobs() == y_rows
            },
    {
        let time_rows = match time {
            Some(t) => Some(t.len()),
            None => None,
        };
        match check_column_lengths(y_rows, x_rows, entity.len(), time_rows) {
            Ok(()) => {},
            Err(e) => {
                return Err(e);
            },
        }
        let time_owned = match time {
            Some(t) => Some(copy_labels(t)),
            None => None,
        };
        Ok(PanelLayout { x_names, entity: copy_labels(entity), time: time_owned, dep_var_name, nobs: y_rows })
    }

    /// The regressor names.
    pub fn x_names(&self) -> (r: &[String])
        ensures
            r@ == self.spec_x_names(),
    {
        self.x_names.as_slice()
    }

    /// The entity label of each observation.
    pub fn entity(&self) -> (r: &[String])
        ensures
            r@ == self.spec_entity(),
            r.len() == self.spec_nobs(),
    {
        proof {
            use_type_invariant(self);
        }
        self.entity.as_slice()
    }

    /// The time label of each observation; `None` for a panel without a time column.
    pub fn time(&self) -> (r: Option<&[String]>)
        ensures
            match r {
                Some(t) => self.spec_time() == Some(t@) && t.len() == self.spec_nobs(),
                None => self.spec_time() is None,
            },
    {
        proof {
            use_type_invariant(self);
        }
        match &self.time {
            Some(t) => Some(t.as_slice()),
            None => None,
        }
    }

    /// The dependent variable's name.
    pub fn dep_var_name(&self) -> (r: &str)
        ensures
            r@ == self.spec_dep_var_name(),
    {
        self.dep_var_name.as_str()
    }

    /// The number of observations.
    pub fn nobs(&self) -> (r: usize)
        ensures
            r == self.spec_nobs(),
    {
        self.nobs
    }
}

} // verus!
