//! Verified identifier logic of a panel-data econometrics engine: grouping of
//! entity/time labels, singleton and balance validation, degrees of freedom,
//! cluster and Driscoll-Kraay bandwidth decisions, and the error types with their
//! user-facing messages.
pub mod columns;
pub mod error;
pub mod options;
pub mod panel;
pub mod text;
pub mod validation;
