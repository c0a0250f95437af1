//! Exact Lagrange polynomial interpolation.
//!
//! The library evaluates the unique polynomial through a table of sample
//! points at a query abscissa, using exact rational arithmetic so that the
//! result carries no rounding error.  Querying outside the sampled range is
//! an error, never an extrapolated guess.

pub mod interp;
pub mod rational;
