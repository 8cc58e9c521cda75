//! A sequential kriging engine for spatial estimation.
//!
//! Unknown spatial quantities are estimated at unsampled locations from
//! sparse samples, as a covariance-weighted linear combination of nearby
//! conditioning data.  The indicator extension runs one kriging pass per
//! probability threshold and assembles a corrected cumulative distribution
//! per target.
//!
//! All quantities (coordinates, sample values, covariances, probabilities)
//! are carried as fixed-point integers in millionths: the value `1.0` is
//! [`SCALE`].  This keeps every arithmetic step exact and checkable.

use vstd::prelude::*;

pub mod conditioning;
pub mod fixed;
pub mod geometry;
pub mod gsik;
pub mod ikcpdf;
pub mod kriging;
pub mod node_providers;
pub mod spatial_database;
pub mod variography;

verus! {

/// Fixed-point unit: all scalar quantities are integers in millionths.
pub const SCALE: i64 = 1_000_000;

/// Sentinel carried in a result slot whose target could not be estimated
/// (insufficient neighborhood coverage or a singular kriging system).
/// A failed target never vanishes from the output; its slot holds this
/// marker instead.
pub const MISSING: i64 = i64::MIN;

} // verus!
