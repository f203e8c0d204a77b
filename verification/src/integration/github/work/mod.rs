//! Statistics of the repositories on the work page.

pub mod model;
pub mod provider;
