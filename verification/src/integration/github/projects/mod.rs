//! Statistics and recent activity of the repositories on the projects pages.

pub mod fetch;
pub mod model;
pub mod provider;
