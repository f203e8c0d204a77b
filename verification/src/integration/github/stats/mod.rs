//! Contribution statistics and recent activity of the site owner's GitHub
//! account.

pub mod defaults;
pub mod fetch;
pub mod model;
pub mod provider;
