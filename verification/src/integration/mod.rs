//! External service integrations: the GitHub statistics shown on the site.

pub mod github;
