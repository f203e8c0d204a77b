//! The logic of the site's pages: filters, links, lookups and the way dates
//! and counts are written.



pub mod projects;

pub mod contact;
pub mod work;
pub mod blog;
pub mod resume;
