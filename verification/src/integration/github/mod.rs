//! GitHub statistics: the JSON the APIs answer with, the parsers that read
//! it, and the cache policies that decide when to fetch.

pub mod cache;
pub mod json;
pub mod projects;
pub mod stats;

pub mod time;
pub mod work;
