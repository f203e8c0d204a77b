//! The logic of the site's shared components: the masthead clock and the
//! year-in-code band.

pub mod clock;

pub mod year_in_code;
