//! The shapes in which the store answers listings, and their XML.

pub mod bucket;
pub mod object;
pub mod user;
