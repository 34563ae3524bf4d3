//! The things the store keeps: users, buckets, objects, and the instants
//! at which they were made.

pub mod bucket;
pub mod object;
pub mod timestamp;
pub mod user;
