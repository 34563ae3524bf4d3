//! A single-node object store core in the S3 style: SigV4 request
//! authentication, request classification, a catalog of users, buckets and
//! objects, and the storage engine that orders blob and catalog steps.

pub mod error;
pub mod text;
pub mod adapters;
pub mod drivers;
pub mod entities;
pub mod interactors;
pub mod laws;
