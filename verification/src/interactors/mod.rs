//! The operations of the store.

pub mod storage;
