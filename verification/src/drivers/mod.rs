//! Protocol-facing parts: the header grammar, the request signer, the
//! catalog and the dispatcher.

pub mod db;
pub mod digest;
pub mod grammar;
pub mod request;
pub mod s3;
pub mod table;
pub mod web_server;
