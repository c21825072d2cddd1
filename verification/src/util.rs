//! Identifiers and the helpers they are built on.

pub mod domain;
pub mod mxid;
pub mod password;
pub mod random;
pub mod storage;
pub mod table;
pub mod text;
pub mod token;
