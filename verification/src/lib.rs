//! Verified core of a small web console: a request router, the
//! domain operations on form records, credentials and documents, the
//! key and range encodings used against a transactional key-value
//! store, and the record serialization contract.

pub mod clock;
pub mod common;
pub mod config;
pub mod formdata;
pub mod json;
pub mod login;
pub mod render;
pub mod router;
pub mod store;
pub mod text;
pub mod view;
