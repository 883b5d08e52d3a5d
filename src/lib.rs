//! Authorization decisions for forward-auth requests: header mapping, key-set
//! freshness, a compile-once policy cache and the per-request decision steps.
pub mod decision;
pub mod headers;
pub mod keys;
pub mod policy;
