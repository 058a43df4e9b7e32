//! Credential and token authority: password hashing policy, signed
//! bearer-token issuance and verification, configuration validation,
//! and the lease discipline for a bounded store-connection pool.

pub mod auth;
pub mod base64url;
pub mod claims;
pub mod config;
pub mod decimal;
pub mod errors;
pub mod password;
pub mod pool;
pub mod token;
