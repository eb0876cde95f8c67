//! Token signing, verification and resource-ownership decisions for a
//! content-management backend.
pub mod base64url;
pub mod claims;
pub mod codec;
pub mod error;
pub mod issuer;
pub mod guard;
pub mod ownership;
pub mod laws;
pub mod login;
pub mod text;
pub mod models;
