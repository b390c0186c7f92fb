//! Assignments of state to single-use seals in client-side validated
//! contracts, with their concealment and strict encoding.
pub mod encoding;
pub mod bytes32;
pub mod crypto;
pub mod seal;
pub mod data;
pub mod amount;
pub mod assignment;
pub mod assignments;
pub mod schema;
pub mod balancing;
pub mod laws;
pub mod order;
pub mod encoding_laws;
