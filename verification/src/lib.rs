//! The verified logic of a secret-recovery service that proves email addresses with
//! DKIM-signed emails carrying one-time codes.

pub mod canister;
pub mod dns;
pub mod email;
pub mod laws;
pub mod otp;
pub mod registry;
pub mod resolver;
pub mod text;
pub mod verification;

pub use crate::verification::DkimStatus;
