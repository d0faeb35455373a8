//! Derives the per-request transaction token that X's web API expects,
//! by replaying the client-side obfuscation scheme embedded in the
//! platform's HTML and JavaScript: marker scanning over the raw markup,
//! selection of key bytes, and a hash + mask + base64 step.
//!
//! The caller fetches the two documents (the entry page and the script
//! bundle whose URL [`ClientTransaction::extract_ondemand_url`] computes)
//! and hands their text to the library as plain strings.

pub mod encoding;
pub mod error;
pub mod extract;
pub mod frames;
pub mod material;
pub mod scan;
pub mod strutil;
pub mod transaction;

pub use error::Error;
pub use frames::AnimationInputs;
pub use material::DerivedMaterial;
pub use transaction::ClientTransaction;

