//! Live server identities assembled from PKI material: PEM decoding, key and
//! chain resolution, policy validation, and the merge discipline that lets
//! several watched sources feed one shared store.

pub mod certificate;
pub mod coordinator;
pub mod identity;
pub mod pem;
pub mod pki_data;
pub mod private_key;
pub mod resolver;
pub mod sources;
pub mod validate;
