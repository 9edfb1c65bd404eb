//! Certificate material for Apache NiFi nodes: a CA, per-node PKCS12
//! keystores, JKS truststores and the security section of `nifi.properties`.

pub mod text;
pub mod bytes;
pub mod ca;
pub mod cert;
pub mod clock;
pub mod dn;
pub mod jks;
pub mod keys;
pub mod node;
pub mod pkcs12;
pub mod properties;
