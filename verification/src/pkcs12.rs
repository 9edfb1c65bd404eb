//! PKCS#12 keystores built with the `p12` crate: the node's key and
//! certificate, with the CA certificate bundled as the trust chain.

use vstd::prelude::*;

verus! {

/// Why a keystore could not be built.
#[derive(Debug, PartialEq, Eq, Structural)]
pub enum Pkcs12Error {
    /// `p12` could not build the keystore (its random salt was unavailable,
    /// or the key could not be encrypted).
    BuildFailed,
}

#[verifier::external_type_specification]
#[verifier::external_body]
pub struct ExPfx(p12::PFX);

/// `p12::PFX::new_with_cas` with the CA certificate as the only chain
/// entry. The keystore is salted at random, so nothing is promised of it;
/// `p12` panics only when the operating system's random source fails.
#[verifier::external_body]
fn pfx_with_ca(
    cert_der: &[u8],
    key_der: &[u8],
    ca_der: &[u8],
    password: &str,
    name: &str,
) -> Option<p12::PFX> {
    p12::PFX::new_with_cas(cert_der, key_der, &[ca_der], password, name)
}

/// The DER encoding of a keystore (`PFX::to_der`).
#[verifier::external_body]
fn pfx_der(pfx: &p12::PFX) -> Vec<u8> {
    pfx.to_der()
}

/// Builds the bytes of a password-protected PKCS#12 keystore holding
/// `leaf_key_der` and `leaf_cert_der` under `alias`, with `ca_cert_der` as
/// the trust chain (PBE-SHA1-3DES for the key, PBE-SHA1-RC2-40 for the
/// certificates, as every JRE reads them).
pub fn keystore_der(
    leaf_cert_der: &[u8],
    leaf_key_der: &[u8],
    ca_cert_der: &[u8],
    password: &str,
    alias: &str,
) -> (res: Result<Vec<u8>, Pkcs12Error>)
    ensures
        res matches Err(e) ==> e == Pkcs12Error::BuildFailed,
{
    match pfx_with_ca(leaf_cert_der, leaf_key_der, ca_cert_der, password, alias) {
        Some(pfx) => Ok(pfx_der(&pfx)),
        None => Err(Pkcs12Error::BuildFailed),
    }
}

} // verus!
