//! RSA-2048 key pairs: generated with the `rsa` crate, imported into
//! `rcgen` (whose `ring` backend can sign with RSA keys but not make them).

use rsa::pkcs8::EncodePrivateKey;
use vstd::prelude::*;

verus! {

/// The size of every generated key, in bits.
pub const RSA_BITS: usize = 2048;

/// Why a key pair could not be made or read.
#[derive(Debug, PartialEq, Eq, Structural)]
pub enum KeyError {
    /// The `rsa` crate could not generate a key.
    Generate,
    /// The generated key could not be encoded as PKCS#8.
    Encode,
    /// `rcgen` refused the PKCS#8 key.
    Import,
    /// The PEM text does not hold a usable private key.
    Parse,
}

#[verifier::external_type_specification]
#[verifier::external_body]
pub struct ExRsaPrivateKey(rsa::RsaPrivateKey);

#[verifier::external_type_specification]
#[verifier::external_body]
pub struct ExRsaError(rsa::Error);

#[verifier::external_type_specification]
#[verifier::external_body]
pub struct ExPkcs8Error(rsa::pkcs8::Error);

/// `rsa::RsaPrivateKey::new` with the operating system's random number
/// generator. The key is random; nothing is promised of it.
#[verifier::external_body]
fn new_rsa_private_key(bits: usize) -> Result<rsa::RsaPrivateKey, rsa::Error> {
    rsa::RsaPrivateKey::new(&mut rand::rngs::OsRng, bits)
}

/// `EncodePrivateKey::to_pkcs8_der`, as bytes. Nothing is promised of the
/// encoding.
#[verifier::external_body]
fn rsa_pkcs8_der(key: &rsa::RsaPrivateKey) -> Result<Vec<u8>, rsa::pkcs8::Error> {
    match key.to_pkcs8_der() {
        Ok(doc) => Ok(doc.as_bytes().to_vec()),
        Err(e) => Err(e),
    }
}

/// `rcgen::KeyPair::from_pkcs8_der_and_sign_algo` for SHA256withRSA.
/// Nothing is promised of the key pair.
#[verifier::external_body]
fn keypair_from_pkcs8(der: &[u8]) -> Result<rcgen::KeyPair, rcgen::Error> {
    let pkcs8 = rustls_pki_types::PrivatePkcs8KeyDer::from(der.to_vec());
    rcgen::KeyPair::from_pkcs8_der_and_sign_algo(&pkcs8, &rcgen::PKCS_RSA_SHA256)
}

/// `rcgen::KeyPair::from_pem`. Nothing is promised of the key pair.
#[verifier::external_body]
fn keypair_from_pem(text: &str) -> Result<rcgen::KeyPair, rcgen::Error> {
    rcgen::KeyPair::from_pem(text)
}

/// The PKCS#8 PEM text of a key pair (`KeyPair::serialize_pem`).
#[verifier::external_body]
pub(crate) fn key_pem(key: &rcgen::KeyPair) -> String {
    key.serialize_pem()
}

/// The PKCS#8 DER bytes of a key pair (`KeyPair::serialize_der`).
#[verifier::external_body]
pub(crate) fn key_der(key: &rcgen::KeyPair) -> Vec<u8> {
    key.serialize_der()
}

/// Generates a new RSA-2048 key pair for SHA256withRSA signing: the key is
/// made by the `rsa` crate, encoded as PKCS#8 and imported into `rcgen`.
/// Each step that fails gives its own error.
pub fn generate_rsa_keypair() -> (res: Result<rcgen::KeyPair, KeyError>)
    ensures
        res matches Err(e) ==> (e == KeyError::Generate || e == KeyError::Encode || e
            == KeyError::Import),
{
    let private_key = match new_rsa_private_key(RSA_BITS) {
        Ok(k) => k,
        Err(_) => return Err(KeyError::Generate),
    };
    let der = match rsa_pkcs8_der(&private_key) {
        Ok(d) => d,
        Err(_) => return Err(KeyError::Encode),
    };
    match keypair_from_pkcs8(der.as_slice()) {
        Ok(k) => Ok(k),
        Err(_) => Err(KeyError::Import),
    }
}

/// Reads back a key pair from the PKCS#8 "PRIVATE KEY" PEM text that
/// `key_pem` writes.
pub fn parse_key_pem(text: &str) -> (res: Result<rcgen::KeyPair, KeyError>)
    ensures
        res matches Err(e) ==> e == KeyError::Parse,
{
    match keypair_from_pem(text) {
        Ok(k) => Ok(k),
        Err(_) => Err(KeyError::Parse),
    }
}

} // verus!
