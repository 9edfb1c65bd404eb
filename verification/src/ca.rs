//! The certificate authority: loaded from an earlier run, or created as a
//! fresh self-signed RSA-2048 CA.

use vstd::prelude::*;

use crate::cert::{
    self, not_after_for, not_before_for, plausible_time, CaStatus, CertError, CertProfile,
    KeyUsage,
};
use crate::dn::{built_dn, dn_entries, DnAttr, DnTemplate};
use crate::keys::{self, KeyError};

verus! {

/// A loaded or freshly made CA: its certificate (DER) and its key pair.
pub struct Ca {
    pub cert_der: Vec<u8>,
    pub key: rcgen::KeyPair,
}

/// A freshly made CA together with the PEM texts to store it as.
pub struct NewCa {
    pub ca: Ca,
    /// The key pair as PKCS#8 PEM (`ca.key`).
    pub key_pem: String,
    /// The certificate as PEM (`ca.crt`).
    pub cert_pem: String,
    /// The profile the certificate was self-signed from.
    pub profile: CertProfile,
}

/// Whether `profile` is that of the CA certificate for `ca_name` and the
/// template's RDNs: a CA without a path-length limit, signing certificates
/// and revocation lists only, with no alternative names, subject
/// `CN=<ca_name>` followed by the template's RDNs, valid from a day before
/// some plausible time for `VALIDITY_DAYS` days.
pub open spec fn is_ca_profile(
    profile: CertProfile,
    ca_name: Seq<char>,
    rdns: Seq<(DnAttr, Seq<char>)>,
) -> bool {
    &&& profile.ca == CaStatus::Authority
    &&& profile.key_usages@ == seq![KeyUsage::KeyCertSign, KeyUsage::CrlSign]
    &&& profile.extended_key_usages@.len() == 0
    &&& profile.subject_alt_names@.len() == 0
    &&& dn_entries(profile.subject) == built_dn(ca_name, rdns)
    &&& exists|now: i64|
        plausible_time(now) && profile.not_before == not_before_for(now) && profile.not_after
            == not_after_for(now)
}

/// Why the CA could not be loaded, made or used.
#[derive(Debug)]
pub enum CaError {
    /// The key could not be generated or read.
    Key(KeyError),
    /// A CA key exists but its certificate does not.
    MissingCertificate,
    /// The stored certificate is not valid PEM.
    CertificatePem,
    /// The CA certificate could not be built or signed.
    Certificate(CertError),
    /// `rcgen` could not make an issuer from the CA certificate and key.
    Issuer,
}

/// What `pem::parse` decodes from `text` (the contents of its first block),
/// or `None` where it fails.
pub uninterp spec fn pem_decode(text: Seq<char>) -> Option<Seq<u8>>;

#[verifier::external_type_specification]
#[verifier::external_body]
pub struct ExPemError(pem::PemError);

/// `pem::parse`, keeping the contents. Trusted: the result is `pem_decode`
/// of the text.
#[verifier::external_body]
fn pem_contents(text: &str) -> (res: Result<Vec<u8>, pem::PemError>)
    ensures
        res matches Ok(der) ==> pem_decode(text@) == Some(der@),
        res is Err ==> pem_decode(text@) is None,
{
    match pem::parse(text) {
        Ok(p) => Ok(p.into_contents()),
        Err(e) => Err(e),
    }
}

/// `rcgen::Issuer::from_ca_cert_der`. Nothing is promised of the issuer or
/// of when the certificate is refused.
#[verifier::external_body]
fn issuer_from_ca_cert(cert_der: &[u8], key: rcgen::KeyPair) -> Result<
    rcgen::Issuer<'static, rcgen::KeyPair>,
    rcgen::Error,
> {
    let der = rustls_pki_types::CertificateDer::from(cert_der.to_vec());
    rcgen::Issuer::from_ca_cert_der(&der, key)
}

/// Loads a CA stored by an earlier run from the PEM text of its key and,
/// if it exists, the PEM text of its certificate. The key is read first; a
/// missing certificate, or one that is not PEM, is an error.
pub fn load_existing(key_pem: &str, cert_pem: Option<&str>) -> (res: Result<Ca, CaError>)
    ensures
        res matches Ok(ca) ==> (cert_pem matches Some(text) && pem_decode(text@) == Some(
            ca.cert_der@,
        )),
        cert_pem is None ==> res is Err,
        (cert_pem matches Some(text) && pem_decode(text@) is None) ==> res is Err,
        res matches Err(e) ==> (e matches CaError::Key(k) && k == KeyError::Parse) || (
        e is MissingCertificate && cert_pem is None) || (e is CertificatePem && (cert_pem matches Some(
            text,
        ) && pem_decode(text@) is None)),
{
    let key = match keys::parse_key_pem(key_pem) {
        Ok(k) => k,
        Err(e) => return Err(CaError::Key(e)),
    };
    let text = match cert_pem {
        Some(t) => t,
        None => return Err(CaError::MissingCertificate),
    };
    match pem_contents(text) {
        Ok(cert_der) => Ok(Ca { cert_der, key }),
        Err(_) => Err(CaError::CertificatePem),
    }
}

/// Makes a CA from `key`: a self-signed CA certificate whose subject is
/// `CN=<ca_name>` followed by the template's RDNs, valid for ten years from
/// a day before now; also returns the PEM texts to store and the profile
/// that was signed.
pub fn create_with_key(ca_name: &str, dn_template: &DnTemplate, key: rcgen::KeyPair) -> (res:
    Result<NewCa, CaError>)
    ensures
        res matches Ok(new_ca) ==> new_ca.ca.key == key,
        res matches Ok(new_ca) ==> is_ca_profile(new_ca.profile, ca_name@, dn_template@),
        res matches Err(e) ==> (e matches CaError::Certificate(c) && !(c is InvalidHost)),
{
    let params = cert::ca_params(dn_template.build(ca_name));
    let certificate = match cert::self_sign_ca(&params, &key) {
        Ok(c) => c,
        Err(e) => return Err(CaError::Certificate(e)),
    };
    let key_pem = keys::key_pem(&key);
    let cert_pem = cert::certificate_pem(&certificate);
    let cert_der = cert::certificate_der(&certificate);
    Ok(NewCa { ca: Ca { cert_der, key }, key_pem, cert_pem, profile: params })
}

/// Makes a fresh CA: a newly generated RSA-2048 key and a self-signed CA
/// certificate as `create_with_key` makes it.
pub fn create(ca_name: &str, dn_template: &DnTemplate) -> (res: Result<NewCa, CaError>)
    ensures
        res matches Ok(new_ca) ==> is_ca_profile(new_ca.profile, ca_name@, dn_template@),
        res matches Err(e) ==> ((e matches CaError::Key(k) && k != KeyError::Parse) || (
        e matches CaError::Certificate(c) && !(c is InvalidHost))),
{
    let key = match keys::generate_rsa_keypair() {
        Ok(k) => k,
        Err(e) => return Err(CaError::Key(e)),
    };
    create_with_key(ca_name, dn_template, key)
}

impl Ca {
    /// Turns the CA into an issuer for node certificates, keeping a copy of
    /// its certificate to bundle into keystores and truststores.
    pub fn into_issuer(self) -> (res: Result<(Vec<u8>, rcgen::Issuer<'static, rcgen::KeyPair>), CaError>)
        ensures
            res matches Ok(pair) ==> pair.0@ == self.cert_der@,
            res matches Err(e) ==> e is Issuer,
    {
        let cert_der = self.cert_der;
        match issuer_from_ca_cert(cert_der.as_slice(), self.key) {
            Ok(issuer) => Ok((cert_der, issuer)),
            Err(_) => Err(CaError::Issuer),
        }
    }
}

} // verus!
