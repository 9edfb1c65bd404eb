//! Certificate profiles for the CA and for node certificates, and signing
//! them with `rcgen`.

use vstd::prelude::*;

use crate::clock::{self, representable_time};

verus! {

/// Days of validity of every certificate (ten years).
pub const VALIDITY_DAYS: i64 = 3650;

/// Seconds in a day.
pub const SECONDS_PER_DAY: i64 = 86400;

/// Whether a certificate may issue others.
#[derive(Clone, Copy, Debug, PartialEq, Eq, Structural)]
pub enum CaStatus {
    /// A CA without a path-length limit.
    Authority,
    /// A certificate that cannot sign others.
    EndEntity,
}

/// Key usages that this tool puts on certificates.
#[derive(Clone, Copy, Debug, PartialEq, Eq, Structural)]
pub enum KeyUsage {
    DigitalSignature,
    KeyEncipherment,
    KeyCertSign,
    CrlSign,
}

/// Extended key usages that this tool puts on certificates.
#[derive(Clone, Copy, Debug, PartialEq, Eq, Structural)]
pub enum ExtendedKeyUsage {
    ServerAuth,
    ClientAuth,
}

/// A subject alternative name, holding the host's text.
#[derive(Debug)]
pub enum SubjectAltName {
    IpAddress(String),
    DnsName(String),
}

/// Why a certificate could not be built or signed.
#[derive(Debug)]
pub enum CertError {
    /// The host is neither an IP address nor an ASCII DNS name.
    InvalidHost { host: String },
    /// A validity bound lies outside the dates the `time` crate represents.
    ValidityOutOfRange,
    /// `rcgen` refused to sign.
    SigningFailed,
}

/// What a certificate will say: subject, CA status, usages, alternative
/// names and validity window (Unix seconds).
pub struct CertProfile {
    pub subject: rcgen::DistinguishedName,
    pub ca: CaStatus,
    pub key_usages: Vec<KeyUsage>,
    pub extended_key_usages: Vec<ExtendedKeyUsage>,
    pub subject_alt_names: Vec<SubjectAltName>,
    pub not_before: i64,
    pub not_after: i64,
}

/// A subject alternative name as the specification sees it: `true` for an
/// IP address, and the host's text.
pub open spec fn san_view(san: SubjectAltName) -> (bool, Seq<char>) {
    match san {
        SubjectAltName::IpAddress(t) => (true, t@),
        SubjectAltName::DnsName(t) => (false, t@),
    }
}

/// Whether `text` is an IP address as `std`'s `IpAddr` parser reads it.
pub uninterp spec fn is_ip_address(text: Seq<char>) -> bool;

/// Whether every character of `text` is ASCII (an IA5 string).
pub open spec fn is_ia5(text: Seq<char>) -> bool {
    forall|i: int| 0 <= i < text.len() ==> (#[trigger] text[i] as u32) < 128
}

/// Whether a host can be named in a certificate.
pub open spec fn valid_host(text: Seq<char>) -> bool {
    is_ip_address(text) || is_ia5(text)
}

/// Whether an alternative name can be put into a certificate.
pub open spec fn valid_san(san: SubjectAltName) -> bool {
    match san {
        SubjectAltName::IpAddress(t) => is_ip_address(t@),
        SubjectAltName::DnsName(t) => is_ia5(t@),
    }
}

/// Whether every alternative name of a list can be put into a certificate.
pub open spec fn all_sans_valid(sans: Seq<SubjectAltName>) -> bool {
    forall|i: int| 0 <= i < sans.len() ==> valid_san(#[trigger] sans[i])
}

/// Whether both validity bounds of a profile are dates `time` represents.
pub open spec fn validity_representable(profile: CertProfile) -> bool {
    representable_time(profile.not_before) && representable_time(profile.not_after)
}

/// Whether a timestamp lies where the validity arithmetic is safe.
pub open spec fn plausible_time(now: i64) -> bool {
    -100_000_000_000_000 <= now <= 100_000_000_000_000
}

/// The start of the validity window: one day before `now`, to tolerate
/// clock skew between this machine and the nodes.
pub open spec fn not_before_for(now: i64) -> int {
    now - SECONDS_PER_DAY
}

/// The end of the validity window: `VALIDITY_DAYS` days after `now`.
pub open spec fn not_after_for(now: i64) -> int {
    now + VALIDITY_DAYS * SECONDS_PER_DAY
}

// ---------------------------------------------------------------------------
// Trusted calls
// ---------------------------------------------------------------------------

#[verifier::external_type_specification]
#[verifier::external_body]
pub struct ExSanType(rcgen::SanType);

#[verifier::external_type_specification]
#[verifier::external_body]
pub struct ExRcgenError(rcgen::Error);

#[verifier::external_type_specification]
#[verifier::external_body]
pub struct ExKeyUsagePurpose(rcgen::KeyUsagePurpose);

#[verifier::external_type_specification]
#[verifier::external_body]
pub struct ExExtendedKeyUsagePurpose(rcgen::ExtendedKeyUsagePurpose);

#[verifier::external_type_specification]
#[verifier::external_body]
pub struct ExCertificateParams(rcgen::CertificateParams);

#[verifier::external_type_specification]
#[verifier::external_body]
pub struct ExIsCa(rcgen::IsCa);

#[verifier::external_type_specification]
#[verifier::external_body]
pub struct ExCertificate(rcgen::Certificate);

#[verifier::external_type_specification]
#[verifier::external_body]
pub struct ExKeyPair(rcgen::KeyPair);

#[verifier::external_type_specification]
#[verifier::external_body]
#[verifier::reject_recursive_types(S)]
pub struct ExIssuer<'a, S>(rcgen::Issuer<'a, S>);

/// Parses `text` with `str::parse` into `std`'s `IpAddr` and wraps it as an
/// IP-address SAN. Trusted: it succeeds exactly on the texts that
/// `is_ip_address` names.
#[verifier::external_body]
fn ip_address_san(text: &str) -> (san: Option<rcgen::SanType>)
    ensures
        san is Some <==> is_ip_address(text@),
{
    match text.parse() {
        Ok(ip) => Some(rcgen::SanType::IpAddress(ip)),
        Err(_) => None,
    }
}

/// Converts `text` with `rcgen::string::Ia5String::try_from` and wraps it as a DNS
/// SAN. Trusted, as its source shows: it succeeds exactly when every
/// character is ASCII.
#[verifier::external_body]
fn dns_name_san(text: &str) -> (san: Result<rcgen::SanType, rcgen::Error>)
    ensures
        san is Ok <==> is_ia5(text@),
{
    match rcgen::string::Ia5String::try_from(text) {
        Ok(name) => Ok(rcgen::SanType::DnsName(name)),
        Err(e) => Err(e),
    }
}

/// The `rcgen` key usage for a `KeyUsage`.
#[verifier::external_body]
fn rcgen_key_usage(usage: KeyUsage) -> rcgen::KeyUsagePurpose {
    match usage {
        KeyUsage::DigitalSignature => rcgen::KeyUsagePurpose::DigitalSignature,
        KeyUsage::KeyEncipherment => rcgen::KeyUsagePurpose::KeyEncipherment,
        KeyUsage::KeyCertSign => rcgen::KeyUsagePurpose::KeyCertSign,
        KeyUsage::CrlSign => rcgen::KeyUsagePurpose::CrlSign,
    }
}

/// The `rcgen` extended key usage for an `ExtendedKeyUsage`.
#[verifier::external_body]
fn rcgen_extended_key_usage(usage: ExtendedKeyUsage) -> rcgen::ExtendedKeyUsagePurpose {
    match usage {
        ExtendedKeyUsage::ServerAuth => rcgen::ExtendedKeyUsagePurpose::ServerAuth,
        ExtendedKeyUsage::ClientAuth => rcgen::ExtendedKeyUsagePurpose::ClientAuth,
    }
}

/// The `rcgen` CA status for a `CaStatus`: `Authority` becomes
/// `IsCa::Ca(Unconstrained)`, `EndEntity` becomes `IsCa::NoCa`.
#[verifier::external_body]
fn rcgen_is_ca(ca: CaStatus) -> rcgen::IsCa {
    match ca {
        CaStatus::Authority => rcgen::IsCa::Ca(rcgen::BasicConstraints::Unconstrained),
        CaStatus::EndEntity => rcgen::IsCa::NoCa,
    }
}

/// Fills `rcgen::CertificateParams::default()` with the given parts, field
/// for field.
#[verifier::external_body]
fn rcgen_params(
    subject: &rcgen::DistinguishedName,
    is_ca: rcgen::IsCa,
    key_usages: Vec<rcgen::KeyUsagePurpose>,
    extended_key_usages: Vec<rcgen::ExtendedKeyUsagePurpose>,
    subject_alt_names: Vec<rcgen::SanType>,
    not_before: time::OffsetDateTime,
    not_after: time::OffsetDateTime,
) -> rcgen::CertificateParams {
    let mut params = rcgen::CertificateParams::default();
    params.distinguished_name = subject.clone();
    params.is_ca = is_ca;
    params.key_usages = key_usages;
    params.extended_key_usages = extended_key_usages;
    params.subject_alt_names = subject_alt_names;
    params.not_before = not_before;
    params.not_after = not_after;
    params
}

/// `rcgen::CertificateParams::self_signed`. Nothing is promised of the
/// certificate or of when signing fails.
#[verifier::external_body]
fn self_signed(params: &rcgen::CertificateParams, key: &rcgen::KeyPair) -> Result<
    rcgen::Certificate,
    rcgen::Error,
> {
    params.self_signed(key)
}

/// `rcgen::CertificateParams::signed_by`. Nothing is promised of the
/// certificate or of when signing fails.
#[verifier::external_body]
fn signed_by(
    params: &rcgen::CertificateParams,
    key: &rcgen::KeyPair,
    issuer: &rcgen::Issuer<'static, rcgen::KeyPair>,
) -> Result<rcgen::Certificate, rcgen::Error> {
    params.signed_by(key, issuer)
}

/// The DER bytes of a certificate (`Certificate::der`).
#[verifier::external_body]
pub(crate) fn certificate_der(cert: &rcgen::Certificate) -> Vec<u8> {
    cert.der().to_vec()
}

/// The PEM text of a certificate (`Certificate::pem`).
#[verifier::external_body]
pub(crate) fn certificate_pem(cert: &rcgen::Certificate) -> String {
    cert.pem()
}

// ---------------------------------------------------------------------------
// Profiles
// ---------------------------------------------------------------------------

/// Whether every character of `text` is ASCII.
fn all_ascii(text: &str) -> (res: bool)
    ensures
        res == is_ia5(text@),
{
    let mut res = true;
    for c in it: text.chars()
        invariant
            it.seq() == text@,
            res == (forall|i: int| 0 <= i < it.index() ==> (#[trigger] text@[i] as u32) < 128),
    {
        if (c as u32) >= 128 {
            res = false;
        }
    }
    res
}

/// The subject alternative name for `host`, given whether it parses as an
/// IP address: an IP-address SAN if it does, otherwise a DNS-name SAN,
/// which needs an ASCII host.
pub fn san_for_host(host: &str, parses_as_ip: bool) -> (res: Result<SubjectAltName, CertError>)
    ensures
        parses_as_ip ==> (res matches Ok(san) && san_view(san) == (true, host@)),
        !parses_as_ip && is_ia5(host@) ==> (res matches Ok(san) && san_view(san) == (
            false,
            host@,
        )),
        !parses_as_ip && !is_ia5(host@) ==> (res matches Err(CertError::InvalidHost { host: h })
            && h@ == host@),
{
    if parses_as_ip {
        Ok(SubjectAltName::IpAddress(host.to_owned()))
    } else if all_ascii(host) {
        Ok(SubjectAltName::DnsName(host.to_owned()))
    } else {
        Err(CertError::InvalidHost { host: host.to_owned() })
    }
}

/// The subject alternative name for a host: an IP-address SAN when the host
/// parses as an IPv4 or IPv6 address, otherwise a DNS-name SAN, which needs
/// an ASCII host.
pub fn host_san(host: &str) -> (res: Result<SubjectAltName, CertError>)
    ensures
        is_ip_address(host@) ==> (res matches Ok(san) && san_view(san) == (true, host@)),
        !is_ip_address(host@) && is_ia5(host@) ==> (res matches Ok(san) && san_view(san) == (
            false,
            host@,
        )),
        !valid_host(host@) ==> (res matches Err(CertError::InvalidHost { host: h }) && h@
            == host@),
{
    san_for_host(host, ip_address_san(host).is_some())
}

/// The profile of a self-signed CA certificate with subject `dn`, valid
/// from a day before `now` for `VALIDITY_DAYS` days.
pub fn ca_params_at(dn: rcgen::DistinguishedName, now: i64) -> (params: CertProfile)
    requires
        plausible_time(now),
    ensures
        params.subject == dn,
        params.ca == CaStatus::Authority,
        params.key_usages@ == seq![KeyUsage::KeyCertSign, KeyUsage::CrlSign],
        params.extended_key_usages@.len() == 0,
        params.subject_alt_names@.len() == 0,
        params.not_before == not_before_for(now),
        params.not_after == not_after_for(now),
{
    let mut key_usages: Vec<KeyUsage> = Vec::new();
    key_usages.push(KeyUsage::KeyCertSign);
    key_usages.push(KeyUsage::CrlSign);
    CertProfile {
        subject: dn,
        ca: CaStatus::Authority,
        key_usages,
        extended_key_usages: Vec::new(),
        subject_alt_names: Vec::new(),
        not_before: now - SECONDS_PER_DAY,
        not_after: now + VALIDITY_DAYS * SECONDS_PER_DAY,
    }
}

/// The profile of a self-signed CA certificate with subject `dn`, valid
/// from a day before the current time for `VALIDITY_DAYS` days.
pub fn ca_params(dn: rcgen::DistinguishedName) -> (params: CertProfile)
    ensures
        params.subject == dn,
        params.ca == CaStatus::Authority,
        params.key_usages@ == seq![KeyUsage::KeyCertSign, KeyUsage::CrlSign],
        params.extended_key_usages@.len() == 0,
        params.subject_alt_names@.len() == 0,
        exists|now: i64|
            plausible_time(now) && params.not_before == not_before_for(now) && params.not_after
                == not_after_for(now),
{
    let now = clock::current_unix_seconds();
    ca_params_at(dn, now)
}

/// The profile of a node certificate for `host` with subject `dn`: not a
/// CA, digital signature and key encipherment, server and client
/// authentication, `host` as its one alternative name, valid from a day
/// before `now` for `VALIDITY_DAYS` days. Fails when the host cannot be
/// named.
pub fn leaf_params_at(dn: rcgen::DistinguishedName, host: &str, now: i64) -> (res: Result<
    CertProfile,
    CertError,
>)
    requires
        plausible_time(now),
    ensures
        res is Ok <==> valid_host(host@),
        res matches Ok(params) ==> {
            &&& params.subject == dn
            &&& params.ca == CaStatus::EndEntity
            &&& params.key_usages@ == seq![KeyUsage::DigitalSignature, KeyUsage::KeyEncipherment]
            &&& params.extended_key_usages@ == seq![
                ExtendedKeyUsage::ServerAuth,
                ExtendedKeyUsage::ClientAuth,
            ]
            &&& params.subject_alt_names@.len() == 1
            &&& san_view(params.subject_alt_names@[0]) == (is_ip_address(host@), host@)
            &&& params.not_before == not_before_for(now)
            &&& params.not_after == not_after_for(now)
        },
        res matches Err(e) ==> (e matches CertError::InvalidHost { host: h } && h@ == host@),
{
    let san = host_san(host)?;
    let mut key_usages: Vec<KeyUsage> = Vec::new();
    key_usages.push(KeyUsage::DigitalSignature);
    key_usages.push(KeyUsage::KeyEncipherment);
    let mut extended_key_usages: Vec<ExtendedKeyUsage> = Vec::new();
    extended_key_usages.push(ExtendedKeyUsage::ServerAuth);
    extended_key_usages.push(ExtendedKeyUsage::ClientAuth);
    let mut subject_alt_names: Vec<SubjectAltName> = Vec::new();
    subject_alt_names.push(san);
    Ok(CertProfile {
        subject: dn,
        ca: CaStatus::EndEntity,
        key_usages,
        extended_key_usages,
        subject_alt_names,
        not_before: now - SECONDS_PER_DAY,
        not_after: now + VALIDITY_DAYS * SECONDS_PER_DAY,
    })
}

/// The profile of a node certificate for `host`, valid from a day before
/// the current time for `VALIDITY_DAYS` days.
pub fn leaf_params(dn: rcgen::DistinguishedName, host: &str) -> (res: Result<CertProfile, CertError>)
    ensures
        res is Ok <==> valid_host(host@),
        res matches Ok(params) ==> {
            &&& params.subject == dn
            &&& params.ca == CaStatus::EndEntity
            &&& params.key_usages@ == seq![KeyUsage::DigitalSignature, KeyUsage::KeyEncipherment]
            &&& params.extended_key_usages@ == seq![
                ExtendedKeyUsage::ServerAuth,
                ExtendedKeyUsage::ClientAuth,
            ]
            &&& params.subject_alt_names@.len() == 1
            &&& san_view(params.subject_alt_names@[0]) == (is_ip_address(host@), host@)
            &&& exists|now: i64|
                plausible_time(now) && params.not_before == not_before_for(now) && params.not_after
                    == not_after_for(now)
        },
        res matches Err(e) ==> (e matches CertError::InvalidHost { host: h } && h@ == host@),
{
    let now = clock::current_unix_seconds();
    leaf_params_at(dn, host, now)
}

// ---------------------------------------------------------------------------
// Signing
// ---------------------------------------------------------------------------

/// The `rcgen` SAN for an alternative name; fails when the name cannot be
/// put into a certificate.
fn rcgen_san(san: &SubjectAltName) -> (res: Result<rcgen::SanType, CertError>)
    ensures
        res is Ok <==> valid_san(*san),
        res matches Err(e) ==> e is InvalidHost,
{
    match san {
        SubjectAltName::IpAddress(text) => match ip_address_san(text.as_str()) {
            Some(s) => Ok(s),
            None => Err(CertError::InvalidHost { host: text.clone() }),
        },
        SubjectAltName::DnsName(text) => match dns_name_san(text.as_str()) {
            Ok(s) => Ok(s),
            Err(_) => Err(CertError::InvalidHost { host: text.clone() }),
        },
    }
}

/// The `rcgen` key usages for a list of key usages, one for each, in the
/// same order.
fn rcgen_key_usages(usages: &Vec<KeyUsage>) -> (res: Vec<rcgen::KeyUsagePurpose>)
    ensures
        res@.len() == usages@.len(),
{
    let mut res: Vec<rcgen::KeyUsagePurpose> = Vec::new();
    let mut i: usize = 0;
    while i < usages.len()
        invariant
            i <= usages@.len(),
            res@.len() == i,
        decreases usages@.len() - i,
    {
        res.push(rcgen_key_usage(usages[i]));
        i = i + 1;
    }
    res
}

/// The `rcgen` extended key usages for a list of extended key usages, one
/// for each, in the same order.
fn rcgen_extended_key_usages(usages: &Vec<ExtendedKeyUsage>) -> (res: Vec<
    rcgen::ExtendedKeyUsagePurpose,
>)
    ensures
        res@.len() == usages@.len(),
{
    let mut res: Vec<rcgen::ExtendedKeyUsagePurpose> = Vec::new();
    let mut i: usize = 0;
    while i < usages.len()
        invariant
            i <= usages@.len(),
            res@.len() == i,
        decreases usages@.len() - i,
    {
        res.push(rcgen_extended_key_usage(usages[i]));
        i = i + 1;
    }
    res
}

/// The `rcgen` SANs for a list of alternative names, one for each, in the
/// same order; fails at the first name that cannot be put into a
/// certificate.
fn rcgen_sans(names: &Vec<SubjectAltName>) -> (res: Result<Vec<rcgen::SanType>, CertError>)
    ensures
        res is Ok <==> all_sans_valid(names@),
        res matches Ok(sans) ==> sans@.len() == names@.len(),
        res matches Err(e) ==> e is InvalidHost,
{
    let mut sans: Vec<rcgen::SanType> = Vec::new();
    let mut i: usize = 0;
    while i < names.len()
        invariant
            i <= names@.len(),
            sans@.len() == i,
            forall|j: int| 0 <= j < i ==> valid_san(#[trigger] names@[j]),
        decreases names@.len() - i,
    {
        let san = match rcgen_san(&names[i]) {
            Ok(s) => s,
            Err(e) => {
                assert(!valid_san(names@[i as int]));
                return Err(e);
            },
        };
        sans.push(san);
        i = i + 1;
    }
    Ok(sans)
}

/// Converts a profile into `rcgen` parameters. Fails when an alternative
/// name cannot be put into a certificate, or when a validity bound is a
/// date the `time` crate cannot represent.
fn to_rcgen_params(profile: &CertProfile) -> (res: Result<rcgen::CertificateParams, CertError>)
    ensures
        res is Ok ==> all_sans_valid(profile.subject_alt_names@),
        all_sans_valid(profile.subject_alt_names@) && validity_representable(*profile) ==> res is Ok,
        !all_sans_valid(profile.subject_alt_names@) ==> (res matches Err(e) && e is InvalidHost),
        res matches Err(e) ==> (e is InvalidHost ==> !all_sans_valid(profile.subject_alt_names@)),
        res matches Err(e) ==> (e is ValidityOutOfRange ==> !validity_representable(*profile)),
        res matches Err(e) ==> !(e is SigningFailed),
{
    let key_usages = rcgen_key_usages(&profile.key_usages);
    let extended_key_usages = rcgen_extended_key_usages(&profile.extended_key_usages);
    let sans = rcgen_sans(&profile.subject_alt_names)?;
    let not_before = match clock::datetime_from_unix(profile.not_before) {
        Ok(t) => t,
        Err(_) => return Err(CertError::ValidityOutOfRange),
    };
    let not_after = match clock::datetime_from_unix(profile.not_after) {
        Ok(t) => t,
        Err(_) => return Err(CertError::ValidityOutOfRange),
    };
    Ok(
        rcgen_params(
            &profile.subject,
            rcgen_is_ca(profile.ca),
            key_usages,
            extended_key_usages,
            sans,
            not_before,
            not_after,
        ),
    )
}

/// Self-signs the CA certificate described by `params` with `key`.
pub fn self_sign_ca(params: &CertProfile, key: &rcgen::KeyPair) -> (res: Result<
    rcgen::Certificate,
    CertError,
>)
    ensures
        res is Ok ==> all_sans_valid(params.subject_alt_names@),
        !all_sans_valid(params.subject_alt_names@) ==> (res matches Err(e) && e is InvalidHost),
        res matches Err(e) ==> (e is InvalidHost ==> !all_sans_valid(params.subject_alt_names@)),
        res matches Err(e) ==> (e is ValidityOutOfRange ==> !validity_representable(*params)),
{
    let rcgen_params = to_rcgen_params(params)?;
    match self_signed(&rcgen_params, key) {
        Ok(cert) => Ok(cert),
        Err(_) => Err(CertError::SigningFailed),
    }
}

/// Issues the node certificate described by `params` for `leaf_key`,
/// signed by `issuer`.
pub fn issue_leaf(
    params: &CertProfile,
    leaf_key: &rcgen::KeyPair,
    issuer: &rcgen::Issuer<'static, rcgen::KeyPair>,
) -> (res: Result<rcgen::Certificate, CertError>)
    ensures
        res is Ok ==> all_sans_valid(params.subject_alt_names@),
        !all_sans_valid(params.subject_alt_names@) ==> (res matches Err(e) && e is InvalidHost),
        res matches Err(e) ==> (e is InvalidHost ==> !all_sans_valid(params.subject_alt_names@)),
        res matches Err(e) ==> (e is ValidityOutOfRange ==> !validity_representable(*params)),
{
    let rcgen_params = to_rcgen_params(params)?;
    match signed_by(&rcgen_params, leaf_key, issuer) {
        Ok(cert) => Ok(cert),
        Err(_) => Err(CertError::SigningFailed),
    }
}

/// Every certificate is valid for `VALIDITY_DAYS` days plus the day of
/// back-dating, whatever the time it was made at.
pub proof fn lemma_validity_window(now: i64)
    requires
        plausible_time(now),
    ensures
        not_after_for(now) - not_before_for(now) == (VALIDITY_DAYS + 1) * SECONDS_PER_DAY,
        not_before_for(now) < now < not_after_for(now),
{
}

} // verus!
