use nifi_tls_gen::cert::{
    ca_params, ca_params_at, host_san, san_for_host, leaf_params, leaf_params_at, CaStatus, CertError,
    ExtendedKeyUsage, KeyUsage, SubjectAltName, SECONDS_PER_DAY, VALIDITY_DAYS,
};
use rcgen::{DistinguishedName, DnType};

fn subject(cn: &str) -> DistinguishedName {
    let mut dn = DistinguishedName::new();
    dn.push(DnType::CommonName, cn);
    dn
}

#[test]
fn ipv4_and_ipv6_hosts_get_ip_address_sans() {
    assert!(matches!(host_san("10.0.0.5"), Ok(SubjectAltName::IpAddress(h)) if h == "10.0.0.5"));
    assert!(matches!(host_san("::1"), Ok(SubjectAltName::IpAddress(h)) if h == "::1"));
}

#[test]
fn other_hosts_get_dns_name_sans() {
    assert!(
        matches!(host_san("nifi-1.internal"), Ok(SubjectAltName::DnsName(h)) if h == "nifi-1.internal")
    );
    assert!(matches!(host_san("10.0.0.256"), Ok(SubjectAltName::DnsName(_))));
}

#[test]
fn non_ascii_host_is_refused() {
    assert!(matches!(host_san("h\u{e9}te"), Err(CertError::InvalidHost { host }) if host == "h\u{e9}te"));
}

#[test]
fn ca_profile() {
    let params = ca_params_at(subject("ca.nifi"), 1_700_000_000);
    assert_eq!(params.ca, CaStatus::Authority);
    assert_eq!(params.key_usages, vec![KeyUsage::KeyCertSign, KeyUsage::CrlSign]);
    assert!(params.extended_key_usages.is_empty());
    assert!(params.subject_alt_names.is_empty());
    assert_eq!(params.not_before, 1_700_000_000 - 86_400);
    assert_eq!(params.not_after, 1_700_000_000 + 3650 * 86_400);
    assert_eq!(params.subject.get(&DnType::CommonName), Some(&"ca.nifi".into()));
}

#[test]
fn leaf_profile() {
    let params = leaf_params_at(subject("nifi-1"), "nifi-1", 0).unwrap();
    assert_eq!(params.ca, CaStatus::EndEntity);
    assert_eq!(
        params.key_usages,
        vec![KeyUsage::DigitalSignature, KeyUsage::KeyEncipherment]
    );
    assert_eq!(
        params.extended_key_usages,
        vec![ExtendedKeyUsage::ServerAuth, ExtendedKeyUsage::ClientAuth]
    );
    assert_eq!(params.subject_alt_names.len(), 1);
    assert!(matches!(&params.subject_alt_names[0], SubjectAltName::DnsName(h) if h == "nifi-1"));
    assert_eq!(params.not_before, -86_400);
    assert_eq!(params.not_after, 315_360_000);
    assert!(leaf_params_at(subject("x"), "\u{e9}", 0).is_err());
}

#[test]
fn validity_window_is_ten_years_and_a_day() {
    let params = ca_params(subject("ca"));
    assert_eq!(
        params.not_after - params.not_before,
        (VALIDITY_DAYS + 1) * SECONDS_PER_DAY
    );
    let leaf = leaf_params(subject("n"), "192.168.1.1").unwrap();
    assert_eq!(leaf.not_after - leaf.not_before, 3651 * 86_400);
    assert!(matches!(&leaf.subject_alt_names[0], SubjectAltName::IpAddress(_)));
}

#[test]
fn san_follows_the_ip_parse_result() {
    assert!(matches!(san_for_host("anything", true), Ok(SubjectAltName::IpAddress(h)) if h == "anything"));
    assert!(matches!(san_for_host("10.0.0.5", false), Ok(SubjectAltName::DnsName(h)) if h == "10.0.0.5"));
    assert!(matches!(san_for_host("\u{e9}", false), Err(CertError::InvalidHost { .. })));
    assert!(matches!(san_for_host("\u{e9}", true), Ok(SubjectAltName::IpAddress(_))));
}

#[test]
fn signing_reports_what_cannot_be_represented() {
    let key = rcgen::KeyPair::generate().unwrap();
    let far = nifi_tls_gen::cert::ca_params_at(subject("ca"), 100_000_000_000_000);
    assert!(matches!(
        nifi_tls_gen::cert::self_sign_ca(&far, &key),
        Err(CertError::ValidityOutOfRange)
    ));
    let mut bad = ca_params_at(subject("ca"), 0);
    bad.subject_alt_names.push(SubjectAltName::DnsName("h\u{e9}".to_string()));
    assert!(matches!(
        nifi_tls_gen::cert::self_sign_ca(&bad, &key),
        Err(CertError::InvalidHost { .. })
    ));
    let ok = ca_params_at(subject("ca"), 1_700_000_000);
    assert!(nifi_tls_gen::cert::self_sign_ca(&ok, &key).is_ok());
}
