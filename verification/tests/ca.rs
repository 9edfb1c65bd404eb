use nifi_tls_gen::ca::{create_with_key, load_existing, Ca, CaError};
use nifi_tls_gen::cert::{ca_params, self_sign_ca, CertError};
use nifi_tls_gen::dn::DnTemplate;
use nifi_tls_gen::keys::KeyError;
use nifi_tls_gen::node::{issue_node_with_key, NodeError};
use nifi_tls_gen::properties::merge;

/// A fresh ECDSA P-256 key pair: quick to make, unlike an RSA key, and
/// signed with just the same way by `rcgen`.
fn quick_key() -> rcgen::KeyPair {
    rcgen::KeyPair::generate().unwrap()
}

fn node_key() -> rcgen::KeyPair {
    quick_key()
}

fn fixture_ca(tmpl: &DnTemplate) -> Ca {
    let key = quick_key();
    let params = ca_params(tmpl.build("ca.nifi"));
    let cert = self_sign_ca(&params, &key).unwrap();
    Ca {
        cert_der: cert.der().to_vec(),
        key,
    }
}

#[test]
fn unreadable_key_is_refused_first() {
    assert!(matches!(
        load_existing("not a key", None),
        Err(CaError::Key(KeyError::Parse))
    ));
}

#[test]
fn created_ca_reloads() {
    let tmpl = DnTemplate::parse("CN=admin, OU=NIFI").unwrap();
    let fresh = create_with_key("ca.nifi", &tmpl, quick_key()).unwrap();
    assert!(!fresh.key_pem.is_empty());
    assert!(fresh.cert_pem.starts_with("-----BEGIN CERTIFICATE-----"));

    assert!(matches!(
        load_existing(&fresh.key_pem, None),
        Err(CaError::MissingCertificate)
    ));
    assert!(matches!(
        load_existing(&fresh.key_pem, Some("garbage")),
        Err(CaError::CertificatePem)
    ));
    let loaded = load_existing(&fresh.key_pem, Some(&fresh.cert_pem)).unwrap();
    assert_eq!(loaded.cert_der, fresh.ca.cert_der);
    let (ca_der, _issuer) = loaded.into_issuer().unwrap();
    assert_eq!(ca_der, fresh.ca.cert_der);
}

#[test]
fn node_with_ip_address_is_issued() {
    let tmpl = DnTemplate::parse("CN=admin, OU=NIFI").unwrap();
    let (ca_der, issuer) = fixture_ca(&tmpl).into_issuer().unwrap();
    let material = issue_node_with_key(
        "10.0.0.5",
        node_key(),
        "ca.nifi",
        &ca_der,
        &issuer,
        &tmpl,
        "a=1\n",
        "changeit123",
    )
    .unwrap();
    assert_eq!(material.properties, merge("a=1\n", "changeit123"));
    assert_eq!(&material.truststore[..12], &[0xFE, 0xED, 0xFE, 0xED, 0, 0, 0, 2, 0, 0, 0, 1]);
    let pfx = p12::PFX::parse(&material.keystore).unwrap();
    assert!(pfx.verify_mac("changeit123"));
    let certs = pfx.cert_x509_bags("changeit123").unwrap();
    assert_eq!(certs.len(), 2);
    assert!(certs.contains(&ca_der));
    assert_eq!(pfx.key_bags("changeit123").unwrap().len(), 1);
}

#[test]
fn node_with_dns_name_is_issued() {
    let tmpl = DnTemplate::parse("OU=NIFI").unwrap();
    let (ca_der, issuer) = fixture_ca(&tmpl).into_issuer().unwrap();
    let node = issue_node_with_key("nifi-1.internal", node_key(), "ca.nifi", &ca_der, &issuer, &tmpl, "", "pw").unwrap();
    assert_eq!(node.properties, merge("", "pw"));
    assert!(p12::PFX::parse(&node.keystore).unwrap().verify_mac("pw"));
}

#[test]
fn node_with_non_ascii_name_is_refused() {
    let tmpl = DnTemplate::parse("OU=NIFI").unwrap();
    let (ca_der, issuer) = fixture_ca(&tmpl).into_issuer().unwrap();
    assert!(matches!(
        issue_node_with_key("n\u{e9}", node_key(), "ca.nifi", &ca_der, &issuer, &tmpl, "", "pw"),
        Err(NodeError::Certificate(CertError::InvalidHost { .. }))
    ));
}
