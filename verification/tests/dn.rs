use nifi_tls_gen::dn::{DnError, DnTemplate};
use rcgen::{DnType, DnValue};

#[test]
fn cn_only() {
    let tmpl = DnTemplate::parse("CN=admin").unwrap();
    let dn = tmpl.build("node1.example.com");
    assert_eq!(
        dn.get(&DnType::CommonName),
        Some(&"node1.example.com".into())
    );
}

#[test]
fn full_dn_keeps_extra_rdns() {
    let tmpl = DnTemplate::parse("CN=nifi-registry-admin, OU=NIFI").unwrap();
    let dn = tmpl.build("ca.nifi");
    assert_eq!(dn.get(&DnType::CommonName), Some(&"ca.nifi".into()));
    assert_eq!(
        dn.get(&DnType::OrganizationalUnitName),
        Some(&"NIFI".into())
    );
}

#[test]
fn rejects_unknown_attribute() {
    assert!(DnTemplate::parse("CN=x, ZZ=y").is_err());
}

fn entries(dn: &rcgen::DistinguishedName) -> Vec<(DnType, String)> {
    dn.iter()
        .map(|(ty, value)| match value {
            DnValue::Utf8String(s) => (ty.clone(), s.clone()),
            other => panic!("unexpected value {other:?}"),
        })
        .collect()
}

#[test]
fn unknown_attribute_is_reported_in_upper_case() {
    match DnTemplate::parse("CN=x, zz=y") {
        Err(DnError::UnsupportedAttribute { attribute }) => assert_eq!(attribute, "ZZ"),
        other => panic!("unexpected result {other:?}"),
    }
}

#[test]
fn component_without_equals_is_refused() {
    match DnTemplate::parse("OU=NIFI,  admin ") {
        Err(DnError::MissingEquals { component }) => assert_eq!(component, "admin"),
        other => panic!("unexpected result {other:?}"),
    }
}

#[test]
fn first_refusal_wins() {
    match DnTemplate::parse("QQ=1, nothing") {
        Err(DnError::UnsupportedAttribute { attribute }) => assert_eq!(attribute, "QQ"),
        other => panic!("unexpected result {other:?}"),
    }
}

#[test]
fn keys_are_case_insensitive_and_long_names_work() {
    let tmpl = DnTemplate::parse(
        "cn=ignored, o=Acme, organizationalUnitName=NIFI, l=Town, s=State, countryName=DE",
    )
    .unwrap();
    let dn = tmpl.build("host");
    assert_eq!(
        entries(&dn),
        vec![
            (DnType::CommonName, "host".to_string()),
            (DnType::OrganizationName, "Acme".to_string()),
            (DnType::OrganizationalUnitName, "NIFI".to_string()),
            (DnType::LocalityName, "Town".to_string()),
            (DnType::StateOrProvinceName, "State".to_string()),
            (DnType::CountryName, "DE".to_string()),
        ]
    );
}

#[test]
fn blank_components_and_whitespace_are_ignored() {
    let tmpl = DnTemplate::parse(" , OU = NIFI ,,\tST=Some State ,").unwrap();
    let dn = tmpl.build("n");
    assert_eq!(
        entries(&dn),
        vec![
            (DnType::CommonName, "n".to_string()),
            (DnType::OrganizationalUnitName, "NIFI".to_string()),
            (DnType::StateOrProvinceName, "Some State".to_string()),
        ]
    );
}

#[test]
fn repeated_attribute_keeps_first_place_and_last_value() {
    let tmpl = DnTemplate::parse("OU=A, O=Org, OU=B").unwrap();
    let dn = tmpl.build("n");
    assert_eq!(
        entries(&dn),
        vec![
            (DnType::CommonName, "n".to_string()),
            (DnType::OrganizationalUnitName, "B".to_string()),
            (DnType::OrganizationName, "Org".to_string()),
        ]
    );
}

#[test]
fn empty_template_gives_only_the_common_name() {
    let tmpl = DnTemplate::parse("").unwrap();
    let dn = tmpl.build("ca.nifi");
    assert_eq!(entries(&dn), vec![(DnType::CommonName, "ca.nifi".to_string())]);
}

#[test]
fn value_keeps_later_equals_signs() {
    let tmpl = DnTemplate::parse("O=a=b").unwrap();
    let dn = tmpl.build("n");
    assert_eq!(dn.get(&DnType::OrganizationName), Some(&"a=b".into()));
}
