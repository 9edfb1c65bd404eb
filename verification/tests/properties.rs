use nifi_tls_gen::properties::{merge, repeated_keys};

const SECURITY_LINES: [&str; 7] = [
    "nifi.security.keystore=./keystore.p12",
    "nifi.security.keystoreType=PKCS12",
    "nifi.security.keystorePasswd=changeit123",
    "nifi.security.keyPasswd=changeit123",
    "nifi.security.truststore=./truststore.jks",
    "nifi.security.truststoreType=JKS",
    "nifi.security.truststorePasswd=changeit123",
];

#[test]
fn nifi_properties_has_expected_keys() {
    let contents = merge("", "changeit123");

    let expected = [
        ("nifi.security.keystore", "./keystore.p12"),
        ("nifi.security.keystoreType", "PKCS12"),
        ("nifi.security.keystorePasswd", "changeit123"),
        ("nifi.security.keyPasswd", "changeit123"),
        ("nifi.security.truststore", "./truststore.jks"),
        ("nifi.security.truststoreType", "JKS"),
        ("nifi.security.truststorePasswd", "changeit123"),
    ];

    for (key, value) in expected {
        let needle = format!("{key}={value}");
        assert!(
            contents.lines().any(|line| line == needle),
            "expected line {needle:?} in nifi.properties, got:\n{contents}"
        );
    }

    for line in contents.lines() {
        assert_eq!(line.trim(), line, "line has surrounding whitespace: {line:?}");
        assert!(!line.contains('"'), "line should not be quoted: {line:?}");
    }
}

#[test]
fn empty_template_gets_exactly_the_seven_lines() {
    let expected: String = SECURITY_LINES.iter().map(|l| format!("{l}\n")).collect();
    assert_eq!(merge("", "changeit123"), expected);
}

#[test]
fn all_keys_rewritten_in_place_without_changing_line_count() {
    let template = "# NiFi settings\n\
nifi.security.keystore=old.jks\n\
nifi.web.https.port=8443\n\
\n\
nifi.security.keystoreType=JKS\n\
nifi.security.keystorePasswd=\n\
# comment about keys\n\
nifi.security.keyPasswd=secret\n\
nifi.security.truststore=\n\
nifi.security.truststoreType=\n\
nifi.sensitive.props.key=abc\n\
nifi.security.truststorePasswd=x\n";
    let merged = merge(template, "changeit123");
    let expected = "# NiFi settings\n\
nifi.security.keystore=./keystore.p12\n\
nifi.web.https.port=8443\n\
\n\
nifi.security.keystoreType=PKCS12\n\
nifi.security.keystorePasswd=changeit123\n\
# comment about keys\n\
nifi.security.keyPasswd=changeit123\n\
nifi.security.truststore=./truststore.jks\n\
nifi.security.truststoreType=JKS\n\
nifi.sensitive.props.key=abc\n\
nifi.security.truststorePasswd=changeit123\n";
    assert_eq!(merged, expected);
    assert_eq!(merged.lines().count(), template.lines().count());
}

#[test]
fn missing_keys_are_appended_in_order() {
    let template = "a=1\nnifi.security.keyPasswd=old\n# end";
    let merged = merge(template, "pw");
    assert_eq!(
        merged,
        "a=1\nnifi.security.keyPasswd=pw\n# end\n\
nifi.security.keystore=./keystore.p12\n\
nifi.security.keystoreType=PKCS12\n\
nifi.security.keystorePasswd=pw\n\
nifi.security.truststore=./truststore.jks\n\
nifi.security.truststoreType=JKS\n\
nifi.security.truststorePasswd=pw\n"
    );
}

#[test]
fn appended_keys_follow_a_final_newline_directly() {
    let merged = merge("a=1\n", "pw");
    assert!(merged.starts_with("a=1\nnifi.security.keystore=./keystore.p12\n"));
    assert!(merged.ends_with("nifi.security.truststorePasswd=pw\n"));
    assert_eq!(merged.lines().count(), 8);
}

#[test]
fn only_first_occurrence_is_rewritten() {
    let template = "nifi.security.keystore=first\nnifi.security.keystore=second\n";
    let merged = merge(template, "pw");
    assert!(merged.starts_with(
        "nifi.security.keystore=./keystore.p12\nnifi.security.keystore=second\n"
    ));
    assert_eq!(repeated_keys(template), vec!["nifi.security.keystore".to_string()]);
    assert!(repeated_keys("nifi.security.keystore=x\n").is_empty());
}

#[test]
fn leading_whitespace_on_a_key_is_tolerated() {
    let merged = merge("  \tnifi.security.truststoreType=PKCS12\n", "pw");
    let first = merged.lines().next().unwrap();
    assert_eq!(first, "nifi.security.truststoreType=JKS");
}

#[test]
fn similar_keys_and_comments_do_not_match() {
    let template = "#nifi.security.keystore=commented\nnifi.security.keystoreX=1\nnifi.security.keystore =spaced\n";
    let merged = merge(template, "pw");
    assert!(merged.starts_with(template));
    assert!(merged.contains("\nnifi.security.keystore=./keystore.p12\n"));
}

#[test]
fn merge_is_idempotent() {
    for template in ["", "x=1", "nifi.security.keyPasswd=a\n\n# c\n", "a\r\nb"] {
        let once = merge(template, "pw");
        assert_eq!(merge(&once, "pw"), once);
    }
}

#[test]
fn crlf_lines_other_than_rewritten_ones_are_kept() {
    let merged = merge("a=1\r\nnifi.security.keyPasswd=x\r\nb=2\r\n", "pw");
    assert!(merged.starts_with("a=1\r\nnifi.security.keyPasswd=pw\nb=2\r\n"));
}
