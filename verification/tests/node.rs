use nifi_tls_gen::node::{node_hosts, plan_host, HostPlan};

#[test]
fn hosts_are_trimmed_and_blank_ones_skipped() {
    let names = vec![
        " nifi-1 ".to_string(),
        "".to_string(),
        "\t".to_string(),
        "10.0.0.5".to_string(),
    ];
    assert_eq!(node_hosts(&names), vec!["nifi-1".to_string(), "10.0.0.5".to_string()]);
}

#[test]
fn existing_keystore_is_skipped_unless_forced() {
    assert_eq!(plan_host(true, false), HostPlan::Skip);
    assert_eq!(plan_host(true, true), HostPlan::Issue);
    assert_eq!(plan_host(false, false), HostPlan::Issue);
    assert_eq!(plan_host(false, true), HostPlan::Issue);
}
