//! Per-node work: which hosts to issue for, whether to (re)issue, and the
//! keystore, truststore and `nifi.properties` contents of one node.

use vstd::prelude::*;

use crate::cert::{self, valid_host, CertError};
use crate::dn::DnTemplate;
use crate::jks::{self, fits_java_utf, jks_file, JksError, TrustedCertEntry};
use crate::keys::{self, KeyError};
use crate::pkcs12::{self, Pkcs12Error};
use crate::properties::{self, merged_properties};
use crate::text::{chars_of, string_from_chars, trim, trim_chars};

verus! {

/// The hosts to issue for: each name trimmed, blank names skipped, order
/// kept.
pub open spec fn node_host_list(names: Seq<Seq<char>>) -> Seq<Seq<char>>
    decreases names.len(),
{
    if names.len() == 0 {
        seq![]
    } else {
        let prev = node_host_list(names.drop_last());
        let t = trim(names.last());
        if t.len() == 0 {
            prev
        } else {
            prev.push(t)
        }
    }
}

/// The hosts to issue for, from the `--hostnames` list: each entry trimmed,
/// blank entries skipped, order kept.
pub fn node_hosts(names: &Vec<String>) -> (hosts: Vec<String>)
    ensures
        hosts@.map_values(|h: String| h@) == node_host_list(names@.map_values(|n: String| n@)),
{
    let ghost nv = names@.map_values(|n: String| n@);
    let mut hosts: Vec<String> = Vec::new();
    let mut i: usize = 0;
    while i < names.len()
        invariant
            nv == names@.map_values(|n: String| n@),
            i <= names@.len(),
            hosts@.map_values(|h: String| h@) == node_host_list(nv.take(i as int)),
        decreases names@.len() - i,
    {
        assert(nv.take(i + 1).drop_last() == nv.take(i as int));
        assert(nv.take(i + 1).last() == names@[i as int]@);
        let chars = chars_of(names[i].as_str());
        let t = trim_chars(chars.as_slice());
        if t.len() > 0 {
            let ghost before = hosts@.map_values(|h: String| h@);
            let host = string_from_chars(t.as_slice());
            hosts.push(host);
            assert(hosts@.map_values(|h: String| h@) == before.push(t@));
        }
        i = i + 1;
    }
    assert(nv.take(names@.len() as int) == nv);
    hosts
}

/// What to do for one host.
#[derive(Debug, PartialEq, Eq, Structural)]
pub enum HostPlan {
    /// Leave the host's files alone.
    Skip,
    /// Issue a key, certificate, keystore, truststore and properties.
    Issue,
}

/// A host whose keystore already exists is skipped unless `force` is set.
pub fn plan_host(keystore_exists: bool, force: bool) -> (plan: HostPlan)
    ensures
        plan == (if keystore_exists && !force {
            HostPlan::Skip
        } else {
            HostPlan::Issue
        }),
{
    if keystore_exists && !force {
        HostPlan::Skip
    } else {
        HostPlan::Issue
    }
}

/// The files of one node.
pub struct NodeMaterial {
    /// `keystore.p12`.
    pub keystore: Vec<u8>,
    /// `truststore.jks`.
    pub truststore: Vec<u8>,
    /// `nifi.properties`.
    pub properties: String,
}

/// Why a node's files could not be made.
#[derive(Debug)]
pub enum NodeError {
    Key(KeyError),
    Certificate(CertError),
    Keystore(Pkcs12Error),
    Truststore(JksError),
}

/// Makes the files of the node `host` around the key pair `leaf_key`: a
/// certificate for `CN=<host>` plus the template's RDNs with `host` as its
/// one alternative name, signed by the CA; a PKCS#12 keystore of key and
/// certificate under the alias `host` with the CA certificate as chain; a
/// JKS truststore trusting the CA certificate under the alias `ca_name`;
/// and the template merged with the security settings. One password
/// protects keystore, key and truststore.
pub fn issue_node_with_key(
    host: &str,
    leaf_key: rcgen::KeyPair,
    ca_name: &str,
    ca_cert_der: &[u8],
    issuer: &rcgen::Issuer<'static, rcgen::KeyPair>,
    dn_template: &DnTemplate,
    base_properties: &str,
    password: &str,
) -> (res: Result<NodeMaterial, NodeError>)
    ensures
        !valid_host(host@) ==> res is Err,
        !fits_java_utf(ca_name@) ==> res is Err,
        res matches Err(e) ==> !(e is Key),
        res matches Err(e) ==> (e matches NodeError::Certificate(c) && c is InvalidHost
            <==> !valid_host(host@)),
        res matches Err(e) ==> (e is Truststore ==> !fits_java_utf(ca_name@)),
        res matches Ok(m) ==> {
            &&& m.properties@ == merged_properties(base_properties@, password@)
            &&& exists|timestamp: i64|
                timestamp >= 0 && jks_file(seq![(ca_name@, ca_cert_der@)], password@, timestamp)
                    == Some(m.truststore@)
        },
{
    let params = match cert::leaf_params(dn_template.build(host), host) {
        Ok(p) => p,
        Err(e) => return Err(NodeError::Certificate(e)),
    };
    let leaf_cert = match cert::issue_leaf(&params, &leaf_key, issuer) {
        Ok(c) => c,
        Err(e) => return Err(NodeError::Certificate(e)),
    };
    let leaf_cert_der = cert::certificate_der(&leaf_cert);
    let leaf_key_der = keys::key_der(&leaf_key);
    let keystore = match pkcs12::keystore_der(
        leaf_cert_der.as_slice(),
        leaf_key_der.as_slice(),
        ca_cert_der,
        password,
        host,
    ) {
        Ok(k) => k,
        Err(e) => return Err(NodeError::Keystore(e)),
    };
    let mut entries: Vec<TrustedCertEntry> = Vec::new();
    entries.push(TrustedCertEntry { alias: ca_name, cert_der: ca_cert_der });
    assert(jks::entries_view(entries@) == seq![(ca_name@, ca_cert_der@)]);
    let truststore = match jks::truststore_bytes(entries.as_slice(), password) {
        Ok(t) => t,
        Err(e) => {
            return Err(NodeError::Truststore(e));
        },
    };
    proof {
        assert(entries@[0].alias@ == ca_name@);
    }
    let properties = properties::merge(base_properties, password);
    Ok(NodeMaterial { keystore, truststore, properties })
}

/// Makes the files of the node `host` around a newly generated RSA-2048
/// key pair, as `issue_node_with_key` makes them.
pub fn issue_node(
    host: &str,
    ca_name: &str,
    ca_cert_der: &[u8],
    issuer: &rcgen::Issuer<'static, rcgen::KeyPair>,
    dn_template: &DnTemplate,
    base_properties: &str,
    password: &str,
) -> (res: Result<NodeMaterial, NodeError>)
    ensures
        !valid_host(host@) ==> res is Err,
        !fits_java_utf(ca_name@) ==> res is Err,
        res matches Err(e) ==> (e matches NodeError::Key(k) ==> k != KeyError::Parse),
        res matches Err(e) ==> ((e matches NodeError::Certificate(c) && c is InvalidHost)
            ==> !valid_host(host@)),
        res matches Err(e) ==> (e is Truststore ==> !fits_java_utf(ca_name@)),
        res matches Ok(m) ==> {
            &&& m.properties@ == merged_properties(base_properties@, password@)
            &&& exists|timestamp: i64|
                timestamp >= 0 && jks_file(seq![(ca_name@, ca_cert_der@)], password@, timestamp)
                    == Some(m.truststore@)
        },
{
    let leaf_key = match keys::generate_rsa_keypair() {
        Ok(k) => k,
        Err(e) => return Err(NodeError::Key(e)),
    };
    issue_node_with_key(
        host,
        leaf_key,
        ca_name,
        ca_cert_der,
        issuer,
        dn_template,
        base_properties,
        password,
    )
}

} // verus!
