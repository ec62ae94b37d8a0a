use std::collections::BTreeMap;

use direct_authenticator::cbor::dec_cbor_map;
use direct_authenticator::codec::CredentialData;
use direct_authenticator::directory::{configure_enrollers, EnrollerConfig};
use direct_authenticator::issuer::CredentialSigner;
use direct_authenticator::server::{LegacyRecord, Server};
use direct_authenticator::store::AttributeStore;
use direct_authenticator::types::IdentityId;

struct TestSigner;

impl CredentialSigner for TestSigner {
    fn sign(&mut self, _data: &CredentialData) -> Result<Vec<u8>, Vec<u8>> {
        Ok(Vec::new())
    }
}

fn legacy_map(pairs: &[(&str, &str)]) -> Vec<u8> {
    let mut m: BTreeMap<String, String> = BTreeMap::new();
    for (k, v) in pairs {
        m.insert(k.to_string(), v.to_string());
    }
    minicbor::to_vec(&m).expect("a map of strings encodes")
}

fn build(legacy: Vec<LegacyRecord>) -> Result<Server<TestSigner>, direct_authenticator::server::MigrationError> {
    let directory = match configure_enrollers(r#"{"E1": {}}"#.to_string(), false) {
        EnrollerConfig::Ready(d) => d,
        EnrollerConfig::NeedsFile(_) => panic!("inline"),
    };
    Server::new(
        b"proj-1".to_vec(),
        AttributeStore::new(),
        directory,
        TestSigner,
        &legacy,
        77,
    )
}

#[test]
fn cbor_decoder_reads_what_the_reference_encoder_wrote() {
    let bytes = legacy_map(&[("city", "berlin"), ("role", "member")]);
    let pairs = dec_cbor_map(&bytes).expect("a definite map of text strings");
    assert_eq!(pairs.len(), 2);
    // serde-independent: BTreeMap iterates its keys sorted
    assert_eq!(pairs[0].0, b"city".to_vec());
    assert_eq!(pairs[0].1, b"berlin".to_vec());
    assert_eq!(pairs[1].0, b"role".to_vec());
    assert_eq!(pairs[1].1, b"member".to_vec());
}

#[test]
fn cbor_decoder_refuses_non_maps() {
    let bytes = minicbor::to_vec(&"just a string").expect("encodes");
    assert!(dec_cbor_map(&bytes).is_none());
    assert!(dec_cbor_map(&vec![]).is_none());
}

#[test]
fn migration_converts_legacy_records() {
    let legacy = vec![
        LegacyRecord {
            key: b"M7".to_vec(),
            value: legacy_map(&[("role", "member")]),
        },
        LegacyRecord {
            key: b"M8".to_vec(),
            value: legacy_map(&[("team", "A"), ("role", "guest")]),
        },
    ];
    let server = build(legacy).expect("both records decode");
    let e7 = server.member_entry(&IdentityId::new(b"M7".to_vec())).expect("migrated");
    assert_eq!(e7.created_at, 77);
    assert!(e7.expires_at.is_none());
    assert!(e7.attested_by.is_none());
    assert_eq!(e7.attrs.len(), 1);
    assert_eq!(e7.attrs[0].name, b"role".to_vec());
    assert_eq!(e7.attrs[0].value, b"member".to_vec());
    let e8 = server.member_entry(&IdentityId::new(b"M8".to_vec())).expect("migrated");
    assert_eq!(e8.attrs.len(), 2);
}

#[test]
fn one_bad_record_aborts_construction() {
    let legacy = vec![
        LegacyRecord {
            key: b"M7".to_vec(),
            value: legacy_map(&[("role", "member")]),
        },
        LegacyRecord {
            key: b"M9".to_vec(),
            value: vec![0xff, 0x00],
        },
    ];
    match build(legacy) {
        Err(e) => assert_eq!(e.key, b"M9".to_vec()),
        Ok(_) => panic!("the second record does not decode"),
    }
}
