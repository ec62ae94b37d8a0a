use direct_authenticator::cache::TOKEN_CACHE_CAPACITY;
use direct_authenticator::client::Client;
use direct_authenticator::codec::{
    dec_resp_head, enc_req_head_into, Credential, CredentialData, OneTimeCode, RequestHeader,
    METHOD_GET, STATUS_BAD_REQUEST, STATUS_FORBIDDEN, STATUS_METHOD_NOT_ALLOWED, STATUS_NOT_FOUND,
    STATUS_OK,
};
use direct_authenticator::directory::{configure_enrollers, configure_enrollers_from_file, EnrollerConfig};
use direct_authenticator::issuer::CredentialSigner;
use direct_authenticator::server::{LegacyRecord, Server};
use direct_authenticator::store::AttributeStore;
use direct_authenticator::types::{Attr, IdentityId};

struct TestSigner;

impl CredentialSigner for TestSigner {
    fn sign(&mut self, _data: &CredentialData) -> Result<Vec<u8>, Vec<u8>> {
        Ok(b"test-signature".to_vec())
    }
}

struct FailingSigner;

impl CredentialSigner for FailingSigner {
    fn sign(&mut self, _data: &CredentialData) -> Result<Vec<u8>, Vec<u8>> {
        Err(b"signer offline".to_vec())
    }
}

fn id(s: &str) -> IdentityId {
    IdentityId::new(s.as_bytes().to_vec())
}

fn attr(name: &str, value: &str) -> Attr {
    Attr::new(name.as_bytes().to_vec(), value.as_bytes().to_vec())
}

fn server_with_enrollers(doc: &str) -> Server<TestSigner> {
    let directory = match configure_enrollers(doc.to_string(), false) {
        EnrollerConfig::Ready(d) => d,
        EnrollerConfig::NeedsFile(_) => panic!("the document must parse inline"),
    };
    Server::new(
        b"proj-1".to_vec(),
        AttributeStore::new(),
        directory,
        TestSigner,
        &Vec::<LegacyRecord>::new(),
        0,
    )
    .expect("no legacy records, so construction succeeds")
}

fn fresh(byte: u8) -> OneTimeCode {
    OneTimeCode::from_bytes(vec![byte; 32]).expect("32 bytes")
}

fn mint(server: &mut Server<TestSigner>, client: &mut Client, seed: u8, now: u64) -> OneTimeCode {
    let req = client.create_token_request(&vec![attr("role", "member")]);
    let resp = server.handle_message(Some(&id("E1")), &req, now, &fresh(seed), None);
    client
        .create_token_response(&resp)
        .expect("an enroller may mint")
}

fn has_attr(c: &Credential, name: &str, value: &str) -> bool {
    c.data
        .attrs
        .iter()
        .any(|a| a.name == name.as_bytes().to_vec() && a.value == value.as_bytes().to_vec())
}

#[test]
fn s1_mint_then_first_credential() {
    let mut server = server_with_enrollers(r#"{"E1": {"name": "enroller one"}}"#);
    let mut client = Client::new();
    let code = mint(&mut server, &mut client, 7, 0);
    assert_eq!(code.code.len(), 32);

    let req = client.credential_with_request(&code);
    let resp = server.handle_message(Some(&id("M1")), &req, 1, &fresh(8), None);
    let cred = client.credential_response(&resp).expect("a live token redeems");
    assert_eq!(cred.data.subject.bytes, b"M1".to_vec());
    assert_eq!(cred.data.schema, 1);
    assert!(has_attr(&cred, "role", "member"));
    assert!(has_attr(&cred, "project_id", "proj-1"));
    assert_eq!(cred.signature, b"test-signature".to_vec());
}

#[test]
fn s2_second_redemption_is_refused() {
    let mut server = server_with_enrollers(r#"{"E1": {}}"#);
    let mut client = Client::new();
    let code = mint(&mut server, &mut client, 7, 0);

    let req = client.credential_with_request(&code);
    let resp = server.handle_message(Some(&id("M1")), &req, 1, &fresh(8), None);
    client.credential_response(&resp).expect("first redemption");

    let req2 = client.credential_with_request(&code);
    let resp2 = server.handle_message(Some(&id("M1")), &req2, 2, &fresh(9), None);
    let err = client.credential_response(&resp2).expect_err("single use");
    assert_eq!(err.message, b"unknown token".to_vec());
}

#[test]
fn s3_expired_token_is_refused_and_writes_nothing() {
    let mut server = server_with_enrollers(r#"{"E1": {}}"#);
    let mut client = Client::new();
    let code = mint(&mut server, &mut client, 7, 0);

    let req = client.credential_with_request(&code);
    let resp = server.handle_message(Some(&id("M1")), &req, 601, &fresh(8), None);
    let err = client.credential_response(&resp).expect_err("expired");
    assert_eq!(err.message, b"expired token".to_vec());
    assert!(server.member_entry(&id("M1")).is_none());
}

#[test]
fn s3_boundary_just_in_time_redemption() {
    let mut server = server_with_enrollers(r#"{"E1": {}}"#);
    let mut client = Client::new();
    let code = mint(&mut server, &mut client, 7, 0);
    // exactly 600 seconds old: still live
    let req = client.credential_with_request(&code);
    let resp = server.handle_message(Some(&id("M1")), &req, 600, &fresh(8), None);
    client.credential_response(&resp).expect("the boundary is inclusive");
}

#[test]
fn s4_non_enroller_cannot_add_members() {
    let mut server = server_with_enrollers(r#"{"E1": {}}"#);
    let mut client = Client::new();
    let req = client.add_member_request(&id("M2"), &vec![attr("team", "A")]);
    let resp = server.handle_message(Some(&id("X")), &req, 0, &fresh(1), None);
    let err = client.add_member_response(&resp).expect_err("not an enroller");
    assert_eq!(err.message, b"unauthorized enroller".to_vec());
    assert!(server.member_entry(&id("M2")).is_none());
}

#[test]
fn s5_direct_member_gets_credential_from_entry() {
    let mut server = server_with_enrollers(r#"{"E1": {}}"#);
    let mut client = Client::new();
    let req = client.add_member_request(&id("M2"), &vec![attr("team", "A")]);
    let resp = server.handle_message(Some(&id("E1")), &req, 5, &fresh(1), None);
    client.add_member_response(&resp).expect("an enroller may add");

    let entry = server.member_entry(&id("M2")).expect("the entry was written");
    assert_eq!(entry.created_at, 5);
    assert!(entry.expires_at.is_none());
    assert_eq!(
        entry.attested_by.as_ref().map(|a| a.bytes.clone()),
        Some(b"E1".to_vec())
    );

    let req2 = client.credential_request();
    let resp2 = server.handle_message(Some(&id("M2")), &req2, 6, &fresh(2), None);
    let cred = client.credential_response(&resp2).expect("a member gets a credential");
    assert_eq!(cred.data.subject.bytes, b"M2".to_vec());
    assert!(has_attr(&cred, "team", "A"));
    assert!(has_attr(&cred, "project_id", "proj-1"));
}

#[test]
fn s6_unknown_member_is_refused() {
    let mut server = server_with_enrollers(r#"{"E1": {}}"#);
    let mut client = Client::new();
    let req = client.credential_request();
    let resp = server.handle_message(Some(&id("M3")), &req, 0, &fresh(1), None);
    let err = client.credential_response(&resp).expect_err("no entry");
    assert_eq!(err.message, b"unauthorized member".to_vec());
}

#[test]
fn channel_gating_refuses_and_mutates_nothing() {
    let mut server = server_with_enrollers(r#"{"E1": {}}"#);
    let mut client = Client::new();
    let req = client.create_token_request(&vec![attr("role", "member")]);
    let resp = server.handle_message(None, &req, 0, &fresh(1), None);
    let err = client.create_token_response(&resp).expect_err("no channel");
    assert_eq!(err.message, b"secure channel required".to_vec());
    assert_eq!(server.token_count(), 0);
}

#[test]
fn attestation_of_token_enrollment_names_the_minter() {
    let mut server = server_with_enrollers(r#"{"E1": {}}"#);
    let mut client = Client::new();
    let code = mint(&mut server, &mut client, 7, 0);
    let req = client.credential_with_request(&code);
    let resp = server.handle_message(Some(&id("M1")), &req, 1, &fresh(8), None);
    client.credential_response(&resp).expect("redeems");
    let entry = server.member_entry(&id("M1")).expect("written by redemption");
    assert_eq!(
        entry.attested_by.as_ref().map(|a| a.bytes.clone()),
        Some(b"E1".to_vec())
    );
}

#[test]
fn cache_holds_at_most_its_capacity() {
    let mut server = server_with_enrollers(r#"{"E1": {}}"#);
    let mut client = Client::new();
    for i in 0..200u32 {
        let req = client.create_token_request(&vec![attr("n", &i.to_string())]);
        let mut code = vec![0u8; 32];
        code[0] = (i % 256) as u8;
        code[1] = (i / 256) as u8;
        let fresh_code = OneTimeCode::from_bytes(code).unwrap();
        let resp = server.handle_message(Some(&id("E1")), &req, 0, &fresh_code, None);
        client.create_token_response(&resp).expect("mints");
    }
    assert_eq!(server.token_count(), TOKEN_CACHE_CAPACITY);
}

#[test]
fn eviction_invalidates_the_oldest_code() {
    let mut server = server_with_enrollers(r#"{"E1": {}}"#);
    let mut client = Client::new();
    let first = mint(&mut server, &mut client, 0, 0);
    for i in 1..=128u8 {
        mint(&mut server, &mut client, i, 0);
    }
    let req = client.credential_with_request(&first);
    let resp = server.handle_message(Some(&id("M1")), &req, 1, &fresh(200), None);
    let err = client.credential_response(&resp).expect_err("evicted");
    assert_eq!(err.message, b"unknown token".to_vec());
}

#[test]
fn hot_reload_follows_the_file() {
    let directory = configure_enrollers_from_file(
        "enrollers.json".to_string(),
        r#"{"E1": {}}"#,
        true,
    )
    .expect("the contents parse");
    let mut server = Server::new(
        b"proj-1".to_vec(),
        AttributeStore::new(),
        directory,
        TestSigner,
        &Vec::<LegacyRecord>::new(),
        0,
    )
    .expect("no legacy records");
    assert_eq!(server.reload_path().map(|p| p.as_str()), Some("enrollers.json"));
    let mut client = Client::new();

    // with the old file contents, E2 is not an enroller
    let req = client.create_token_request(&vec![attr("role", "member")]);
    let reload_old = Some(Ok(r#"{"E1": {}}"#.to_string()));
    let resp = server.handle_message(Some(&id("E2")), &req, 0, &fresh(1), reload_old);
    let err = client.create_token_response(&resp).expect_err("not yet listed");
    assert_eq!(err.message, b"unauthorized enroller".to_vec());

    // after the file gains E2, the same peer may mint
    let req2 = client.create_token_request(&vec![attr("role", "member")]);
    let reload_new = Some(Ok(r#"{"E1": {}, "E2": {}}"#.to_string()));
    let resp2 = server.handle_message(Some(&id("E2")), &req2, 0, &fresh(2), reload_new);
    client.create_token_response(&resp2).expect("now listed");

    // and a file that fails to read fails the request
    let req3 = client.create_token_request(&vec![attr("role", "member")]);
    let reload_err = Some(Err(b"read failed".to_vec()));
    let resp3 = server.handle_message(Some(&id("E1")), &req3, 0, &fresh(3), reload_err);
    let err3 = client.create_token_response(&resp3).expect_err("reload failed");
    assert_eq!(err3.message, b"read failed".to_vec());
}

#[test]
fn unknown_path_and_wrong_method() {
    let mut server = server_with_enrollers(r#"{"E1": {}}"#);
    // unknown path
    let mut req = Vec::new();
    enc_req_head_into(
        &mut req,
        &RequestHeader {
            id: 9,
            method: 1,
            path: b"/nothing".to_vec(),
            has_body: false,
        },
    );
    let resp = server.handle_message(Some(&id("E1")), &req, 0, &fresh(1), None);
    let (head, _) = dec_resp_head(&resp, 0).expect("a framed response");
    assert_eq!(head.re, 9);
    assert_eq!(head.status, STATUS_NOT_FOUND);

    // wrong method
    let mut req2 = Vec::new();
    enc_req_head_into(
        &mut req2,
        &RequestHeader {
            id: 10,
            method: METHOD_GET,
            path: b"/tokens".to_vec(),
            has_body: false,
        },
    );
    let resp2 = server.handle_message(Some(&id("E1")), &req2, 0, &fresh(1), None);
    let (head2, _) = dec_resp_head(&resp2, 0).expect("a framed response");
    assert_eq!(head2.re, 10);
    assert_eq!(head2.status, STATUS_METHOD_NOT_ALLOWED);
}

#[test]
fn malformed_frames_get_bad_request() {
    let mut server = server_with_enrollers(r#"{"E1": {}}"#);
    // an unparsable header
    let resp = server.handle_message(Some(&id("E1")), &vec![1, 2, 3], 0, &fresh(1), None);
    let (head, _) = dec_resp_head(&resp, 0).expect("a framed response");
    assert_eq!(head.status, STATUS_BAD_REQUEST);
    assert_eq!(head.re, 0);

    // a parsable header with a garbage body
    let mut req = Vec::new();
    enc_req_head_into(
        &mut req,
        &RequestHeader {
            id: 4,
            method: 1,
            path: b"/tokens".to_vec(),
            has_body: true,
        },
    );
    req.push(0xff);
    let resp2 = server.handle_message(Some(&id("E1")), &req, 0, &fresh(1), None);
    let (head2, _) = dec_resp_head(&resp2, 0).expect("a framed response");
    assert_eq!(head2.re, 4);
    assert_eq!(head2.status, STATUS_BAD_REQUEST);
}

#[test]
fn signer_failure_surfaces_as_internal_error() {
    let directory = match configure_enrollers(r#"{"E1": {}}"#.to_string(), false) {
        EnrollerConfig::Ready(d) => d,
        EnrollerConfig::NeedsFile(_) => panic!("inline"),
    };
    let mut server = Server::new(
        b"proj-1".to_vec(),
        AttributeStore::new(),
        directory,
        FailingSigner,
        &Vec::<LegacyRecord>::new(),
        0,
    )
    .expect("no legacy records");
    let mut client = Client::new();
    let req = client.add_member_request(&id("M2"), &vec![attr("team", "A")]);
    let resp = server.handle_message(Some(&id("E1")), &req, 0, &fresh(1), None);
    client.add_member_response(&resp).expect("adding needs no signer");

    let req2 = client.credential_request();
    let resp2 = server.handle_message(Some(&id("M2")), &req2, 1, &fresh(2), None);
    let err = client.credential_response(&resp2).expect_err("signing failed");
    assert_eq!(err.message, b"signer offline".to_vec());
    let (head, _) = dec_resp_head(&resp2, 0).expect("a framed response");
    assert_ne!(head.status, STATUS_OK);
    assert_eq!(head.status, direct_authenticator::codec::STATUS_INTERNAL_ERROR);
    assert_eq!(head.status, 5);
    assert_ne!(head.status, STATUS_FORBIDDEN);
}

#[test]
fn last_writer_wins_on_duplicate_members() {
    let mut server = server_with_enrollers(r#"{"E1": {}}"#);
    let mut client = Client::new();
    let req = client.add_member_request(&id("M2"), &vec![attr("team", "A")]);
    let resp = server.handle_message(Some(&id("E1")), &req, 1, &fresh(1), None);
    client.add_member_response(&resp).expect("first write");
    let req2 = client.add_member_request(&id("M2"), &vec![attr("team", "B")]);
    let resp2 = server.handle_message(Some(&id("E1")), &req2, 2, &fresh(2), None);
    client.add_member_response(&resp2).expect("second write");
    let entry = server.member_entry(&id("M2")).expect("still one entry");
    assert_eq!(entry.created_at, 2);
    assert_eq!(entry.attrs.len(), 1);
    assert_eq!(entry.attrs[0].value, b"B".to_vec());
}
