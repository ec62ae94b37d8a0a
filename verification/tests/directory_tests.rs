use direct_authenticator::client::Client;
use direct_authenticator::directory::{
    configure_enrollers, configure_enrollers_from_file, parse_enroller_doc, EnrollerConfig,
    EnrollerDirectory,
};
use direct_authenticator::models::{
    Auth0Token, AuthenticateAuth0Token, AuthenticateEnrollmentToken, DefaultAddress,
    EnrollmentToken, LongIdentityResponse, RequestEnrollmentToken, ShortIdentityResponse, Token,
    TokenType,
};
use direct_authenticator::types::{Attr, IdentityId};

fn id(s: &str) -> IdentityId {
    IdentityId::new(s.as_bytes().to_vec())
}

#[test]
fn a_document_parses_inline() {
    match configure_enrollers(r#"{"E1": {"role": "admin"}, "E2": 7}"#.to_string(), false) {
        EnrollerConfig::Ready(d) => {
            assert!(d.contains(&id("E1")));
            assert!(d.contains(&id("E2")));
            assert!(!d.contains(&id("E3")));
            assert!(d.reload_path().is_none());
        },
        EnrollerConfig::NeedsFile(_) => panic!("a JSON object parses inline"),
    }
}

#[test]
fn a_non_document_is_taken_as_a_path() {
    match configure_enrollers("/etc/enrollers.json".to_string(), true) {
        EnrollerConfig::Ready(_) => panic!("a bare path is not a JSON object"),
        EnrollerConfig::NeedsFile(p) => assert_eq!(p, "/etc/enrollers.json".to_string()),
    }
}

#[test]
fn file_contents_decide_the_second_attempt() {
    let d = configure_enrollers_from_file("a.json".to_string(), r#"{"E9": {}}"#, true)
        .expect("the contents parse");
    assert!(d.contains(&id("E9")));
    assert_eq!(d.reload_path().map(|p| p.as_str()), Some("a.json"));
    assert!(configure_enrollers_from_file("a.json".to_string(), "not json", true).is_none());
}

#[test]
fn reload_replaces_members_only_on_success() {
    let mut d = EnrollerDirectory::new(vec![id("E1")], Some("p".to_string()), true);
    assert!(d.contains(&id("E1")));
    assert!(d.apply_document(r#"{"E2": {}}"#));
    assert!(!d.contains(&id("E1")));
    assert!(d.contains(&id("E2")));
    assert!(!d.apply_document("broken"));
    assert!(d.contains(&id("E2")));
}

#[test]
fn parse_enroller_doc_rejects_non_objects() {
    assert!(parse_enroller_doc("[1, 2]").is_none());
    assert!(parse_enroller_doc("").is_none());
    let members = parse_enroller_doc("{}").expect("an empty object parses");
    assert!(members.is_empty());
}

#[test]
fn client_rejects_garbage_responses() {
    let client = Client::new();
    let err = client
        .credential_response(&vec![9, 9, 9])
        .expect_err("not a frame");
    assert_eq!(err.message, b"invalid response".to_vec());
    let err2 = client
        .add_member_response(&vec![])
        .expect_err("not a frame");
    assert_eq!(err2.message, b"invalid response".to_vec());
}

#[test]
fn client_numbers_requests() {
    let mut client = Client::new();
    let _ = client.credential_request();
    let _ = client.credential_request();
    assert_eq!(client.next_id, 2);
}

#[test]
fn model_constructors_carry_their_fields() {
    let t = Token::new("abc".to_string());
    assert_eq!(t.0, "abc".to_string());
    let a = AuthenticateAuth0Token::new(Auth0Token {
        token_type: TokenType::Bearer,
        access_token: Token::new("x".to_string()),
    });
    assert_eq!(a.token_type, TokenType::Bearer);
    assert_eq!(a.access_token.0, "x".to_string());
    let ret = RequestEnrollmentToken::new(vec![Attr::new(b"a".to_vec(), b"1".to_vec())]);
    assert_eq!(ret.attributes.len(), 1);
    let et = EnrollmentToken::new(Token::new("tok".to_string()));
    let aet = AuthenticateEnrollmentToken::new(et);
    assert_eq!(aet.token.0, "tok".to_string());
    let long = LongIdentityResponse::new(vec![1, 2, 3]);
    assert_eq!(long.identity, vec![1, 2, 3]);
    let short = ShortIdentityResponse::new("P1".to_string());
    assert_eq!(short.identity_id, "P1".to_string());
    assert_eq!(DefaultAddress::AUTHENTICATOR, "authenticator");
    assert_eq!(DefaultAddress::VAULT_SERVICE, "vault_service");
}
