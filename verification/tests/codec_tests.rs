use direct_authenticator::codec::{
    dec_add_member, dec_attrs, dec_create_token, dec_credential, dec_error, dec_otc, dec_req_head,
    dec_resp_head, dec_u64, enc_add_member_into, enc_attrs_into, enc_create_token_into,
    enc_credential_into, enc_error_into, enc_otc_into, enc_req_head_into, enc_resp_head_into,
    enc_u64_into, AddMember, CreateToken, Credential, CredentialData, OneTimeCode, RequestHeader,
    ResponseHeader, METHOD_POST, STATUS_OK,
};
use direct_authenticator::types::{Attr, IdentityId};

fn attr(name: &str, value: &str) -> Attr {
    Attr::new(name.as_bytes().to_vec(), value.as_bytes().to_vec())
}

#[test]
fn u64_is_big_endian() {
    let mut out = Vec::new();
    enc_u64_into(&mut out, 0x0102030405060708);
    assert_eq!(out, vec![1, 2, 3, 4, 5, 6, 7, 8]);
    let (x, j) = dec_u64(&out, 0).expect("eight bytes");
    assert_eq!(x, 0x0102030405060708);
    assert_eq!(j, 8);
    assert!(dec_u64(&vec![1, 2, 3], 0).is_none());
}

#[test]
fn request_header_round_trip() {
    let h = RequestHeader {
        id: 42,
        method: METHOD_POST,
        path: b"/tokens".to_vec(),
        has_body: true,
    };
    let mut out = Vec::new();
    enc_req_head_into(&mut out, &h);
    let (h2, j) = dec_req_head(&out, 0).expect("round trip");
    assert_eq!(j, out.len());
    assert_eq!(h2.id, 42);
    assert_eq!(h2.method, METHOD_POST);
    assert_eq!(h2.path, b"/tokens".to_vec());
    assert!(h2.has_body);
    // a frame with a flipped tag is refused
    let mut bad = out.clone();
    bad[0] = 9;
    assert!(dec_req_head(&bad, 0).is_none());
}

#[test]
fn response_header_round_trip() {
    let h = ResponseHeader {
        re: 7,
        status: STATUS_OK,
        has_body: false,
    };
    let mut out = Vec::new();
    enc_resp_head_into(&mut out, &h);
    assert_eq!(out.len(), 13);
    let (h2, j) = dec_resp_head(&out, 0).expect("round trip");
    assert_eq!(j, 13);
    assert_eq!(h2.re, 7);
    assert_eq!(h2.status, STATUS_OK);
    assert!(!h2.has_body);
}

#[test]
fn attrs_round_trip_keeps_order_and_duplicates() {
    let attrs = vec![attr("b", "2"), attr("a", "1"), attr("b", "3")];
    let mut out = Vec::new();
    enc_attrs_into(&mut out, &attrs);
    let (back, j) = dec_attrs(&out, 0).expect("round trip");
    assert_eq!(j, out.len());
    assert_eq!(back.len(), 3);
    assert_eq!(back[0].name, b"b".to_vec());
    assert_eq!(back[0].value, b"2".to_vec());
    assert_eq!(back[2].value, b"3".to_vec());
}

#[test]
fn create_token_and_add_member_round_trip() {
    let ct = CreateToken {
        attrs: vec![attr("role", "member")],
    };
    let mut out = Vec::new();
    enc_create_token_into(&mut out, &ct);
    let (back, _) = dec_create_token(&out, 0).expect("round trip");
    assert_eq!(back.attrs.len(), 1);
    assert_eq!(back.attrs[0].name, b"role".to_vec());

    let am = AddMember {
        member: IdentityId::new(b"M1".to_vec()),
        attrs: vec![attr("team", "A")],
    };
    let mut out2 = Vec::new();
    enc_add_member_into(&mut out2, &am);
    let (back2, _) = dec_add_member(&out2, 0).expect("round trip");
    assert_eq!(back2.member.bytes, b"M1".to_vec());
    assert_eq!(back2.attrs[0].value, b"A".to_vec());
}

#[test]
fn one_time_code_is_exactly_32_bytes() {
    assert!(OneTimeCode::from_bytes(vec![1; 31]).is_none());
    assert!(OneTimeCode::from_bytes(vec![1; 33]).is_none());
    let c = OneTimeCode::from_bytes(vec![9; 32]).expect("32 bytes");
    let mut out = Vec::new();
    enc_otc_into(&mut out, &c);
    assert_eq!(out.len(), 32);
    let back = dec_otc(&out, 0).expect("round trip");
    assert_eq!(back.code, vec![9; 32]);
    // a code must fill the whole remainder
    out.push(0);
    assert!(dec_otc(&out, 0).is_none());
}

#[test]
fn error_body_round_trip() {
    let mut out = Vec::new();
    enc_error_into(&mut out, &b"something broke".to_vec());
    let (msg, j) = dec_error(&out, 0).expect("round trip");
    assert_eq!(j, out.len());
    assert_eq!(msg, b"something broke".to_vec());
}

#[test]
fn credential_round_trip() {
    let cred = Credential {
        data: CredentialData {
            subject: IdentityId::new(b"M1".to_vec()),
            schema: 1,
            attrs: vec![attr("role", "member"), attr("project_id", "proj-1")],
        },
        signature: b"sig".to_vec(),
    };
    let mut out = Vec::new();
    enc_credential_into(&mut out, &cred);
    let (back, j) = dec_credential(&out, 0).expect("round trip");
    assert_eq!(j, out.len());
    assert_eq!(back.data.subject.bytes, b"M1".to_vec());
    assert_eq!(back.data.schema, 1);
    assert_eq!(back.data.attrs.len(), 2);
    assert_eq!(back.data.attrs[1].name, b"project_id".to_vec());
    assert_eq!(back.signature, b"sig".to_vec());
}

#[test]
fn random_codes_are_32_bytes() {
    let a = OneTimeCode::random();
    let b = OneTimeCode::random();
    assert_eq!(a.code.len(), 32);
    assert_eq!(b.code.len(), 32);
}
