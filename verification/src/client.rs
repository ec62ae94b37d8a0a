//! The authenticator client.
//!
//! The symmetric counterpart of the server: each operation encodes one
//! request frame, and a matching function validates and decodes the single
//! response. Carrying the bytes over the pre-established route to the
//! server and back is the host's transport, outside this crate.

use vstd::prelude::*;
use crate::codec::{
    AddMember, CreateToken, Credential, OneTimeCode, RequestHeader, ReqHeadView, METHOD_POST,
    STATUS_OK, spec_enc_req_head, spec_enc_add_member, spec_enc_create_token, p_resp_head, p_error,
    p_otc, p_credential, enc_req_head_into, enc_add_member_into, enc_create_token_into,
    enc_otc_into, dec_resp_head, dec_error, dec_otc, dec_credential,
};
use crate::types::{Attr, IdentityId, attrs_of, clone_bytes};

verus! {

/// The request path `/tokens`.
pub open spec fn spec_path_tokens() -> Seq<u8> {
    seq![47u8, 116u8, 111u8, 107u8, 101u8, 110u8, 115u8]
}

fn path_tokens() -> (r: Vec<u8>)
    ensures
        r@ == spec_path_tokens(),
{
    let mut v: Vec<u8> = Vec::new();
    v.push(47);
    v.push(116);
    v.push(111);
    v.push(107);
    v.push(101);
    v.push(110);
    v.push(115);
    proof {
        assert(v@ =~= spec_path_tokens());
    }
    v
}

/// The request path `/members`.
pub open spec fn spec_path_members() -> Seq<u8> {
    seq![47u8, 109u8, 101u8, 109u8, 98u8, 101u8, 114u8, 115u8]
}

fn path_members() -> (r: Vec<u8>)
    ensures
        r@ == spec_path_members(),
{
    let mut v: Vec<u8> = Vec::new();
    v.push(47);
    v.push(109);
    v.push(101);
    v.push(109);
    v.push(98);
    v.push(101);
    v.push(114);
    v.push(115);
    proof {
        assert(v@ =~= spec_path_members());
    }
    v
}

/// The request path `/credential`.
pub open spec fn spec_path_credential() -> Seq<u8> {
    seq![47u8, 99u8, 114u8, 101u8, 100u8, 101u8, 110u8, 116u8, 105u8, 97u8, 108u8]
}

fn path_credential() -> (r: Vec<u8>)
    ensures
        r@ == spec_path_credential(),
{
    let mut v: Vec<u8> = Vec::new();
    v.push(47);
    v.push(99);
    v.push(114);
    v.push(101);
    v.push(100);
    v.push(101);
    v.push(110);
    v.push(116);
    v.push(105);
    v.push(97);
    v.push(108);
    proof {
        assert(v@ =~= spec_path_credential());
    }
    v
}

/// The default reason when a response carries none.
pub open spec fn spec_msg_request_failed() -> Seq<u8> {
    seq![114u8, 101u8, 113u8, 117u8, 101u8, 115u8, 116u8, 32u8, 102u8, 97u8, 105u8, 108u8, 101u8, 100u8]
}

fn msg_request_failed() -> (r: Vec<u8>)
    ensures
        r@ == spec_msg_request_failed(),
{
    let mut v: Vec<u8> = Vec::new();
    v.push(114);
    v.push(101);
    v.push(113);
    v.push(117);
    v.push(101);
    v.push(115);
    v.push(116);
    v.push(32);
    v.push(102);
    v.push(97);
    v.push(105);
    v.push(108);
    v.push(101);
    v.push(100);
    proof {
        assert(v@ =~= spec_msg_request_failed());
    }
    v
}

/// The reason when the response frame itself does not parse.
pub open spec fn spec_msg_invalid_response() -> Seq<u8> {
    seq![105u8, 110u8, 118u8, 97u8, 108u8, 105u8, 100u8, 32u8, 114u8, 101u8, 115u8, 112u8, 111u8, 110u8, 115u8, 101u8]
}

fn msg_invalid_response() -> (r: Vec<u8>)
    ensures
        r@ == spec_msg_invalid_response(),
{
    let mut v: Vec<u8> = Vec::new();
    v.push(105);
    v.push(110);
    v.push(118);
    v.push(97);
    v.push(108);
    v.push(105);
    v.push(100);
    v.push(32);
    v.push(114);
    v.push(101);
    v.push(115);
    v.push(112);
    v.push(111);
    v.push(110);
    v.push(115);
    v.push(101);
    proof {
        assert(v@ =~= spec_msg_invalid_response());
    }
    v
}

/// A failed operation: the server's reason string, or a local one when the
/// response did not parse.
#[derive(Debug)]
pub struct ClientError {
    pub message: Vec<u8>,
}

/// What a response means to the caller: the body of an OK response under
/// `parse_body`, else the error message the frame carried.
pub open spec fn spec_read_response<T>(
    resp: Seq<u8>,
    parse_body: Option<T>,
    r: Result<T, ClientError>,
) -> bool {
    match p_resp_head(resp, 0) {
        None => r matches Err(e) && e.message@ == spec_msg_invalid_response(),
        Some((h, j)) => if h.status == STATUS_OK {
            match parse_body {
                Some(b) => r matches Ok(v) && v == b,
                None => r matches Err(e) && e.message@ == spec_msg_invalid_response(),
            }
        } else {
            match p_error(resp, j) {
                Some((m, _)) => r matches Err(e) && e.message@ == m,
                None => r matches Err(e) && e.message@ == spec_msg_request_failed(),
            }
        },
    }
}

/// The request header the client writes for one operation.
pub open spec fn client_head(id: u64, path: Seq<u8>, has_body: bool) -> ReqHeadView {
    ReqHeadView { id, method: METHOD_POST, path, has_body }
}

/// Frames requests and decodes responses; `next_id` numbers the requests.
pub struct Client {
    pub next_id: u64,
}

impl Client {
    pub fn new() -> (r: Client)
        ensures
            r.next_id == 0,
    {
        Client { next_id: 0 }
    }

    /// Draws the next request id.
    fn take_id(&mut self) -> (r: u64)
        ensures
            r == old(self).next_id,
            final(self).next_id == old(self).next_id.wrapping_add(1),
    {
        let id = self.next_id;
        self.next_id = self.next_id.wrapping_add(1);
        id
    }

    /// Frames a request to add `member` with `attrs` directly.
    pub fn add_member_request(&mut self, member: &IdentityId, attrs: &Vec<Attr>) -> (r: Vec<u8>)
        ensures
            final(self).next_id == old(self).next_id.wrapping_add(1),
            r@ == spec_enc_req_head(client_head(old(self).next_id, spec_path_members(), true))
                + spec_enc_add_member(member@, attrs_of(attrs@)),
    {
        let id = self.take_id();
        let mut out: Vec<u8> = Vec::new();
        enc_req_head_into(
            &mut out,
            &RequestHeader { id, method: METHOD_POST, path: path_members(), has_body: true },
        );
        let body = AddMember {
            member: member.clone(),
            attrs: crate::types::clone_attrs(attrs),
        };
        enc_add_member_into(&mut out, &body);
        proof {
            assert(out@ =~= spec_enc_req_head(client_head(old(self).next_id, spec_path_members(), true))
                + spec_enc_add_member(member@, attrs_of(attrs@)));
        }
        out
    }

    /// Reads the response to a member addition.
    pub fn add_member_response(&self, resp: &Vec<u8>) -> (r: Result<(), ClientError>)
        ensures
            spec_read_response(resp@, Some(()), r),
    {
        match dec_resp_head(resp, 0) {
            None => Err(ClientError { message: msg_invalid_response() }),
            Some((h, j)) => {
                if h.status == STATUS_OK {
                    Ok(())
                } else {
                    Err(read_error(resp, j))
                }
            },
        }
    }

    /// Frames a request to mint a one-time enrollment code for `attrs`.
    pub fn create_token_request(&mut self, attrs: &Vec<Attr>) -> (r: Vec<u8>)
        ensures
            final(self).next_id == old(self).next_id.wrapping_add(1),
            r@ == spec_enc_req_head(client_head(old(self).next_id, spec_path_tokens(), true))
                + spec_enc_create_token(attrs_of(attrs@)),
    {
        let id = self.take_id();
        let mut out: Vec<u8> = Vec::new();
        enc_req_head_into(
            &mut out,
            &RequestHeader { id, method: METHOD_POST, path: path_tokens(), has_body: true },
        );
        let body = CreateToken { attrs: crate::types::clone_attrs(attrs) };
        enc_create_token_into(&mut out, &body);
        proof {
            assert(out@ =~= spec_enc_req_head(client_head(old(self).next_id, spec_path_tokens(), true))
                + spec_enc_create_token(attrs_of(attrs@)));
        }
        out
    }

    /// Reads the minted code out of the response.
    pub fn create_token_response(&self, resp: &Vec<u8>) -> (r: Result<OneTimeCode, ClientError>)
        ensures
            match p_resp_head(resp@, 0) {
                None => r matches Err(e) && e.message@ == spec_msg_invalid_response(),
                Some((h, j)) => if h.status == STATUS_OK {
                    match p_otc(resp@, j) {
                        Some(c) => r matches Ok(v) && v@ == c && v.wf(),
                        None => r matches Err(e) && e.message@ == spec_msg_invalid_response(),
                    }
                } else {
                    match p_error(resp@, j) {
                        Some((m, _)) => r matches Err(e) && e.message@ == m,
                        None => r matches Err(e) && e.message@ == spec_msg_request_failed(),
                    }
                },
            },
    {
        match dec_resp_head(resp, 0) {
            None => Err(ClientError { message: msg_invalid_response() }),
            Some((h, j)) => {
                if h.status == STATUS_OK {
                    match dec_otc(resp, j) {
                        Some(c) => Ok(c),
                        None => Err(ClientError { message: msg_invalid_response() }),
                    }
                } else {
                    Err(read_error(resp, j))
                }
            },
        }
    }

    /// Frames a credential request for a standing member: no body.
    pub fn credential_request(&mut self) -> (r: Vec<u8>)
        ensures
            final(self).next_id == old(self).next_id.wrapping_add(1),
            r@ == spec_enc_req_head(client_head(old(self).next_id, spec_path_credential(), false)),
    {
        let id = self.take_id();
        let mut out: Vec<u8> = Vec::new();
        enc_req_head_into(
            &mut out,
            &RequestHeader { id, method: METHOD_POST, path: path_credential(), has_body: false },
        );
        out
    }

    /// Frames a credential request redeeming the one-time code `c`.
    pub fn credential_with_request(&mut self, c: &OneTimeCode) -> (r: Vec<u8>)
        ensures
            final(self).next_id == old(self).next_id.wrapping_add(1),
            r@ == spec_enc_req_head(client_head(old(self).next_id, spec_path_credential(), true))
                + c@,
    {
        let id = self.take_id();
        let mut out: Vec<u8> = Vec::new();
        enc_req_head_into(
            &mut out,
            &RequestHeader { id, method: METHOD_POST, path: path_credential(), has_body: true },
        );
        enc_otc_into(&mut out, c);
        out
    }

    /// Reads the issued credential out of the response.
    pub fn credential_response(&self, resp: &Vec<u8>) -> (r: Result<Credential, ClientError>)
        ensures
            match p_resp_head(resp@, 0) {
                None => r matches Err(e) && e.message@ == spec_msg_invalid_response(),
                Some((h, j)) => if h.status == STATUS_OK {
                    match p_credential(resp@, j) {
                        Some((c, _)) => r matches Ok(v) && v@ == c,
                        None => r matches Err(e) && e.message@ == spec_msg_invalid_response(),
                    }
                } else {
                    match p_error(resp@, j) {
                        Some((m, _)) => r matches Err(e) && e.message@ == m,
                        None => r matches Err(e) && e.message@ == spec_msg_request_failed(),
                    }
                },
            },
    {
        match dec_resp_head(resp, 0) {
            None => Err(ClientError { message: msg_invalid_response() }),
            Some((h, j)) => {
                if h.status == STATUS_OK {
                    match dec_credential(resp, j) {
                        Some((c, _)) => Ok(c),
                        None => Err(ClientError { message: msg_invalid_response() }),
                    }
                } else {
                    Err(read_error(resp, j))
                }
            },
        }
    }
}

/// Decodes the error body of a failed response, or falls back to the
/// generic reason.
fn read_error(resp: &Vec<u8>, j: usize) -> (r: ClientError)
    requires
        j <= resp@.len(),
    ensures
        match p_error(resp@, j as int) {
            Some((m, _)) => r.message@ == m,
            None => r.message@ == spec_msg_request_failed(),
        },
{
    match dec_error(resp, j) {
        Some((m, _)) => ClientError { message: m },
        None => ClientError { message: msg_request_failed() },
    }
}

} // verus!
