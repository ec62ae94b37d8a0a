//! The authenticator's request state machine.
//!
//! One inbound framed message is handled to completion: the server asserts
//! the secure-channel peer identity, decodes the frame, consults the
//! enroller directory or the token cache, writes the attribute store, has
//! the host sign credentials, and returns a framed response.
//!
//! The whole behaviour is captured by the spec-level transition
//! [`server_step`]: given the prior state, the request input and the
//! signer's outcome, it yields the next state and the exact response bytes.
//! [`Server::handle_message`] is proved to realize it. The outside inputs a
//! request needs — the clock, fresh randomness for minting, and the re-read
//! enroller file when hot reload is configured — come in as plain values.

use vstd::prelude::*;
use crate::cache::{
    TokenCache, TokenRecord, TokenView, cache_has, cache_get, remove_key, spec_cache_put,
    TOKEN_CACHE_CAPACITY,
};
use crate::cbor::{p_cbor_map, dec_cbor_map};
use crate::codec::{
    Credential, CredView, OneTimeCode, ReqHeadView, RespHeadView, ResponseHeader, METHOD_POST,
    STATUS_OK, STATUS_BAD_REQUEST, STATUS_FORBIDDEN, STATUS_NOT_FOUND, STATUS_METHOD_NOT_ALLOWED,
    STATUS_INTERNAL_ERROR, p_req_head, p_create_token, p_add_member, p_otc, spec_enc_resp_head,
    spec_enc_error, spec_enc_credential, dec_req_head, dec_create_token, dec_add_member, dec_otc,
    enc_resp_head_into, enc_error_into, enc_credential_into, enc_otc_into,
};
use crate::directory::{EnrollerDirectory, enroller_doc_members, member_set};
use crate::issuer::{CredentialSigner, spec_credential_data, build_credential_data};
use crate::store::{AttributeStore, AttributesEntry, EntryView};
use crate::types::{Attr, IdentityId, attrs_of, clone_attrs, clone_bytes};

verus! {

/// A token older than this many seconds at redemption is rejected.
pub const MAX_TOKEN_DURATION_SECS: u64 = 600;

// ---------------------------------------------------------------------------
// Reason strings
// ---------------------------------------------------------------------------

/// The reason string `secure channel required`.
pub open spec fn spec_msg_secure_channel_required() -> Seq<u8> {
    seq![115u8, 101u8, 99u8, 117u8, 114u8, 101u8, 32u8, 99u8, 104u8, 97u8, 110u8, 110u8, 101u8, 108u8, 32u8, 114u8, 101u8, 113u8, 117u8, 105u8, 114u8, 101u8, 100u8]
}

pub fn msg_secure_channel_required() -> (r: Vec<u8>)
    ensures
        r@ == spec_msg_secure_channel_required(),
{
    let mut v: Vec<u8> = Vec::new();
    v.push(115);
    v.push(101);
    v.push(99);
    v.push(117);
    v.push(114);
    v.push(101);
    v.push(32);
    v.push(99);
    v.push(104);
    v.push(97);
    v.push(110);
    v.push(110);
    v.push(101);
    v.push(108);
    v.push(32);
    v.push(114);
    v.push(101);
    v.push(113);
    v.push(117);
    v.push(105);
    v.push(114);
    v.push(101);
    v.push(100);
    proof {
        assert(v@ =~= spec_msg_secure_channel_required());
    }
    v
}

/// The reason string `unauthorized enroller`.
pub open spec fn spec_msg_unauthorized_enroller() -> Seq<u8> {
    seq![117u8, 110u8, 97u8, 117u8, 116u8, 104u8, 111u8, 114u8, 105u8, 122u8, 101u8, 100u8, 32u8, 101u8, 110u8, 114u8, 111u8, 108u8, 108u8, 101u8, 114u8]
}

pub fn msg_unauthorized_enroller() -> (r: Vec<u8>)
    ensures
        r@ == spec_msg_unauthorized_enroller(),
{
    let mut v: Vec<u8> = Vec::new();
    v.push(117);
    v.push(110);
    v.push(97);
    v.push(117);
    v.push(116);
    v.push(104);
    v.push(111);
    v.push(114);
    v.push(105);
    v.push(122);
    v.push(101);
    v.push(100);
    v.push(32);
    v.push(101);
    v.push(110);
    v.push(114);
    v.push(111);
    v.push(108);
    v.push(108);
    v.push(101);
    v.push(114);
    proof {
        assert(v@ =~= spec_msg_unauthorized_enroller());
    }
    v
}

/// The reason string `unknown token`.
pub open spec fn spec_msg_unknown_token() -> Seq<u8> {
    seq![117u8, 110u8, 107u8, 110u8, 111u8, 119u8, 110u8, 32u8, 116u8, 111u8, 107u8, 101u8, 110u8]
}

pub fn msg_unknown_token() -> (r: Vec<u8>)
    ensures
        r@ == spec_msg_unknown_token(),
{
    let mut v: Vec<u8> = Vec::new();
    v.push(117);
    v.push(110);
    v.push(107);
    v.push(110);
    v.push(111);
    v.push(119);
    v.push(110);
    v.push(32);
    v.push(116);
    v.push(111);
    v.push(107);
    v.push(101);
    v.push(110);
    proof {
        assert(v@ =~= spec_msg_unknown_token());
    }
    v
}

/// The reason string `expired token`.
pub open spec fn spec_msg_expired_token() -> Seq<u8> {
    seq![101u8, 120u8, 112u8, 105u8, 114u8, 101u8, 100u8, 32u8, 116u8, 111u8, 107u8, 101u8, 110u8]
}

pub fn msg_expired_token() -> (r: Vec<u8>)
    ensures
        r@ == spec_msg_expired_token(),
{
    let mut v: Vec<u8> = Vec::new();
    v.push(101);
    v.push(120);
    v.push(112);
    v.push(105);
    v.push(114);
    v.push(101);
    v.push(100);
    v.push(32);
    v.push(116);
    v.push(111);
    v.push(107);
    v.push(101);
    v.push(110);
    proof {
        assert(v@ =~= spec_msg_expired_token());
    }
    v
}

/// The reason string `unauthorized member`.
pub open spec fn spec_msg_unauthorized_member() -> Seq<u8> {
    seq![117u8, 110u8, 97u8, 117u8, 116u8, 104u8, 111u8, 114u8, 105u8, 122u8, 101u8, 100u8, 32u8, 109u8, 101u8, 109u8, 98u8, 101u8, 114u8]
}

pub fn msg_unauthorized_member() -> (r: Vec<u8>)
    ensures
        r@ == spec_msg_unauthorized_member(),
{
    let mut v: Vec<u8> = Vec::new();
    v.push(117);
    v.push(110);
    v.push(97);
    v.push(117);
    v.push(116);
    v.push(104);
    v.push(111);
    v.push(114);
    v.push(105);
    v.push(122);
    v.push(101);
    v.push(100);
    v.push(32);
    v.push(109);
    v.push(101);
    v.push(109);
    v.push(98);
    v.push(101);
    v.push(114);
    proof {
        assert(v@ =~= spec_msg_unauthorized_member());
    }
    v
}

/// The reason string `malformed request`.
pub open spec fn spec_msg_malformed_request() -> Seq<u8> {
    seq![109u8, 97u8, 108u8, 102u8, 111u8, 114u8, 109u8, 101u8, 100u8, 32u8, 114u8, 101u8, 113u8, 117u8, 101u8, 115u8, 116u8]
}

pub fn msg_malformed_request() -> (r: Vec<u8>)
    ensures
        r@ == spec_msg_malformed_request(),
{
    let mut v: Vec<u8> = Vec::new();
    v.push(109);
    v.push(97);
    v.push(108);
    v.push(102);
    v.push(111);
    v.push(114);
    v.push(109);
    v.push(101);
    v.push(100);
    v.push(32);
    v.push(114);
    v.push(101);
    v.push(113);
    v.push(117);
    v.push(101);
    v.push(115);
    v.push(116);
    proof {
        assert(v@ =~= spec_msg_malformed_request());
    }
    v
}

/// The reason string `malformed body`.
pub open spec fn spec_msg_malformed_body() -> Seq<u8> {
    seq![109u8, 97u8, 108u8, 102u8, 111u8, 114u8, 109u8, 101u8, 100u8, 32u8, 98u8, 111u8, 100u8, 121u8]
}

pub fn msg_malformed_body() -> (r: Vec<u8>)
    ensures
        r@ == spec_msg_malformed_body(),
{
    let mut v: Vec<u8> = Vec::new();
    v.push(109);
    v.push(97);
    v.push(108);
    v.push(102);
    v.push(111);
    v.push(114);
    v.push(109);
    v.push(101);
    v.push(100);
    v.push(32);
    v.push(98);
    v.push(111);
    v.push(100);
    v.push(121);
    proof {
        assert(v@ =~= spec_msg_malformed_body());
    }
    v
}

/// The reason string `invalid enrollers document`.
pub open spec fn spec_msg_invalid_enrollers() -> Seq<u8> {
    seq![105u8, 110u8, 118u8, 97u8, 108u8, 105u8, 100u8, 32u8, 101u8, 110u8, 114u8, 111u8, 108u8, 108u8, 101u8, 114u8, 115u8, 32u8, 100u8, 111u8, 99u8, 117u8, 109u8, 101u8, 110u8, 116u8]
}

pub fn msg_invalid_enrollers() -> (r: Vec<u8>)
    ensures
        r@ == spec_msg_invalid_enrollers(),
{
    let mut v: Vec<u8> = Vec::new();
    v.push(105);
    v.push(110);
    v.push(118);
    v.push(97);
    v.push(108);
    v.push(105);
    v.push(100);
    v.push(32);
    v.push(101);
    v.push(110);
    v.push(114);
    v.push(111);
    v.push(108);
    v.push(108);
    v.push(101);
    v.push(114);
    v.push(115);
    v.push(32);
    v.push(100);
    v.push(111);
    v.push(99);
    v.push(117);
    v.push(109);
    v.push(101);
    v.push(110);
    v.push(116);
    proof {
        assert(v@ =~= spec_msg_invalid_enrollers());
    }
    v
}

/// The path segment `tokens`.
pub open spec fn spec_seg_tokens() -> Seq<u8> {
    seq![116u8, 111u8, 107u8, 101u8, 110u8, 115u8]
}

fn seg_tokens() -> (r: Vec<u8>)
    ensures
        r@ == spec_seg_tokens(),
{
    let mut v: Vec<u8> = Vec::new();
    v.push(116);
    v.push(111);
    v.push(107);
    v.push(101);
    v.push(110);
    v.push(115);
    proof {
        assert(v@ =~= spec_seg_tokens());
    }
    v
}

/// The path segment `members`.
pub open spec fn spec_seg_members() -> Seq<u8> {
    seq![109u8, 101u8, 109u8, 98u8, 101u8, 114u8, 115u8]
}

fn seg_members() -> (r: Vec<u8>)
    ensures
        r@ == spec_seg_members(),
{
    let mut v: Vec<u8> = Vec::new();
    v.push(109);
    v.push(101);
    v.push(109);
    v.push(98);
    v.push(101);
    v.push(114);
    v.push(115);
    proof {
        assert(v@ =~= spec_seg_members());
    }
    v
}

/// The path segment `credential`.
pub open spec fn spec_seg_credential() -> Seq<u8> {
    seq![99u8, 114u8, 101u8, 100u8, 101u8, 110u8, 116u8, 105u8, 97u8, 108u8]
}

fn seg_credential() -> (r: Vec<u8>)
    ensures
        r@ == spec_seg_credential(),
{
    let mut v: Vec<u8> = Vec::new();
    v.push(99);
    v.push(114);
    v.push(101);
    v.push(100);
    v.push(101);
    v.push(110);
    v.push(116);
    v.push(105);
    v.push(97);
    v.push(108);
    proof {
        assert(v@ =~= spec_seg_credential());
    }
    v
}

// ---------------------------------------------------------------------------
// Response shapes
// ---------------------------------------------------------------------------

/// A framed response: the header, then the body when there is one.
pub open spec fn spec_response(re: u64, status: u8, body: Option<Seq<u8>>) -> Seq<u8> {
    match body {
        Some(b) => spec_enc_resp_head(RespHeadView { re, status, has_body: true }) + b,
        None => spec_enc_resp_head(RespHeadView { re, status, has_body: false }),
    }
}

/// An error response: a status and a reason string.
pub open spec fn spec_error_response(re: u64, status: u8, msg: Seq<u8>) -> Seq<u8> {
    spec_response(re, status, Some(spec_enc_error(msg)))
}

fn response_no_body(re: u64, status: u8) -> (r: Vec<u8>)
    ensures
        r@ == spec_response(re, status, None),
{
    let mut out: Vec<u8> = Vec::new();
    enc_resp_head_into(&mut out, &ResponseHeader { re, status, has_body: false });
    proof {
        assert(out@ =~= spec_response(re, status, None));
    }
    out
}

fn response_with_body(re: u64, status: u8, body: &Vec<u8>) -> (r: Vec<u8>)
    ensures
        r@ == spec_response(re, status, Some(body@)),
{
    let mut out: Vec<u8> = Vec::new();
    enc_resp_head_into(&mut out, &ResponseHeader { re, status, has_body: true });
    out.extend_from_slice(body.as_slice());
    proof {
        assert(out@ =~= spec_response(re, status, Some(body@)));
    }
    out
}

fn error_response(re: u64, status: u8, msg: &Vec<u8>) -> (r: Vec<u8>)
    ensures
        r@ == spec_error_response(re, status, msg@),
{
    let mut body: Vec<u8> = Vec::new();
    enc_error_into(&mut body, msg);
    response_with_body(re, status, &body)
}

// ---------------------------------------------------------------------------
// Path segmentation
// ---------------------------------------------------------------------------

pub const PATH_SEP: u8 = 47;

/// Splits on `/`, dropping empty segments; `cur` accumulates the segment
/// being read.
pub open spec fn split_rec(p: Seq<u8>, cur: Seq<u8>) -> Seq<Seq<u8>>
    decreases p.len(),
{
    if p.len() == 0 {
        if cur.len() == 0 {
            Seq::empty()
        } else {
            seq![cur]
        }
    } else if p[0] == PATH_SEP {
        (if cur.len() == 0 {
            Seq::<Seq<u8>>::empty()
        } else {
            seq![cur]
        }) + split_rec(p.drop_first(), Seq::empty())
    } else {
        split_rec(p.drop_first(), cur.push(p[0]))
    }
}

/// The non-empty segments of a path.
pub open spec fn path_segments(p: Seq<u8>) -> Seq<Seq<u8>> {
    split_rec(p, Seq::empty())
}

/// A run of bytes without a separator is one segment.
pub proof fn lemma_split_rec_nosep(p: Seq<u8>, cur: Seq<u8>)
    requires
        forall|i: int| 0 <= i < p.len() ==> p[i] != PATH_SEP,
    ensures
        split_rec(p, cur) == (if cur.len() + p.len() == 0 {
            Seq::<Seq<u8>>::empty()
        } else {
            seq![cur + p]
        }),
    decreases p.len(),
{
    if p.len() == 0 {
        if cur.len() > 0 {
            assert(cur + p =~= cur);
        }
    } else {
        assert forall|i: int| 0 <= i < p.drop_first().len() implies #[trigger] p.drop_first()[i]
            != PATH_SEP by {
            assert(p.drop_first()[i] == p[i + 1]);
        }
        lemma_split_rec_nosep(p.drop_first(), cur.push(p[0]));
        assert(cur.push(p[0]) + p.drop_first() =~= cur + p);
    }
}

/// A path of one slash and one separator-free segment names that segment.
pub proof fn lemma_path_single_seg(seg: Seq<u8>)
    requires
        seg.len() > 0,
        forall|i: int| 0 <= i < seg.len() ==> seg[i] != PATH_SEP,
    ensures
        path_segments(seq![PATH_SEP] + seg) == seq![seg],
{
    let p = seq![PATH_SEP] + seg;
    assert(p[0] == PATH_SEP);
    assert(p.drop_first() =~= seg);
    lemma_split_rec_nosep(seg, Seq::empty());
    assert(Seq::<u8>::empty() + seg =~= seg);
    assert(split_rec(p, Seq::empty()) == Seq::<Seq<u8>>::empty() + split_rec(seg, Seq::empty()));
    assert(Seq::<Seq<u8>>::empty() + seq![seg] =~= seq![seg]);
}

/// Which endpoint a path names.
pub enum PathKind {
    Tokens,
    Members,
    Credential,
    Other,
}

fn split_path(p: &Vec<u8>) -> (segs: Vec<Vec<u8>>)
    ensures
        segs.deep_view() == path_segments(p@),
{
    let mut out: Vec<Vec<u8>> = Vec::new();
    let mut cur: Vec<u8> = Vec::new();
    let mut i: usize = 0;
    proof {
        assert(p@.skip(0) =~= p@);
        assert(out.deep_view() + split_rec(p@.skip(0), cur@) =~~= path_segments(p@));
    }
    while i < p.len()
        invariant
            i <= p@.len(),
            out.deep_view() + split_rec(p@.skip(i as int), cur@) == path_segments(p@),
        decreases p@.len() - i,
    {
        let ghost out0 = out.deep_view();
        let ghost cur0 = cur@;
        let ghost rem = p@.skip(i as int);
        proof {
            assert(rem.len() > 0);
            assert(rem.drop_first() =~= p@.skip(i + 1));
            assert(rem[0] == p@[i as int]);
        }
        if p[i] == PATH_SEP {
            if cur.len() > 0 {
                proof {
                    assert(split_rec(rem, cur0) == seq![cur0] + split_rec(
                        p@.skip(i + 1),
                        Seq::empty(),
                    ));
                }
                out.push(cur);
                cur = Vec::new();
                proof {
                    assert(out.deep_view() =~~= out0.push(cur0));
                    assert(cur@ =~= Seq::<u8>::empty());
                    assert(out0.push(cur0) + split_rec(p@.skip(i + 1), cur@) =~~= out0 + (seq![
                        cur0,
                    ] + split_rec(p@.skip(i + 1), Seq::<u8>::empty())));
                }
            } else {
                proof {
                    assert(cur0 =~= Seq::<u8>::empty());
                    assert(split_rec(rem, cur0) == Seq::<Seq<u8>>::empty() + split_rec(
                        p@.skip(i + 1),
                        Seq::empty(),
                    ));
                    assert(Seq::<Seq<u8>>::empty() + split_rec(p@.skip(i + 1), Seq::<u8>::empty())
                        =~~= split_rec(p@.skip(i + 1), Seq::<u8>::empty()));
                    assert(split_rec(p@.skip(i + 1), cur@) == split_rec(
                        p@.skip(i + 1),
                        Seq::<u8>::empty(),
                    ));
                }
            }
        } else {
            proof {
                assert(split_rec(rem, cur0) == split_rec(p@.skip(i + 1), cur0.push(p@[i as int])));
            }
            cur.push(p[i]);
            proof {
                assert(cur@ =~= cur0.push(p@[i as int]));
            }
        }
        i += 1;
    }
    proof {
        assert(p@.skip(p@.len() as int) =~= Seq::<u8>::empty());
    }
    if cur.len() > 0 {
        let ghost out0 = out.deep_view();
        let ghost cur0 = cur@;
        proof {
            assert(split_rec(Seq::<u8>::empty(), cur0) == seq![cur0]);
        }
        out.push(cur);
        proof {
            assert(out.deep_view() =~~= out0.push(cur0));
            assert(out0.push(cur0) =~~= out0 + seq![cur0]);
        }
    } else {
        proof {
            assert(cur@ =~= Seq::<u8>::empty());
            assert(split_rec(Seq::<u8>::empty(), Seq::<u8>::empty()) == Seq::<Seq<u8>>::empty());
            assert(out.deep_view() + Seq::<Seq<u8>>::empty() =~~= out.deep_view());
        }
    }
    out
}

fn classify_path(p: &Vec<u8>) -> (k: PathKind)
    ensures
        (k is Tokens) == (path_segments(p@) == seq![spec_seg_tokens()]),
        (k is Members) == (path_segments(p@) == seq![spec_seg_members()]),
        (k is Credential) == (path_segments(p@) == seq![spec_seg_credential()]),
{
    let segs = split_path(p);
    if segs.len() == 1 {
        proof {
            assert(segs.deep_view()[0] == segs@[0]@);
        }
        if crate::types::bytes_eq(&segs[0], &seg_tokens()) {
            proof {
                assert(segs.deep_view() =~~= seq![spec_seg_tokens()]);
            }
            PathKind::Tokens
        } else if crate::types::bytes_eq(&segs[0], &seg_members()) {
            proof {
                assert(segs.deep_view() =~~= seq![spec_seg_members()]);
            }
            PathKind::Members
        } else if crate::types::bytes_eq(&segs[0], &seg_credential()) {
            proof {
                assert(segs.deep_view() =~~= seq![spec_seg_credential()]);
            }
            PathKind::Credential
        } else {
            PathKind::Other
        }
    } else {
        proof {
            assert(segs.deep_view().len() == segs@.len());
        }
        PathKind::Other
    }
}

// ---------------------------------------------------------------------------
// The server, its view, and the request input
// ---------------------------------------------------------------------------

/// One legacy attribute record: the identity it is stored under, in
/// canonical string form, and the stored bytes, a CBOR map of text strings.
#[derive(Debug)]
pub struct LegacyRecord {
    pub key: Vec<u8>,
    pub value: Vec<u8>,
}

/// The project-scoped authenticator.
pub struct Server<S: CredentialSigner> {
    pub project: Vec<u8>,
    pub store: AttributeStore,
    pub directory: EnrollerDirectory,
    pub tokens: TokenCache,
    pub signer: S,
}

/// The mathematical state of a server; the signer has no observable state.
pub struct ServerView {
    pub project: Seq<u8>,
    pub store: Map<Seq<u8>, EntryView>,
    pub enrollers: Set<Seq<u8>>,
    pub reload: bool,
    pub source_path: Option<Seq<char>>,
    pub tokens: Seq<(Seq<u8>, TokenView)>,
}

impl<S: CredentialSigner> View for Server<S> {
    type V = ServerView;

    open spec fn view(&self) -> ServerView {
        ServerView {
            project: self.project@,
            store: self.store@,
            enrollers: self.directory@.members,
            reload: self.directory@.reload,
            source_path: self.directory@.source_path,
            tokens: self.tokens@,
        }
    }
}

/// State-level well-formedness: token keys unique, cache bounded.
pub open spec fn view_wf(v: ServerView) -> bool {
    &&& crate::cache::cache_unique(v.tokens)
    &&& v.tokens.len() <= TOKEN_CACHE_CAPACITY
}

/// One request's input: the authenticated peer (absent when the message did
/// not arrive over a secure channel), the frame, the clock, the fresh code
/// for minting, and the re-read enroller file when hot reload is configured.
pub struct RequestInput {
    pub peer: Option<Seq<u8>>,
    pub data: Seq<u8>,
    pub now: u64,
    pub fresh: Seq<u8>,
    pub reload: Option<Result<Seq<char>, Seq<u8>>>,
}

/// The view of a host-supplied reload outcome.
pub open spec fn reload_view(r: Option<Result<String, Vec<u8>>>) -> Option<
    Result<Seq<char>, Seq<u8>>,
> {
    match r {
        Some(Ok(s)) => Some(Ok(s@)),
        Some(Err(m)) => Some(Err(m@)),
        None => None,
    }
}

// ---------------------------------------------------------------------------
// The transition
// ---------------------------------------------------------------------------

/// What one step yields: the next state and the response bytes.
pub struct StepOutcome {
    pub post: ServerView,
    pub resp: Seq<u8>,
}

/// The request id echoed when gating precedes decoding: the header id when
/// the header parses, zero otherwise.
pub open spec fn header_id_or_zero(data: Seq<u8>) -> u64 {
    match p_req_head(data, 0) {
        Some((h, _)) => h.id,
        None => 0,
    }
}

/// The enrollers in force for a gated request: the prior set, or the re-read
/// file's keys when hot reload is configured; an unreadable or unparsable
/// file fails the request with the message carried here.
pub open spec fn reload_outcome(
    reload: bool,
    source_path: Option<Seq<char>>,
    enrollers: Set<Seq<u8>>,
    supplied: Option<Result<Seq<char>, Seq<u8>>>,
) -> Result<Set<Seq<u8>>, Seq<u8>> {
    if reload && source_path is Some {
        match supplied {
            Some(Ok(doc)) => match enroller_doc_members(doc) {
                Some(keys) => Ok(member_set(keys)),
                None => Err(spec_msg_invalid_enrollers()),
            },
            Some(Err(m)) => Err(m),
            None => Ok(enrollers),
        }
    } else {
        Ok(enrollers)
    }
}

pub open spec fn with_enrollers(pre: ServerView, es: Set<Seq<u8>>) -> ServerView {
    ServerView {
        project: pre.project,
        store: pre.store,
        enrollers: es,
        reload: pre.reload,
        source_path: pre.source_path,
        tokens: pre.tokens,
    }
}

/// Minting: a fresh one-time code is bound to the supplied attributes and
/// the minting enroller, and returned in the body.
pub open spec fn step_tokens(
    pre: ServerView,
    inp: RequestInput,
    peer: Seq<u8>,
    h: ReqHeadView,
    body_at: int,
) -> StepOutcome {
    match reload_outcome(pre.reload, pre.source_path, pre.enrollers, inp.reload) {
        Err(m) => StepOutcome {
            post: pre,
            resp: spec_error_response(h.id, STATUS_INTERNAL_ERROR, m),
        },
        Ok(es) => if !es.contains(peer) {
            StepOutcome {
                post: with_enrollers(pre, es),
                resp: spec_error_response(h.id, STATUS_FORBIDDEN, spec_msg_unauthorized_enroller()),
            }
        } else {
            match p_create_token(inp.data, body_at) {
                None => StepOutcome {
                    post: with_enrollers(pre, es),
                    resp: spec_error_response(h.id, STATUS_BAD_REQUEST, spec_msg_malformed_body()),
                },
                Some((attrs, _end)) => {
                    let token = TokenView {
                        attrs,
                        generated_by: peer,
                        created_at: inp.now,
                    };
                    StepOutcome {
                        post: ServerView {
                            tokens: spec_cache_put(
                                pre.tokens,
                                inp.fresh,
                                token,
                                TOKEN_CACHE_CAPACITY as nat,
                            ),
                            ..with_enrollers(pre, es)
                        },
                        resp: spec_response(h.id, STATUS_OK, Some(inp.fresh)),
                    }
                },
            }
        },
    }
}

/// Direct addition: the member's entry is written with the enroller as
/// attester.
pub open spec fn step_members(
    pre: ServerView,
    inp: RequestInput,
    peer: Seq<u8>,
    h: ReqHeadView,
    body_at: int,
) -> StepOutcome {
    match reload_outcome(pre.reload, pre.source_path, pre.enrollers, inp.reload) {
        Err(m) => StepOutcome {
            post: pre,
            resp: spec_error_response(h.id, STATUS_INTERNAL_ERROR, m),
        },
        Ok(es) => if !es.contains(peer) {
            StepOutcome {
                post: with_enrollers(pre, es),
                resp: spec_error_response(h.id, STATUS_FORBIDDEN, spec_msg_unauthorized_enroller()),
            }
        } else {
            match p_add_member(inp.data, body_at) {
                None => StepOutcome {
                    post: with_enrollers(pre, es),
                    resp: spec_error_response(h.id, STATUS_BAD_REQUEST, spec_msg_malformed_body()),
                },
                Some(((member, attrs), _end)) => {
                    let entry = EntryView {
                        attrs,
                        created_at: inp.now,
                        expires_at: None,
                        attested_by: Some(peer),
                    };
                    StepOutcome {
                        post: ServerView {
                            store: pre.store.insert(member, entry),
                            ..with_enrollers(pre, es)
                        },
                        resp: spec_response(h.id, STATUS_OK, None),
                    }
                },
            }
        },
    }
}

/// Redemption: the cited token is taken from the cache by the same step that
/// looks it up; a live, unexpired token writes the member's entry and issues
/// a credential over the token's own attributes.
pub open spec fn step_redeem(
    pre: ServerView,
    inp: RequestInput,
    sign: Result<Seq<u8>, Seq<u8>>,
    peer: Seq<u8>,
    h: ReqHeadView,
    body_at: int,
) -> StepOutcome {
    match p_otc(inp.data, body_at) {
        None => StepOutcome {
            post: pre,
            resp: spec_error_response(h.id, STATUS_BAD_REQUEST, spec_msg_malformed_body()),
        },
        Some(code) => {
            let drained = ServerView { tokens: remove_key(pre.tokens, code), ..pre };
            if !cache_has(pre.tokens, code) {
                StepOutcome {
                    post: drained,
                    resp: spec_error_response(h.id, STATUS_FORBIDDEN, spec_msg_unknown_token()),
                }
            } else {
                let tkn = cache_get(pre.tokens, code);
                if inp.now > tkn.created_at + MAX_TOKEN_DURATION_SECS {
                    StepOutcome {
                        post: drained,
                        resp: spec_error_response(h.id, STATUS_FORBIDDEN, spec_msg_expired_token()),
                    }
                } else {
                    let entry = EntryView {
                        attrs: tkn.attrs,
                        created_at: inp.now,
                        expires_at: None,
                        attested_by: Some(tkn.generated_by),
                    };
                    let post = ServerView { store: pre.store.insert(peer, entry), ..drained };
                    let cred = spec_credential_data(peer, tkn.attrs, pre.project);
                    match sign {
                        Ok(sig) => StepOutcome {
                            post,
                            resp: spec_response(
                                h.id,
                                STATUS_OK,
                                Some(spec_enc_credential(CredView { data: cred, signature: sig })),
                            ),
                        },
                        Err(m) => StepOutcome {
                            post,
                            resp: spec_error_response(h.id, STATUS_INTERNAL_ERROR, m),
                        },
                    }
                }
            }
        },
    }
}

/// Issuance to a standing member: a credential over the stored entry.
pub open spec fn step_issue(
    pre: ServerView,
    sign: Result<Seq<u8>, Seq<u8>>,
    peer: Seq<u8>,
    h: ReqHeadView,
) -> StepOutcome {
    if !pre.store.contains_key(peer) {
        StepOutcome {
            post: pre,
            resp: spec_error_response(h.id, STATUS_FORBIDDEN, spec_msg_unauthorized_member()),
        }
    } else {
        let cred = spec_credential_data(peer, pre.store[peer].attrs, pre.project);
        match sign {
            Ok(sig) => StepOutcome {
                post: pre,
                resp: spec_response(
                    h.id,
                    STATUS_OK,
                    Some(spec_enc_credential(CredView { data: cred, signature: sig })),
                ),
            },
            Err(m) => StepOutcome {
                post: pre,
                resp: spec_error_response(h.id, STATUS_INTERNAL_ERROR, m),
            },
        }
    }
}

pub open spec fn step_dispatch(
    pre: ServerView,
    inp: RequestInput,
    sign: Result<Seq<u8>, Seq<u8>>,
    peer: Seq<u8>,
    h: ReqHeadView,
    body_at: int,
) -> StepOutcome {
    if h.method != METHOD_POST {
        StepOutcome {
            post: pre,
            resp: spec_error_response(h.id, STATUS_METHOD_NOT_ALLOWED, spec_msg_malformed_request()),
        }
    } else {
        let segs = path_segments(h.path);
        if segs == seq![spec_seg_tokens()] {
            step_tokens(pre, inp, peer, h, body_at)
        } else if segs == seq![spec_seg_members()] {
            step_members(pre, inp, peer, h, body_at)
        } else if segs == seq![spec_seg_credential()] {
            if h.has_body {
                step_redeem(pre, inp, sign, peer, h, body_at)
            } else {
                step_issue(pre, sign, peer, h)
            }
        } else {
            StepOutcome {
                post: pre,
                resp: spec_error_response(h.id, STATUS_NOT_FOUND, spec_msg_malformed_request()),
            }
        }
    }
}

/// The whole transition: channel gating, then decoding, then dispatch.
pub open spec fn server_step(
    pre: ServerView,
    inp: RequestInput,
    sign: Result<Seq<u8>, Seq<u8>>,
) -> StepOutcome {
    match inp.peer {
        None => StepOutcome {
            post: pre,
            resp: spec_error_response(
                header_id_or_zero(inp.data),
                STATUS_FORBIDDEN,
                spec_msg_secure_channel_required(),
            ),
        },
        Some(peer) => match p_req_head(inp.data, 0) {
            None => StepOutcome {
                post: pre,
                resp: spec_error_response(0, STATUS_BAD_REQUEST, spec_msg_malformed_request()),
            },
            Some((h, body_at)) => step_dispatch(pre, inp, sign, peer, h, body_at),
        },
    }
}

/// Whether a state change and response are one possible outcome of a step:
/// the signer's outcome is the one free variable.
pub open spec fn step_matches(
    pre: ServerView,
    inp: RequestInput,
    sign: Result<Seq<u8>, Seq<u8>>,
    post: ServerView,
    resp: Seq<u8>,
) -> bool {
    let o = server_step(pre, inp, sign);
    post == o.post && resp == o.resp
}


// ---------------------------------------------------------------------------
// Legacy migration
// ---------------------------------------------------------------------------

/// The key/value views of the legacy records, in order.
pub open spec fn legacy_views(s: Seq<LegacyRecord>) -> Seq<(Seq<u8>, Seq<u8>)> {
    s.map_values(|r: LegacyRecord| (r.key@, r.value@))
}

/// What migration does to the store: each record's bytes decode as a CBOR
/// map of text strings, inserted in order as a non-expiring, unattested
/// entry; one undecodable record fails the whole migration.
pub open spec fn migrate_map(
    m: Map<Seq<u8>, EntryView>,
    recs: Seq<(Seq<u8>, Seq<u8>)>,
    now: u64,
) -> Option<Map<Seq<u8>, EntryView>>
    decreases recs.len(),
{
    if recs.len() == 0 {
        Some(m)
    } else {
        match p_cbor_map(recs[0].1) {
            Some(pairs) => migrate_map(
                m.insert(
                    recs[0].0,
                    EntryView { attrs: pairs, created_at: now, expires_at: None, attested_by: None },
                ),
                recs.drop_first(),
                now,
            ),
            None => None,
        }
    }
}

/// A record whose bytes did not decode; construction aborts on it.
#[derive(Debug)]
pub struct MigrationError {
    pub key: Vec<u8>,
}

// ---------------------------------------------------------------------------
// Construction
// ---------------------------------------------------------------------------

impl<S: CredentialSigner> Server<S> {
    /// Executable well-formedness: the store and the cache are intact.
    pub open spec fn wf(&self) -> bool {
        &&& self.store.wf()
        &&& self.tokens.wf()
    }

    /// Migrates the legacy attribute records into the store, in order; a
    /// record that does not decode fails the whole migration.
    fn migrate_into(st: &mut AttributeStore, legacy: &Vec<LegacyRecord>, now: u64) -> (r: Result<
        (),
        MigrationError,
    >)
        requires
            old(st).wf(),
        ensures
            final(st).wf(),
            match r {
                Ok(_) => Some(final(st)@) == migrate_map(old(st)@, legacy_views(legacy@), now),
                Err(_) => migrate_map(old(st)@, legacy_views(legacy@), now) is None,
            },
    {
        let ghost store0 = old(st)@;
        let ghost recs = legacy_views(legacy@);
        let mut idx: usize = 0;
        proof {
            assert(recs.skip(0) =~= recs);
        }
        while idx < legacy.len()
            invariant
                idx <= legacy@.len(),
                recs == legacy_views(legacy@),
                store0 == old(st)@,
                st.wf(),
                migrate_map(st@, recs.skip(idx as int), now) == migrate_map(store0, recs, now),
            decreases legacy@.len() - idx,
        {
            proof {
                assert(recs.skip(idx as int)[0] == recs[idx as int]);
                assert(recs[idx as int] == (legacy@[idx as int].key@, legacy@[idx as int].value@));
                assert(recs.skip(idx as int).drop_first() =~= recs.skip(idx + 1));
            }
            match dec_cbor_map(&legacy[idx].value) {
                Some(pairs) => {
                    let mut attrs: Vec<Attr> = Vec::new();
                    let mut j: usize = 0;
                    while j < pairs.len()
                        invariant
                            j <= pairs@.len(),
                            attrs@.len() == j,
                            forall|t: int|
                                0 <= t < j ==> (#[trigger] attrs@[t])@ == (
                                pairs@[t].0@,
                                pairs@[t].1@,
                                ),
                        decreases pairs@.len() - j,
                    {
                        attrs.push(
                            Attr {
                                name: clone_bytes(&pairs[j].0),
                                value: clone_bytes(&pairs[j].1),
                            },
                        );
                        j += 1;
                    }
                    proof {
                        assert(attrs_of(attrs@) =~~= pairs.deep_view());
                    }
                    let entry = AttributesEntry::new(attrs, now, None, None);
                    st.put(IdentityId { bytes: clone_bytes(&legacy[idx].key) }, entry);
                    idx += 1;
                },
                None => {
                    proof {
                        assert(recs.skip(idx as int).len() != 0);
                        assert(p_cbor_map(recs.skip(idx as int)[0].1) is None);
                        assert(migrate_map(st@, recs.skip(idx as int), now) is None);
                    }
                    return Err(MigrationError { key: clone_bytes(&legacy[idx].key) });
                },
            }
        }
        proof {
            assert(recs.skip(recs.len() as int) =~= Seq::<(Seq<u8>, Seq<u8>)>::empty());
        }
        Ok(())
    }

    /// Builds the server, migrating the legacy attribute records into the
    /// store first; a record that does not decode aborts construction, so
    /// the server never starts half-migrated. Deleting migrated legacy
    /// records is the host's step after a successful return.
    pub fn new(
        project: Vec<u8>,
        store: AttributeStore,
        directory: EnrollerDirectory,
        signer: S,
        legacy: &Vec<LegacyRecord>,
        now: u64,
    ) -> (r: Result<Server<S>, MigrationError>)
        requires
            store.wf(),
        ensures
            match r {
                Ok(s) => {
                    &&& s.wf()
                    &&& Some(s@.store) == migrate_map(store@, legacy_views(legacy@), now)
                    &&& s@.project == project@
                    &&& s@.enrollers == directory@.members
                    &&& s@.reload == directory@.reload
                    &&& s@.source_path == directory@.source_path
                    &&& s@.tokens == Seq::<(Seq<u8>, TokenView)>::empty()
                },
                Err(_) => migrate_map(store@, legacy_views(legacy@), now) is None,
            },
    {
        let mut st = store;
        match Self::migrate_into(&mut st, legacy, now) {
            Ok(_) => Ok(Server { project, store: st, directory, tokens: TokenCache::new(), signer }),
            Err(e) => Err(e),
        }
    }

    /// The path the host must re-read before each request, when hot reload
    /// is configured.
    pub fn reload_path(&self) -> (r: Option<&String>)
        ensures
            match r {
                Some(p) => self@.reload && self@.source_path == Some(p@),
                None => !(self@.reload && self@.source_path is Some),
            },
    {
        self.directory.reload_path()
    }

    /// How many one-time codes are live.
    pub fn token_count(&self) -> (r: usize)
        ensures
            r == self@.tokens.len(),
    {
        self.tokens.len()
    }

    /// The stored entry for an identity, for hosts and tests.
    pub fn member_entry(&self, id: &IdentityId) -> (r: Option<&AttributesEntry>)
        requires
            self.wf(),
        ensures
            match r {
                Some(e) => self@.store.contains_key(id@) && self@.store[id@] == e@,
                None => !self@.store.contains_key(id@),
            },
    {
        self.store.get(id)
    }
}

// ---------------------------------------------------------------------------
// Request handling
// ---------------------------------------------------------------------------

/// Outcome of the enroller gate.
enum Gate {
    Allowed,
    Unauthorized,
    Internal(Vec<u8>),
}

/// The peer's identity bytes, when the channel supplied them.
pub open spec fn peer_view(peer: Option<&IdentityId>) -> Option<Seq<u8>> {
    match peer {
        Some(p) => Some(p@),
        None => None,
    }
}

impl<S: CredentialSigner> Server<S> {
    /// Re-reads the enroller directory when configured, then tests the
    /// peer's membership; run before each enroller-gated endpoint.
    fn check_enroller(&mut self, from: &IdentityId, reload: &Option<Result<String, Vec<u8>>>) -> (g:
        Gate)
        requires
            old(self).wf(),
            old(self)@.reload && old(self)@.source_path is Some ==> reload is Some,
        ensures
            final(self).wf(),
            final(self)@.project == old(self)@.project,
            final(self)@.store == old(self)@.store,
            final(self)@.tokens == old(self)@.tokens,
            final(self)@.reload == old(self)@.reload,
            final(self)@.source_path == old(self)@.source_path,
            match reload_outcome(
                old(self)@.reload,
                old(self)@.source_path,
                old(self)@.enrollers,
                reload_view(*reload),
            ) {
                Ok(es) => final(self)@.enrollers == es && (g is Allowed <==> es.contains(from@))
                    && (g is Allowed || g is Unauthorized),
                Err(m) => final(self)@.enrollers == old(self)@.enrollers && (g matches
                Gate::Internal(mm) && mm@ == m),
            },
    {
        if self.directory.reload && self.directory.source_path.is_some() {
            match reload {
                Some(Ok(doc)) => {
                    if !self.directory.apply_document(doc.as_str()) {
                        return Gate::Internal(msg_invalid_enrollers());
                    }
                },
                Some(Err(m)) => {
                    return Gate::Internal(clone_bytes(m));
                },
                None => {
                    proof {
                        assert(false);
                    }
                    return Gate::Unauthorized;
                },
            }
        }
        if self.directory.contains(from) {
            Gate::Allowed
        } else {
            Gate::Unauthorized
        }
    }

    /// Handles one request from an authenticated peer and returns the framed
    /// response; one possible signer outcome accounts for the result.
    pub fn on_request(
        &mut self,
        from: &IdentityId,
        data: &Vec<u8>,
        now: u64,
        fresh: &OneTimeCode,
        reload: Option<Result<String, Vec<u8>>>,
    ) -> (r: Vec<u8>)
        requires
            old(self).wf(),
            fresh.wf(),
            old(self)@.reload && old(self)@.source_path is Some ==> reload is Some,
        ensures
            final(self).wf(),
            exists|sg: Result<Seq<u8>, Seq<u8>>|
                #[trigger] step_matches(
                    old(self)@,
                    RequestInput {
                        peer: Some(from@),
                        data: data@,
                        now,
                        fresh: fresh@,
                        reload: reload_view(reload),
                    },
                    sg,
                    final(self)@,
                    r@,
                ),
    {
        let ghost pre = self@;
        let ghost inp = RequestInput {
            peer: Some(from@),
            data: data@,
            now,
            fresh: fresh@,
            reload: reload_view(reload),
        };
        let ghost dummy = Ok::<Seq<u8>, Seq<u8>>(Seq::empty());
        let (head, body_at) = match dec_req_head(data, 0) {
            Some(v) => v,
            None => {
                let m = msg_malformed_request();
                let r = error_response(0, STATUS_BAD_REQUEST, &m);
                proof {
                    assert(step_matches(pre, inp, dummy, self@, r@));
                }
                return r;
            },
        };
        if head.method != METHOD_POST {
            let m = msg_malformed_request();
            let r = error_response(head.id, STATUS_METHOD_NOT_ALLOWED, &m);
            proof {
                assert(step_matches(pre, inp, dummy, self@, r@));
            }
            return r;
        }
        let kind = classify_path(&head.path);
        match kind {
            PathKind::Tokens => {
                match self.check_enroller(from, &reload) {
                    Gate::Internal(m) => {
                        let r = error_response(head.id, STATUS_INTERNAL_ERROR, &m);
                        proof {
                            assert(step_matches(pre, inp, dummy, self@, r@));
                        }
                        r
                    },
                    Gate::Unauthorized => {
                        let m = msg_unauthorized_enroller();
                        let r = error_response(head.id, STATUS_FORBIDDEN, &m);
                        proof {
                            assert(step_matches(pre, inp, dummy, self@, r@));
                        }
                        r
                    },
                    Gate::Allowed => {
                        match dec_create_token(data, body_at) {
                            None => {
                                let m = msg_malformed_body();
                                let r = error_response(head.id, STATUS_BAD_REQUEST, &m);
                                proof {
                                    assert(step_matches(pre, inp, dummy, self@, r@));
                                }
                                r
                            },
                            Some((ct, _end)) => {
                                let token = TokenRecord::new(ct.attrs, from.clone(), now);
                                self.tokens.insert(clone_bytes(&fresh.code), token);
                                let mut body: Vec<u8> = Vec::new();
                                enc_otc_into(&mut body, fresh);
                                let r = response_with_body(head.id, STATUS_OK, &body);
                                proof {
                                    assert(body@ =~= fresh@);
                                    assert(step_matches(pre, inp, dummy, self@, r@));
                                }
                                r
                            },
                        }
                    },
                }
            },
            PathKind::Members => {
                match self.check_enroller(from, &reload) {
                    Gate::Internal(m) => {
                        let r = error_response(head.id, STATUS_INTERNAL_ERROR, &m);
                        proof {
                            assert(step_matches(pre, inp, dummy, self@, r@));
                        }
                        r
                    },
                    Gate::Unauthorized => {
                        let m = msg_unauthorized_enroller();
                        let r = error_response(head.id, STATUS_FORBIDDEN, &m);
                        proof {
                            assert(step_matches(pre, inp, dummy, self@, r@));
                        }
                        r
                    },
                    Gate::Allowed => {
                        match dec_add_member(data, body_at) {
                            None => {
                                let m = msg_malformed_body();
                                let r = error_response(head.id, STATUS_BAD_REQUEST, &m);
                                proof {
                                    assert(step_matches(pre, inp, dummy, self@, r@));
                                }
                                r
                            },
                            Some((am, _end)) => {
                                let entry = AttributesEntry::new(
                                    am.attrs,
                                    now,
                                    None,
                                    Some(from.clone()),
                                );
                                self.store.put(am.member, entry);
                                let r = response_no_body(head.id, STATUS_OK);
                                proof {
                                    assert(step_matches(pre, inp, dummy, self@, r@));
                                }
                                r
                            },
                        }
                    },
                }
            },
            PathKind::Credential => {
                if head.has_body {
                    match dec_otc(data, body_at) {
                        None => {
                            let m = msg_malformed_body();
                            let r = error_response(head.id, STATUS_BAD_REQUEST, &m);
                            proof {
                                assert(step_matches(pre, inp, dummy, self@, r@));
                            }
                            r
                        },
                        Some(otc) => {
                            match self.tokens.take(&otc.code) {
                                None => {
                                    let m = msg_unknown_token();
                                    let r = error_response(head.id, STATUS_FORBIDDEN, &m);
                                    proof {
                                        assert(step_matches(pre, inp, dummy, self@, r@));
                                    }
                                    r
                                },
                                Some(tkn) => {
                                    if now > tkn.created_at && now - tkn.created_at
                                        > MAX_TOKEN_DURATION_SECS {
                                        let m = msg_expired_token();
                                        let r = error_response(head.id, STATUS_FORBIDDEN, &m);
                                        proof {
                                            assert(step_matches(pre, inp, dummy, self@, r@));
                                        }
                                        r
                                    } else {
                                        let entry = AttributesEntry::new(
                                            clone_attrs(&tkn.attrs),
                                            now,
                                            None,
                                            Some(tkn.generated_by.clone()),
                                        );
                                        self.store.put(from.clone(), entry);
                                        let cred_data = build_credential_data(
                                            from,
                                            &tkn.attrs,
                                            &self.project,
                                        );
                                        match self.signer.sign(&cred_data) {
                                            Ok(sig) => {
                                                let ghost sg = Ok::<Seq<u8>, Seq<u8>>(sig@);
                                                let cred = Credential {
                                                    data: cred_data,
                                                    signature: sig,
                                                };
                                                let mut body: Vec<u8> = Vec::new();
                                                enc_credential_into(&mut body, &cred);
                                                let r = response_with_body(
                                                    head.id,
                                                    STATUS_OK,
                                                    &body,
                                                );
                                                proof {
                                                    assert(step_matches(pre, inp, sg, self@, r@));
                                                }
                                                r
                                            },
                                            Err(m) => {
                                                let ghost sg = Err::<Seq<u8>, Seq<u8>>(m@);
                                                let r = error_response(
                                                    head.id,
                                                    STATUS_INTERNAL_ERROR,
                                                    &m,
                                                );
                                                proof {
                                                    assert(step_matches(pre, inp, sg, self@, r@));
                                                }
                                                r
                                            },
                                        }
                                    }
                                },
                            }
                        },
                    }
                } else {
                    match self.store.get(from) {
                        None => {
                            let m = msg_unauthorized_member();
                            let r = error_response(head.id, STATUS_FORBIDDEN, &m);
                            proof {
                                assert(step_matches(pre, inp, dummy, self@, r@));
                            }
                            r
                        },
                        Some(entry) => {
                            let cred_data = build_credential_data(
                                from,
                                &entry.attrs,
                                &self.project,
                            );
                            match self.signer.sign(&cred_data) {
                                Ok(sig) => {
                                    let ghost sg = Ok::<Seq<u8>, Seq<u8>>(sig@);
                                    let cred = Credential { data: cred_data, signature: sig };
                                    let mut body: Vec<u8> = Vec::new();
                                    enc_credential_into(&mut body, &cred);
                                    let r = response_with_body(head.id, STATUS_OK, &body);
                                    proof {
                                        assert(step_matches(pre, inp, sg, self@, r@));
                                    }
                                    r
                                },
                                Err(m) => {
                                    let ghost sg = Err::<Seq<u8>, Seq<u8>>(m@);
                                    let r = error_response(head.id, STATUS_INTERNAL_ERROR, &m);
                                    proof {
                                        assert(step_matches(pre, inp, sg, self@, r@));
                                    }
                                    r
                                },
                            }
                        },
                    }
                }
            },
            PathKind::Other => {
                let m = msg_malformed_request();
                let r = error_response(head.id, STATUS_NOT_FOUND, &m);
                proof {
                    assert(step_matches(pre, inp, dummy, self@, r@));
                }
                r
            },
        }
    }

    /// Handles one inbound message: a message without secure-channel peer
    /// metadata is refused before its body is looked at.
    pub fn handle_message(
        &mut self,
        peer: Option<&IdentityId>,
        data: &Vec<u8>,
        now: u64,
        fresh: &OneTimeCode,
        reload: Option<Result<String, Vec<u8>>>,
    ) -> (r: Vec<u8>)
        requires
            old(self).wf(),
            fresh.wf(),
            old(self)@.reload && old(self)@.source_path is Some ==> reload is Some,
        ensures
            final(self).wf(),
            exists|sg: Result<Seq<u8>, Seq<u8>>|
                #[trigger] step_matches(
                    old(self)@,
                    RequestInput {
                        peer: peer_view(peer),
                        data: data@,
                        now,
                        fresh: fresh@,
                        reload: reload_view(reload),
                    },
                    sg,
                    final(self)@,
                    r@,
                ),
    {
        let ghost pre = self@;
        match peer {
            Some(p) => {
                let ghost inp_a = RequestInput {
                    peer: Some(p@),
                    data: data@,
                    now,
                    fresh: fresh@,
                    reload: reload_view(reload),
                };
                let ghost inp_b = RequestInput {
                    peer: peer_view(peer),
                    data: data@,
                    now,
                    fresh: fresh@,
                    reload: reload_view(reload),
                };
                let r = self.on_request(p, data, now, fresh, reload);
                proof {
                    let sg = choose|sg: Result<Seq<u8>, Seq<u8>>|
                        step_matches(pre, inp_a, sg, self@, r@);
                    assert(inp_b == inp_a);
                    assert(step_matches(pre, inp_b, sg, self@, r@));
                }
                r
            },
            None => {
                let id = match dec_req_head(data, 0) {
                    Some((h, _)) => h.id,
                    None => 0,
                };
                let m = msg_secure_channel_required();
                let r = error_response(id, STATUS_FORBIDDEN, &m);
                proof {
                    let ghost inp = RequestInput {
                        peer: peer_view(peer),
                        data: data@,
                        now,
                        fresh: fresh@,
                        reload: reload_view(reload),
                    };
                    assert(id == header_id_or_zero(data@));
                    assert(step_matches(pre, inp, Ok::<Seq<u8>, Seq<u8>>(Seq::empty()), self@, r@));
                }
                r
            },
        }
    }
}




} // verus!
