//! The guarantees the authenticator gives, proved over the transition
//! [`server_step`].
//!
//! Each law quantifies over states, request inputs and signer outcomes;
//! together with the refinement proved on
//! [`crate::server::Server::handle_message`] they hold of every run of the
//! executable server.

use vstd::prelude::*;
use crate::cache::{
    cache_has, cache_get, remove_key, spec_cache_put, cache_unique, lemma_remove_key_effect,
    lemma_remove_key_unique, lemma_cache_put_wf, TokenView, TOKEN_CACHE_CAPACITY,
};
use crate::client::{client_head, spec_path_credential, spec_path_members, spec_path_tokens};
use crate::codec::{
    ReqHeadView, METHOD_POST, STATUS_OK, STATUS_FORBIDDEN, p_req_head, p_otc, p_create_token,
    p_add_member, p_credential, p_resp_head, RespHeadView, CredView, CredDataView,
    spec_enc_credential, spec_enc_resp_head, spec_enc_req_head, spec_enc_create_token,
    spec_enc_add_member, enc_len_ok, attrs_len_ok, lemma_p_resp_head_at, lemma_p_credential_at,
    lemma_p_req_head_at, lemma_p_create_token_at, lemma_p_add_member_at, lemma_concat_parts,
};
use crate::directory::{enroller_doc_members, member_set};
use crate::issuer::{spec_credential_data, spec_project_id_attr_name};
use crate::server::{
    ServerView, RequestInput, server_step, step_dispatch, step_members, step_redeem, step_issue,
    reload_outcome, header_id_or_zero, path_segments, spec_seg_tokens, spec_seg_members,
    spec_seg_credential, spec_response, spec_error_response, spec_msg_secure_channel_required,
    spec_msg_unauthorized_enroller, spec_msg_unknown_token, spec_msg_expired_token, view_wf,
    MAX_TOKEN_DURATION_SECS, PATH_SEP, lemma_path_single_seg,
};
use crate::store::EntryView;

verus! {

/// A parsed request bound for one of the two enroller-gated endpoints.
pub open spec fn gated_request(inp: RequestInput, h: ReqHeadView, body_at: int) -> bool {
    &&& p_req_head(inp.data, 0) == Some((h, body_at))
    &&& h.method == METHOD_POST
    &&& (path_segments(h.path) == seq![spec_seg_tokens()] || path_segments(h.path) == seq![
        spec_seg_members(),
    ])
}

/// A parsed request that redeems the one-time code `c`.
pub open spec fn redeem_request(inp: RequestInput, h: ReqHeadView, body_at: int, c: Seq<u8>) -> bool {
    &&& p_req_head(inp.data, 0) == Some((h, body_at))
    &&& h.method == METHOD_POST
    &&& path_segments(h.path) == seq![spec_seg_credential()]
    &&& h.has_body
    &&& p_otc(inp.data, body_at) == Some(c)
}

/// The three endpoint segments are pairwise distinct.
pub proof fn lemma_segs_distinct()
    ensures
        seq![spec_seg_tokens()] != seq![spec_seg_members()],
        seq![spec_seg_tokens()] != seq![spec_seg_credential()],
        seq![spec_seg_members()] != seq![spec_seg_credential()],
{
    assert(spec_seg_tokens().len() == 6);
    assert(spec_seg_members().len() == 7);
    assert(spec_seg_credential().len() == 10);
    if seq![spec_seg_tokens()] == seq![spec_seg_members()] {
        assert(seq![spec_seg_tokens()][0] == seq![spec_seg_members()][0]);
    }
    if seq![spec_seg_tokens()] == seq![spec_seg_credential()] {
        assert(seq![spec_seg_tokens()][0] == seq![spec_seg_credential()][0]);
    }
    if seq![spec_seg_members()] == seq![spec_seg_credential()] {
        assert(seq![spec_seg_members()][0] == seq![spec_seg_credential()][0]);
    }
}

/// Channel gating: a request delivered without secure-channel metadata is
/// refused with `secure channel required`, and nothing changes.
pub proof fn lemma_channel_gating(
    pre: ServerView,
    inp: RequestInput,
    sign: Result<Seq<u8>, Seq<u8>>,
)
    requires
        inp.peer is None,
    ensures
        server_step(pre, inp, sign).post == pre,
        server_step(pre, inp, sign).resp == spec_error_response(
            header_id_or_zero(inp.data),
            STATUS_FORBIDDEN,
            spec_msg_secure_channel_required(),
        ),
{
}

/// Enroller gating: a POST to `/tokens` or `/members` from a peer outside
/// the enroller directory in force is refused with `unauthorized enroller`,
/// and neither the store nor the token cache changes.
pub proof fn lemma_enroller_gating(
    pre: ServerView,
    inp: RequestInput,
    sign: Result<Seq<u8>, Seq<u8>>,
    peer: Seq<u8>,
    h: ReqHeadView,
    body_at: int,
    es: Set<Seq<u8>>,
)
    requires
        inp.peer == Some(peer),
        gated_request(inp, h, body_at),
        reload_outcome(pre.reload, pre.source_path, pre.enrollers, inp.reload) == Ok::<
            Set<Seq<u8>>,
            Seq<u8>,
        >(es),
        !es.contains(peer),
    ensures
        server_step(pre, inp, sign).post.store == pre.store,
        server_step(pre, inp, sign).post.tokens == pre.tokens,
        server_step(pre, inp, sign).post.enrollers == es,
        server_step(pre, inp, sign).resp == spec_error_response(
            h.id,
            STATUS_FORBIDDEN,
            spec_msg_unauthorized_enroller(),
        ),
{
}

/// Token single-use: redeeming a code removes it by the same step that
/// looks it up, and an immediately following request citing the same code
/// is refused with `unknown token`.
pub proof fn lemma_token_single_use(
    pre: ServerView,
    inp1: RequestInput,
    sign1: Result<Seq<u8>, Seq<u8>>,
    inp2: RequestInput,
    sign2: Result<Seq<u8>, Seq<u8>>,
    h1: ReqHeadView,
    body_at1: int,
    h2: ReqHeadView,
    body_at2: int,
    c: Seq<u8>,
)
    requires
        inp1.peer is Some,
        redeem_request(inp1, h1, body_at1, c),
        inp2.peer is Some,
        redeem_request(inp2, h2, body_at2, c),
    ensures
        !cache_has(server_step(pre, inp1, sign1).post.tokens, c),
        server_step(server_step(pre, inp1, sign1).post, inp2, sign2).resp == spec_error_response(
            h2.id,
            STATUS_FORBIDDEN,
            spec_msg_unknown_token(),
        ),
{
    lemma_segs_distinct();
    let peer1 = inp1.peer.unwrap();
    let o1 = server_step(pre, inp1, sign1);
    assert(o1 == step_dispatch(pre, inp1, sign1, peer1, h1, body_at1));
    assert(o1 == step_redeem(pre, inp1, sign1, peer1, h1, body_at1));
    lemma_remove_key_effect(pre.tokens, c);
    let mid = o1.post;
    assert(mid.tokens == remove_key(pre.tokens, c));
    assert(!cache_has(mid.tokens, c));
    let peer2 = inp2.peer.unwrap();
    let o2 = server_step(mid, inp2, sign2);
    assert(o2 == step_dispatch(mid, inp2, sign2, peer2, h2, body_at2));
    assert(o2 == step_redeem(mid, inp2, sign2, peer2, h2, body_at2));
}

/// The inductive step behind token single-use: a code absent from the
/// cache stays absent across any request, so long as minting does not hand
/// out that same code again (fresh codes are uniformly random).
pub proof fn lemma_absent_code_stays_absent(
    pre: ServerView,
    inp: RequestInput,
    sign: Result<Seq<u8>, Seq<u8>>,
    c: Seq<u8>,
)
    requires
        !cache_has(pre.tokens, c),
        inp.fresh != c,
    ensures
        !cache_has(server_step(pre, inp, sign).post.tokens, c),
{
    let s = pre.tokens;
    assert forall|k: Seq<u8>| !cache_has(remove_key(s, k), c) by {
        lemma_remove_key_effect(s, k);
        if cache_has(remove_key(s, k), c) {
            let i = choose|i: int|
                0 <= i < remove_key(s, k).len() && (#[trigger] remove_key(s, k)[i]).0 == c;
            let e = remove_key(s, k)[i];
            assert(remove_key(s, k).contains(e));
            assert(s.contains(e));
            let j = choose|j: int| 0 <= j < s.len() && s[j] == e;
            assert(cache_has(s, c));
        }
    }
    assert forall|v: TokenView, cap: nat| cap >= 1 ==> !cache_has(
        #[trigger] spec_cache_put(s, inp.fresh, v, cap),
        c,
    ) by {
        if cap >= 1 {
            let r = spec_cache_put(s, inp.fresh, v, cap);
            if cache_has(r, c) {
                let i = choose|i: int| 0 <= i < r.len() && (#[trigger] r[i]).0 == c;
                if cache_has(s, inp.fresh) {
                    if i < r.len() - 1 {
                        let e = remove_key(s, inp.fresh)[i];
                        assert(remove_key(s, inp.fresh).contains(e)) by {
                            lemma_remove_key_effect(s, inp.fresh);
                        }
                        assert(s.contains(e)) by {
                            lemma_remove_key_effect(s, inp.fresh);
                        }
                        let j = choose|j: int| 0 <= j < s.len() && s[j] == e;
                        assert(cache_has(s, c));
                    }
                } else if s.len() >= cap {
                    assert(r == s.drop_first().push((inp.fresh, v)));
                    if i < r.len() - 1 {
                        assert(r[i] == s.drop_first()[i]);
                        assert(s.drop_first() == s.subrange(1, s.len() as int));
                        assert(s.subrange(1, s.len() as int)[i] == s[i + 1]);
                        assert(cache_has(s, c));
                    }
                } else {
                    if i < r.len() - 1 {
                        assert(r[i] == s[i]);
                        assert(cache_has(s, c));
                    }
                }
            }
        }
    }
}

/// Token expiry: a code redeemed more than the maximum lifetime after its
/// mint is refused with `expired token`, the code is discarded, and the
/// store is not written.
pub proof fn lemma_token_expiry(
    pre: ServerView,
    inp: RequestInput,
    sign: Result<Seq<u8>, Seq<u8>>,
    h: ReqHeadView,
    body_at: int,
    c: Seq<u8>,
)
    requires
        inp.peer is Some,
        redeem_request(inp, h, body_at, c),
        cache_has(pre.tokens, c),
        inp.now > cache_get(pre.tokens, c).created_at + MAX_TOKEN_DURATION_SECS,
    ensures
        server_step(pre, inp, sign).resp == spec_error_response(
            h.id,
            STATUS_FORBIDDEN,
            spec_msg_expired_token(),
        ),
        server_step(pre, inp, sign).post.store == pre.store,
        server_step(pre, inp, sign).post.tokens == remove_key(pre.tokens, c),
{
    lemma_segs_distinct();
    let peer = inp.peer.unwrap();
    let o = server_step(pre, inp, sign);
    assert(o == step_dispatch(pre, inp, sign, peer, h, body_at));
    assert(o == step_redeem(pre, inp, sign, peer, h, body_at));
}

/// Attestation propagation, minting side: a token minted by an enroller
/// records that enroller, and redeeming it writes the member's entry with
/// that same enroller as attester.
pub proof fn lemma_attestation_via_token(
    pre: ServerView,
    inp: RequestInput,
    sign: Result<Seq<u8>, Seq<u8>>,
    peer: Seq<u8>,
    h: ReqHeadView,
    body_at: int,
    c: Seq<u8>,
)
    requires
        inp.peer == Some(peer),
        redeem_request(inp, h, body_at, c),
        cache_has(pre.tokens, c),
        inp.now <= cache_get(pre.tokens, c).created_at + MAX_TOKEN_DURATION_SECS,
    ensures
        server_step(pre, inp, sign).post.store.contains_key(peer),
        server_step(pre, inp, sign).post.store[peer] == (EntryView {
            attrs: cache_get(pre.tokens, c).attrs,
            created_at: inp.now,
            expires_at: None,
            attested_by: Some(cache_get(pre.tokens, c).generated_by),
        }),
{
    lemma_segs_distinct();
    let o = server_step(pre, inp, sign);
    assert(o == step_dispatch(pre, inp, sign, peer, h, body_at));
    assert(o == step_redeem(pre, inp, sign, peer, h, body_at));
}

/// Attestation propagation, minting: the token stored by a `/tokens`
/// request names the minting enroller and the supplied attributes.
pub proof fn lemma_mint_records_enroller(
    pre: ServerView,
    inp: RequestInput,
    sign: Result<Seq<u8>, Seq<u8>>,
    peer: Seq<u8>,
    h: ReqHeadView,
    body_at: int,
    es: Set<Seq<u8>>,
    attrs: Seq<(Seq<u8>, Seq<u8>)>,
    rest: int,
)
    requires
        inp.peer == Some(peer),
        p_req_head(inp.data, 0) == Some((h, body_at)),
        h.method == METHOD_POST,
        path_segments(h.path) == seq![spec_seg_tokens()],
        reload_outcome(pre.reload, pre.source_path, pre.enrollers, inp.reload) == Ok::<
            Set<Seq<u8>>,
            Seq<u8>,
        >(es),
        es.contains(peer),
        p_create_token(inp.data, body_at) == Some((attrs, rest)),
    ensures
        server_step(pre, inp, sign).post.tokens == spec_cache_put(
            pre.tokens,
            inp.fresh,
            TokenView { attrs, generated_by: peer, created_at: inp.now },
            TOKEN_CACHE_CAPACITY as nat,
        ),
        server_step(pre, inp, sign).resp == spec_response(h.id, STATUS_OK, Some(inp.fresh)),
{
}

/// Attestation propagation, direct addition: a member added via `/members`
/// by an enroller carries that enroller as attester.
pub proof fn lemma_attestation_via_members(
    pre: ServerView,
    inp: RequestInput,
    sign: Result<Seq<u8>, Seq<u8>>,
    peer: Seq<u8>,
    h: ReqHeadView,
    body_at: int,
    es: Set<Seq<u8>>,
    member: Seq<u8>,
    attrs: Seq<(Seq<u8>, Seq<u8>)>,
    rest: int,
)
    requires
        inp.peer == Some(peer),
        p_req_head(inp.data, 0) == Some((h, body_at)),
        h.method == METHOD_POST,
        path_segments(h.path) == seq![spec_seg_members()],
        reload_outcome(pre.reload, pre.source_path, pre.enrollers, inp.reload) == Ok::<
            Set<Seq<u8>>,
            Seq<u8>,
        >(es),
        es.contains(peer),
        p_add_member(inp.data, body_at) == Some(((member, attrs), rest)),
    ensures
        server_step(pre, inp, sign).post.store == pre.store.insert(
            member,
            EntryView {
                attrs,
                created_at: inp.now,
                expires_at: None,
                attested_by: Some(peer),
            },
        ),
        server_step(pre, inp, sign).resp == spec_response(h.id, STATUS_OK, None),
{
    lemma_segs_distinct();
    let o = server_step(pre, inp, sign);
    assert(o == step_dispatch(pre, inp, sign, peer, h, body_at));
    assert(o == step_members(pre, inp, peer, h, body_at));
}

/// Attestation propagation, migration: every entry the startup migration
/// adds or replaces is unattested and non-expiring; entries it did not
/// touch are the store's prior ones.
pub proof fn lemma_migration_unattested(
    m: Map<Seq<u8>, EntryView>,
    recs: Seq<(Seq<u8>, Seq<u8>)>,
    now: u64,
    m2: Map<Seq<u8>, EntryView>,
)
    requires
        crate::server::migrate_map(m, recs, now) == Some(m2),
    ensures
        forall|k: Seq<u8>|
            m2.contains_key(k) ==> (m.contains_key(k) && m2[k] == m[k]) || (m2[k].attested_by
                is None && m2[k].expires_at is None && m2[k].created_at == now),
    decreases recs.len(),
{
    if recs.len() == 0 {
    } else {
        match crate::cbor::p_cbor_map(recs[0].1) {
            Some(pairs) => {
                let entry = EntryView {
                    attrs: pairs,
                    created_at: now,
                    expires_at: None,
                    attested_by: None,
                };
                lemma_migration_unattested(m.insert(recs[0].0, entry), recs.drop_first(), now, m2);
            },
            None => {},
        }
    }
}

/// Cache bound: a well-formed state holds at most the cache's capacity of
/// live tokens, and every step preserves well-formedness.
pub proof fn lemma_cache_bound(
    pre: ServerView,
    inp: RequestInput,
    sign: Result<Seq<u8>, Seq<u8>>,
)
    requires
        view_wf(pre),
    ensures
        pre.tokens.len() <= TOKEN_CACHE_CAPACITY,
        view_wf(server_step(pre, inp, sign).post),
        server_step(pre, inp, sign).post.tokens.len() <= TOKEN_CACHE_CAPACITY,
{
    let post = server_step(pre, inp, sign).post;
    if post.tokens == pre.tokens {
    } else {
        assert forall|k: Seq<u8>, v: TokenView, cap: nat|
            cache_unique(pre.tokens) && pre.tokens.len() <= cap && cap >= 1 implies {
            &&& cache_unique(spec_cache_put(pre.tokens, k, v, cap))
            &&& spec_cache_put(pre.tokens, k, v, cap).len() <= cap
        } by {
            lemma_cache_put_wf(pre.tokens, k, v, cap);
        }
        assert forall|k: Seq<u8>| true implies {
            &&& cache_unique(remove_key(pre.tokens, k))
            &&& remove_key(pre.tokens, k).len() <= pre.tokens.len()
        } by {
            lemma_remove_key_effect(pre.tokens, k);
            lemma_remove_key_unique(pre.tokens, k);
        }
    }
}

/// Credential round-trip, redemption: a successfully signed credential from
/// a token carries the token's attributes, then the reserved `project_id`
/// pair with the configured project, under the membership schema.
pub proof fn lemma_credential_shape_redeem(
    pre: ServerView,
    inp: RequestInput,
    sig: Seq<u8>,
    peer: Seq<u8>,
    h: ReqHeadView,
    body_at: int,
    c: Seq<u8>,
)
    requires
        inp.peer == Some(peer),
        redeem_request(inp, h, body_at, c),
        cache_has(pre.tokens, c),
        inp.now <= cache_get(pre.tokens, c).created_at + MAX_TOKEN_DURATION_SECS,
    ensures
        server_step(pre, inp, Ok(sig)).resp == spec_response(
            h.id,
            STATUS_OK,
            Some(
                spec_enc_credential(
                    CredView {
                        data: CredDataView {
                            subject: peer,
                            schema: crate::issuer::PROJECT_MEMBER_SCHEMA,
                            attrs: cache_get(pre.tokens, c).attrs.push(
                                (spec_project_id_attr_name(), pre.project),
                            ),
                        },
                        signature: sig,
                    },
                ),
            ),
        ),
{
    lemma_segs_distinct();
    let sign = Ok::<Seq<u8>, Seq<u8>>(sig);
    let o = server_step(pre, inp, sign);
    assert(o == step_dispatch(pre, inp, sign, peer, h, body_at));
    assert(o == step_redeem(pre, inp, sign, peer, h, body_at));
    assert(spec_credential_data(peer, cache_get(pre.tokens, c).attrs, pre.project)
        == (CredDataView {
        subject: peer,
        schema: crate::issuer::PROJECT_MEMBER_SCHEMA,
        attrs: cache_get(pre.tokens, c).attrs.push((spec_project_id_attr_name(), pre.project)),
    }));
}

/// Credential round-trip, standing member: a successfully signed credential
/// carries exactly the stored entry's attributes, then the reserved
/// `project_id` pair, under the membership schema.
pub proof fn lemma_credential_shape_member(
    pre: ServerView,
    inp: RequestInput,
    sig: Seq<u8>,
    peer: Seq<u8>,
    h: ReqHeadView,
    body_at: int,
)
    requires
        inp.peer == Some(peer),
        p_req_head(inp.data, 0) == Some((h, body_at)),
        h.method == METHOD_POST,
        path_segments(h.path) == seq![spec_seg_credential()],
        !h.has_body,
        pre.store.contains_key(peer),
    ensures
        server_step(pre, inp, Ok(sig)).post == pre,
        server_step(pre, inp, Ok(sig)).resp == spec_response(
            h.id,
            STATUS_OK,
            Some(
                spec_enc_credential(
                    CredView {
                        data: CredDataView {
                            subject: peer,
                            schema: crate::issuer::PROJECT_MEMBER_SCHEMA,
                            attrs: pre.store[peer].attrs.push(
                                (spec_project_id_attr_name(), pre.project),
                            ),
                        },
                        signature: sig,
                    },
                ),
            ),
        ),
{
    lemma_segs_distinct();
    let sign = Ok::<Seq<u8>, Seq<u8>>(sig);
    let o = server_step(pre, inp, sign);
    assert(o == step_dispatch(pre, inp, sign, peer, h, body_at));
    assert(o == step_issue(pre, sign, peer, h));
    assert(spec_credential_data(peer, pre.store[peer].attrs, pre.project) == (CredDataView {
        subject: peer,
        schema: crate::issuer::PROJECT_MEMBER_SCHEMA,
        attrs: pre.store[peer].attrs.push((spec_project_id_attr_name(), pre.project)),
    }));
}

/// A framed OK response carrying a credential parses back to exactly that
/// credential: what the client decodes is what the server issued.
pub proof fn lemma_credential_response_roundtrip(re: u64, c: CredView)
    requires
        enc_len_ok(c.data.subject),
        attrs_len_ok(c.data.attrs),
        enc_len_ok(c.signature),
    ensures
        ({
            let resp = spec_response(re, STATUS_OK, Some(spec_enc_credential(c)));
            &&& p_resp_head(resp, 0) == Some(
                (RespHeadView { re, status: STATUS_OK, has_body: true }, 13int),
            )
            &&& p_credential(resp, 13) == Some((c, resp.len() as int))
        }),
{
    let hv = RespHeadView { re, status: STATUS_OK, has_body: true };
    let head = spec_enc_resp_head(hv);
    let body = spec_enc_credential(c);
    let resp = spec_response(re, STATUS_OK, Some(body));
    lemma_concat_parts(head, body);
    assert(resp.subrange(0, head.len() as int) == head);
    lemma_p_resp_head_at(resp, 0, hv);
    assert(resp.subrange(13, 13 + body.len() as int) == body);
    lemma_p_credential_at(resp, 13, c);
}

/// Hot reload: with reload configured, an enroller-gated request decides
/// authorization against the re-read file, and the new allow-list replaces
/// the old one.
pub proof fn lemma_hot_reload(
    pre: ServerView,
    inp: RequestInput,
    sign: Result<Seq<u8>, Seq<u8>>,
    peer: Seq<u8>,
    h: ReqHeadView,
    body_at: int,
    doc: Seq<char>,
    keys: Seq<Seq<u8>>,
)
    requires
        inp.peer == Some(peer),
        gated_request(inp, h, body_at),
        pre.reload,
        pre.source_path is Some,
        inp.reload == Some(Ok::<Seq<char>, Seq<u8>>(doc)),
        enroller_doc_members(doc) == Some(keys),
    ensures
        server_step(pre, inp, sign).post.enrollers == member_set(keys),
        !member_set(keys).contains(peer) ==> server_step(pre, inp, sign).resp
            == spec_error_response(h.id, STATUS_FORBIDDEN, spec_msg_unauthorized_enroller()),
{
}


// ---------------------------------------------------------------------------
// Wire compatibility: what the client frames, the server reads back
// ---------------------------------------------------------------------------

/// The request paths the client writes name exactly the three endpoints.
pub proof fn lemma_client_paths()
    ensures
        path_segments(spec_path_tokens()) == seq![spec_seg_tokens()],
        path_segments(spec_path_members()) == seq![spec_seg_members()],
        path_segments(spec_path_credential()) == seq![spec_seg_credential()],
{
    assert(spec_path_tokens() =~= seq![PATH_SEP] + spec_seg_tokens());
    assert forall|i: int| 0 <= i < spec_seg_tokens().len() implies spec_seg_tokens()[i]
        != PATH_SEP by {}
    lemma_path_single_seg(spec_seg_tokens());
    assert(spec_path_members() =~= seq![PATH_SEP] + spec_seg_members());
    assert forall|i: int| 0 <= i < spec_seg_members().len() implies spec_seg_members()[i]
        != PATH_SEP by {}
    lemma_path_single_seg(spec_seg_members());
    assert(spec_path_credential() =~= seq![PATH_SEP] + spec_seg_credential());
    assert forall|i: int| 0 <= i < spec_seg_credential().len() implies spec_seg_credential()[i]
        != PATH_SEP by {}
    lemma_path_single_seg(spec_seg_credential());
}

/// A framed token-minting request parses back to its header and attributes:
/// the server reads it as a mint by the sending client.
pub proof fn lemma_wire_mint_request(id: u64, attrs: Seq<(Seq<u8>, Seq<u8>)>, data: Seq<u8>)
    requires
        attrs_len_ok(attrs),
        data == spec_enc_req_head(client_head(id, spec_path_tokens(), true))
            + spec_enc_create_token(attrs),
    ensures
        ({
            let h = client_head(id, spec_path_tokens(), true);
            let hl = spec_enc_req_head(h).len() as int;
            &&& p_req_head(data, 0) == Some((h, hl))
            &&& h.method == METHOD_POST
            &&& path_segments(h.path) == seq![spec_seg_tokens()]
            &&& p_create_token(data, hl) == Some((attrs, data.len() as int))
        }),
{
    let h = client_head(id, spec_path_tokens(), true);
    let head = spec_enc_req_head(h);
    let body = spec_enc_create_token(attrs);
    lemma_concat_parts(head, body);
    lemma_p_req_head_at(data, 0, h);
    lemma_p_create_token_at(data, head.len() as int, attrs);
    lemma_client_paths();
}

/// A framed member-addition request parses back to its header, member and
/// attributes.
pub proof fn lemma_wire_add_member_request(
    id: u64,
    member: Seq<u8>,
    attrs: Seq<(Seq<u8>, Seq<u8>)>,
    data: Seq<u8>,
)
    requires
        enc_len_ok(member),
        attrs_len_ok(attrs),
        data == spec_enc_req_head(client_head(id, spec_path_members(), true))
            + spec_enc_add_member(member, attrs),
    ensures
        ({
            let h = client_head(id, spec_path_members(), true);
            let hl = spec_enc_req_head(h).len() as int;
            &&& p_req_head(data, 0) == Some((h, hl))
            &&& h.method == METHOD_POST
            &&& path_segments(h.path) == seq![spec_seg_members()]
            &&& p_add_member(data, hl) == Some(((member, attrs), data.len() as int))
        }),
{
    let h = client_head(id, spec_path_members(), true);
    let head = spec_enc_req_head(h);
    let body = spec_enc_add_member(member, attrs);
    lemma_concat_parts(head, body);
    lemma_p_req_head_at(data, 0, h);
    lemma_p_add_member_at(data, head.len() as int, member, attrs);
    lemma_client_paths();
}

/// A framed redemption request parses back to its header and the cited
/// code: every input with these bytes is a redemption of that code.
pub proof fn lemma_wire_redeem_request(id: u64, c: Seq<u8>, inp: RequestInput, h: ReqHeadView)
    requires
        c.len() == 32,
        h == client_head(id, spec_path_credential(), true),
        inp.data == spec_enc_req_head(h) + c,
    ensures
        redeem_request(inp, h, spec_enc_req_head(h).len() as int, c),
{
    let head = spec_enc_req_head(h);
    lemma_concat_parts(head, c);
    lemma_p_req_head_at(inp.data, 0, h);
    lemma_client_paths();
    assert(inp.data.subrange(head.len() as int, inp.data.len() as int) == c);
    assert(p_otc(inp.data, head.len() as int) == Some(c));
}

/// A framed credential request without a body parses back to its header.
pub proof fn lemma_wire_credential_request(id: u64, data: Seq<u8>)
    requires
        data == spec_enc_req_head(client_head(id, spec_path_credential(), false)),
    ensures
        ({
            let h = client_head(id, spec_path_credential(), false);
            &&& p_req_head(data, 0) == Some((h, data.len() as int))
            &&& h.method == METHOD_POST
            &&& path_segments(h.path) == seq![spec_seg_credential()]
            &&& !h.has_body
        }),
{
    let h = client_head(id, spec_path_credential(), false);
    assert(data.subrange(0, spec_enc_req_head(h).len() as int) =~= spec_enc_req_head(h));
    lemma_p_req_head_at(data, 0, h);
    lemma_client_paths();
}

} // verus!
