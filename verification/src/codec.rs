//! Compact binary request and response frames.
//!
//! A frame is a header followed (when the header says so) by one body. Every
//! field is preceded by a fixed one-byte integer tag, assigned per struct, so
//! that independently written peers interoperate bit for bit. Integers are
//! eight bytes big-endian; byte strings carry their length first; a one-time
//! code travels as exactly its 32 raw bytes.
//!
//! Each shape has a spec-level encoder (`spec_enc_*`), a spec-level parser
//! (`p_*`), an executable encoder proved equal to the spec encoder, and an
//! executable decoder proved equal to the spec parser. Inversion lemmas show
//! that each parser accepts exactly what the matching encoder produced.

use vstd::prelude::*;
use vstd::slice::{slice_subrange, slice_to_vec};
use crate::types::{Attr, IdentityId, attrs_of};

verus! {

// ---------------------------------------------------------------------------
// Methods and statuses
// ---------------------------------------------------------------------------

/// Request methods, with their one-byte wire codes.
pub enum Method {
    Get,
    Post,
    Put,
    Delete,
    Patch,
}

pub const METHOD_GET: u8 = 0;
pub const METHOD_POST: u8 = 1;
pub const METHOD_PUT: u8 = 2;
pub const METHOD_DELETE: u8 = 3;
pub const METHOD_PATCH: u8 = 4;

impl Method {
    pub open spec fn spec_code(self) -> u8 {
        match self {
            Method::Get => METHOD_GET,
            Method::Post => METHOD_POST,
            Method::Put => METHOD_PUT,
            Method::Delete => METHOD_DELETE,
            Method::Patch => METHOD_PATCH,
        }
    }

    pub fn code(&self) -> (r: u8)
        ensures
            r == self.spec_code(),
    {
        match self {
            Method::Get => METHOD_GET,
            Method::Post => METHOD_POST,
            Method::Put => METHOD_PUT,
            Method::Delete => METHOD_DELETE,
            Method::Patch => METHOD_PATCH,
        }
    }
}

/// Response statuses, with their one-byte wire codes.
pub const STATUS_OK: u8 = 0;
pub const STATUS_BAD_REQUEST: u8 = 1;
pub const STATUS_FORBIDDEN: u8 = 2;
pub const STATUS_NOT_FOUND: u8 = 3;
pub const STATUS_METHOD_NOT_ALLOWED: u8 = 4;
pub const STATUS_INTERNAL_ERROR: u8 = 5;

// ---------------------------------------------------------------------------
// Integer fields: eight bytes, big-endian
// ---------------------------------------------------------------------------

pub open spec fn spec_enc_u64(x: u64) -> Seq<u8> {
    seq![
        (x >> 56) as u8,
        (x >> 48) as u8,
        (x >> 40) as u8,
        (x >> 32) as u8,
        (x >> 24) as u8,
        (x >> 16) as u8,
        (x >> 8) as u8,
        x as u8,
    ]
}

pub open spec fn spec_dec_u64(s: Seq<u8>) -> u64
    recommends
        s.len() == 8,
{
    ((s[0] as u64) << 56) | ((s[1] as u64) << 48) | ((s[2] as u64) << 40) | ((s[3] as u64) << 32)
        | ((s[4] as u64) << 24) | ((s[5] as u64) << 16) | ((s[6] as u64) << 8) | (s[7] as u64)
}

pub proof fn lemma_u64_roundtrip(x: u64)
    ensures
        spec_dec_u64(spec_enc_u64(x)) == x,
{
    assert(spec_enc_u64(x)[0] == (x >> 56) as u8);
    assert(spec_enc_u64(x)[1] == (x >> 48) as u8);
    assert(spec_enc_u64(x)[2] == (x >> 40) as u8);
    assert(spec_enc_u64(x)[3] == (x >> 32) as u8);
    assert(spec_enc_u64(x)[4] == (x >> 24) as u8);
    assert(spec_enc_u64(x)[5] == (x >> 16) as u8);
    assert(spec_enc_u64(x)[6] == (x >> 8) as u8);
    assert(spec_enc_u64(x)[7] == x as u8);
    assert(((((x >> 56) as u8) as u64) << 56) | ((((x >> 48) as u8) as u64) << 48)
        | ((((x >> 40) as u8) as u64) << 40) | ((((x >> 32) as u8) as u64) << 32)
        | ((((x >> 24) as u8) as u64) << 24) | ((((x >> 16) as u8) as u64) << 16)
        | ((((x >> 8) as u8) as u64) << 8) | ((x as u8) as u64) == x) by (bit_vector);
}

// ---------------------------------------------------------------------------
// Spec-level parsers, at absolute positions
// ---------------------------------------------------------------------------

pub open spec fn p_u64(s: Seq<u8>, i: int) -> Option<(u64, int)> {
    if 0 <= i && i + 8 <= s.len() {
        Some((spec_dec_u64(s.subrange(i, i + 8)), i + 8))
    } else {
        None
    }
}

pub open spec fn p_tag(s: Seq<u8>, i: int, t: u8) -> Option<int> {
    if 0 <= i && i + 1 <= s.len() && s[i] == t {
        Some(i + 1)
    } else {
        None
    }
}

pub open spec fn p_byte(s: Seq<u8>, i: int) -> Option<(u8, int)> {
    if 0 <= i && i + 1 <= s.len() {
        Some((s[i], i + 1))
    } else {
        None
    }
}

pub open spec fn p_bool(s: Seq<u8>, i: int) -> Option<(bool, int)> {
    match p_byte(s, i) {
        Some((b, j)) => if b == 1 {
            Some((true, j))
        } else if b == 0 {
            Some((false, j))
        } else {
            None
        },
        None => None,
    }
}

pub open spec fn p_bytes(s: Seq<u8>, i: int) -> Option<(Seq<u8>, int)> {
    match p_u64(s, i) {
        Some((n, j)) => if j + n <= s.len() {
            Some((s.subrange(j, j + n), j + n))
        } else {
            None
        },
        None => None,
    }
}

// ---------------------------------------------------------------------------
// Spec-level encoders for composite fields
// ---------------------------------------------------------------------------

pub open spec fn spec_enc_bytes(b: Seq<u8>) -> Seq<u8> {
    spec_enc_u64(b.len() as u64) + b
}

/// A byte string field is encodable when its length fits the wire integer.
pub open spec fn enc_len_ok(b: Seq<u8>) -> bool {
    b.len() < 0x1_0000_0000_0000_0000
}

pub open spec fn spec_enc_attr(a: (Seq<u8>, Seq<u8>)) -> Seq<u8> {
    spec_enc_bytes(a.0) + spec_enc_bytes(a.1)
}

pub open spec fn spec_enc_attrs_seq(s: Seq<(Seq<u8>, Seq<u8>)>) -> Seq<u8>
    decreases s.len(),
{
    if s.len() == 0 {
        Seq::empty()
    } else {
        spec_enc_attr(s[0]) + spec_enc_attrs_seq(s.drop_first())
    }
}

pub open spec fn spec_enc_attrs(s: Seq<(Seq<u8>, Seq<u8>)>) -> Seq<u8> {
    spec_enc_u64(s.len() as u64) + spec_enc_attrs_seq(s)
}

/// An attribute list is encodable when its count and all its parts fit.
pub open spec fn attrs_len_ok(s: Seq<(Seq<u8>, Seq<u8>)>) -> bool {
    &&& s.len() < 0x1_0000_0000_0000_0000
    &&& forall|k: int| 0 <= k < s.len() ==> enc_len_ok(#[trigger] s[k].0) && enc_len_ok(s[k].1)
}

pub open spec fn p_attrs_n(s: Seq<u8>, i: int, n: nat) -> Option<(Seq<(Seq<u8>, Seq<u8>)>, int)>
    decreases n,
{
    if n == 0 {
        Some((Seq::empty(), i))
    } else {
        match p_bytes(s, i) {
            Some((name, j)) => match p_bytes(s, j) {
                Some((value, k)) => match p_attrs_n(s, k, (n - 1) as nat) {
                    Some((rest, m)) => Some((seq![(name, value)] + rest, m)),
                    None => None,
                },
                None => None,
            },
            None => None,
        }
    }
}

pub open spec fn p_attrs(s: Seq<u8>, i: int) -> Option<(Seq<(Seq<u8>, Seq<u8>)>, int)> {
    match p_u64(s, i) {
        Some((n, j)) => p_attrs_n(s, j, n as nat),
        None => None,
    }
}

// ---------------------------------------------------------------------------
// Subrange helpers
// ---------------------------------------------------------------------------

/// A window that equals a concatenation splits into the two parts.
pub proof fn lemma_split_window(s: Seq<u8>, i: int, a: Seq<u8>, b: Seq<u8>)
    requires
        0 <= i,
        i + a.len() + b.len() <= s.len(),
        s.subrange(i, i + a.len() + b.len()) == a + b,
    ensures
        s.subrange(i, i + a.len()) == a,
        s.subrange(i + a.len(), i + a.len() + b.len()) == b,
{
    let w = s.subrange(i, i + a.len() + b.len());
    assert forall|k: int| 0 <= k < a.len() implies s.subrange(i, i + a.len())[k] == a[k] by {
        assert(w[k] == (a + b)[k]);
    }
    assert(s.subrange(i, i + a.len()) =~= a);
    assert forall|k: int| 0 <= k < b.len() implies s.subrange(
        i + a.len(),
        i + a.len() + b.len(),
    )[k] == b[k] by {
        assert(w[a.len() + k] == (a + b)[a.len() + k]);
    }
    assert(s.subrange(i + a.len(), i + a.len() + b.len()) =~= b);
}

// ---------------------------------------------------------------------------
// Inversion lemmas: each parser accepts what the encoder wrote
// ---------------------------------------------------------------------------

pub proof fn lemma_p_u64_at(s: Seq<u8>, i: int, x: u64)
    requires
        0 <= i,
        i + 8 <= s.len(),
        s.subrange(i, i + 8) == spec_enc_u64(x),
    ensures
        p_u64(s, i) == Some((x, i + 8)),
{
    lemma_u64_roundtrip(x);
}

pub proof fn lemma_p_tag_at(s: Seq<u8>, i: int, t: u8)
    requires
        0 <= i,
        i + 1 <= s.len(),
        s.subrange(i, i + 1) == seq![t],
    ensures
        p_tag(s, i, t) == Some(i + 1),
{
    assert(s[i] == s.subrange(i, i + 1)[0]);
}

pub proof fn lemma_p_byte_at(s: Seq<u8>, i: int, b: u8)
    requires
        0 <= i,
        i + 1 <= s.len(),
        s.subrange(i, i + 1) == seq![b],
    ensures
        p_byte(s, i) == Some((b, i + 1)),
{
    assert(s[i] == s.subrange(i, i + 1)[0]);
}

pub proof fn lemma_p_bytes_at(s: Seq<u8>, i: int, b: Seq<u8>)
    requires
        0 <= i,
        enc_len_ok(b),
        i + 8 + b.len() <= s.len(),
        s.subrange(i, i + 8 + b.len()) == spec_enc_bytes(b),
    ensures
        p_bytes(s, i) == Some((b, i + 8 + b.len())),
{
    lemma_split_window(s, i, spec_enc_u64(b.len() as u64), b);
    lemma_p_u64_at(s, i, b.len() as u64);
}

pub proof fn lemma_p_attrs_n_at(s: Seq<u8>, i: int, a: Seq<(Seq<u8>, Seq<u8>)>)
    requires
        0 <= i,
        attrs_len_ok(a),
        i + spec_enc_attrs_seq(a).len() <= s.len(),
        s.subrange(i, i + spec_enc_attrs_seq(a).len()) == spec_enc_attrs_seq(a),
    ensures
        p_attrs_n(s, i, a.len()) == Some((a, i + spec_enc_attrs_seq(a).len())),
    decreases a.len(),
{
    if a.len() == 0 {
        assert(p_attrs_n(s, i, 0) == Some((Seq::<(Seq<u8>, Seq<u8>)>::empty(), i)));
        assert(a =~= Seq::<(Seq<u8>, Seq<u8>)>::empty());
    } else {
        let head = a[0];
        let tail = a.drop_first();
        let e_head = spec_enc_attr(head);
        let e_tail = spec_enc_attrs_seq(tail);
        assert(spec_enc_attrs_seq(a) == e_head + e_tail);
        lemma_split_window(s, i, e_head, e_tail);
        let e_name = spec_enc_bytes(head.0);
        let e_value = spec_enc_bytes(head.1);
        assert(e_head == e_name + e_value);
        lemma_split_window(s, i, e_name, e_value);
        assert(enc_len_ok(head.0) && enc_len_ok(head.1));
        lemma_p_bytes_at(s, i, head.0);
        let j = i + e_name.len();
        lemma_p_bytes_at(s, j, head.1);
        let k = j + e_value.len();
        assert forall|t: int| 0 <= t < tail.len() implies enc_len_ok(#[trigger] tail[t].0)
            && enc_len_ok(tail[t].1) by {
            assert(tail[t] == a[t + 1]);
        }
        assert(k == i + e_head.len());
        lemma_p_attrs_n_at(s, k, tail);
        assert(a =~= seq![(head.0, head.1)] + tail);
        assert((a.len() - 1) as nat == tail.len());
    }
}

pub proof fn lemma_p_attrs_at(s: Seq<u8>, i: int, a: Seq<(Seq<u8>, Seq<u8>)>)
    requires
        0 <= i,
        attrs_len_ok(a),
        i + spec_enc_attrs(a).len() <= s.len(),
        s.subrange(i, i + spec_enc_attrs(a).len()) == spec_enc_attrs(a),
    ensures
        p_attrs(s, i) == Some((a, i + spec_enc_attrs(a).len())),
{
    lemma_split_window(s, i, spec_enc_u64(a.len() as u64), spec_enc_attrs_seq(a));
    lemma_p_u64_at(s, i, a.len() as u64);
    lemma_p_attrs_n_at(s, i + 8, a);
}

/// Appending one attribute extends its encoding at the end.
pub proof fn lemma_enc_attrs_seq_snoc(s: Seq<(Seq<u8>, Seq<u8>)>, x: (Seq<u8>, Seq<u8>))
    ensures
        spec_enc_attrs_seq(s.push(x)) == spec_enc_attrs_seq(s) + spec_enc_attr(x),
    decreases s.len(),
{
    if s.len() == 0 {
        assert(s.push(x)[0] == x);
        assert(s.push(x).drop_first() =~= Seq::<(Seq<u8>, Seq<u8>)>::empty());
        assert(spec_enc_attrs_seq(s.push(x)) == spec_enc_attr(x) + spec_enc_attrs_seq(
            Seq::<(Seq<u8>, Seq<u8>)>::empty(),
        ));
        assert(spec_enc_attrs_seq(s.push(x)) =~= spec_enc_attrs_seq(s) + spec_enc_attr(x));
    } else {
        let t = s.drop_first();
        assert(s.push(x).drop_first() =~= t.push(x));
        lemma_enc_attrs_seq_snoc(t, x);
        assert(s.push(x)[0] == s[0]);
        assert(s.push(x).len() != 0);
        assert(spec_enc_attrs_seq(s.push(x)) == spec_enc_attr(s[0]) + spec_enc_attrs_seq(t.push(x)));
        assert(spec_enc_attrs_seq(s) == spec_enc_attr(s[0]) + spec_enc_attrs_seq(t));
        assert(spec_enc_attr(s[0]) + (spec_enc_attrs_seq(t) + spec_enc_attr(x)) =~= (spec_enc_attr(
            s[0],
        ) + spec_enc_attrs_seq(t)) + spec_enc_attr(x));
    }
}

// ---------------------------------------------------------------------------
// Executable encoders
// ---------------------------------------------------------------------------

pub fn enc_u64_into(out: &mut Vec<u8>, x: u64)
    ensures
        final(out)@ == old(out)@ + spec_enc_u64(x),
{
    out.push((x >> 56) as u8);
    out.push((x >> 48) as u8);
    out.push((x >> 40) as u8);
    out.push((x >> 32) as u8);
    out.push((x >> 24) as u8);
    out.push((x >> 16) as u8);
    out.push((x >> 8) as u8);
    out.push(x as u8);
    proof {
        assert(out@ =~= old(out)@ + spec_enc_u64(x));
    }
}

pub fn enc_bytes_into(out: &mut Vec<u8>, b: &Vec<u8>)
    ensures
        final(out)@ == old(out)@ + spec_enc_bytes(b@),
{
    enc_u64_into(out, b.len() as u64);
    out.extend_from_slice(b.as_slice());
    proof {
        assert(out@ =~= old(out)@ + spec_enc_bytes(b@));
    }
}

pub fn enc_attrs_into(out: &mut Vec<u8>, attrs: &Vec<Attr>)
    ensures
        final(out)@ == old(out)@ + spec_enc_attrs(attrs_of(attrs@)),
{
    let ghost a = attrs_of(attrs@);
    enc_u64_into(out, attrs.len() as u64);
    let mut i: usize = 0;
    while i < attrs.len()
        invariant
            i <= attrs@.len(),
            a == attrs_of(attrs@),
            out@ == old(out)@ + spec_enc_u64(attrs@.len() as u64) + spec_enc_attrs_seq(
                a.take(i as int),
            ),
        decreases attrs@.len() - i,
    {
        proof {
            assert(a.take(i as int).push(a[i as int]) =~= a.take(i + 1));
            lemma_enc_attrs_seq_snoc(a.take(i as int), a[i as int]);
        }
        enc_bytes_into(out, &attrs[i].name);
        enc_bytes_into(out, &attrs[i].value);
        proof {
            assert(a[i as int] == attrs@[i as int]@);
        }
        i += 1;
    }
    proof {
        assert(a.take(a.len() as int) =~= a);
        assert(out@ =~= old(out)@ + spec_enc_attrs(a));
    }
}

// ---------------------------------------------------------------------------
// Executable decoders
// ---------------------------------------------------------------------------

pub fn dec_u64(data: &Vec<u8>, pos: usize) -> (r: Option<(u64, usize)>)
    requires
        pos <= data@.len(),
    ensures
        match r {
            Some((x, j)) => p_u64(data@, pos as int) == Some((x, j as int)) && j <= data@.len(),
            None => p_u64(data@, pos as int) is None,
        },
{
    if data.len() - pos < 8 {
        return None;
    }
    let x = ((data[pos] as u64) << 56) | ((data[pos + 1] as u64) << 48) | ((data[pos
        + 2] as u64) << 40) | ((data[pos + 3] as u64) << 32) | ((data[pos + 4] as u64) << 24) | ((
    data[pos + 5] as u64) << 16) | ((data[pos + 6] as u64) << 8) | (data[pos + 7] as u64);
    proof {
        let w = data@.subrange(pos as int, pos + 8);
        assert(w[0] == data@[pos as int]);
        assert(w[1] == data@[pos + 1]);
        assert(w[2] == data@[pos + 2]);
        assert(w[3] == data@[pos + 3]);
        assert(w[4] == data@[pos + 4]);
        assert(w[5] == data@[pos + 5]);
        assert(w[6] == data@[pos + 6]);
        assert(w[7] == data@[pos + 7]);
    }
    Some((x, pos + 8))
}

pub fn dec_tag(data: &Vec<u8>, pos: usize, t: u8) -> (r: Option<usize>)
    requires
        pos <= data@.len(),
    ensures
        match r {
            Some(j) => p_tag(data@, pos as int, t) == Some(j as int) && j <= data@.len(),
            None => p_tag(data@, pos as int, t) is None,
        },
{
    if data.len() - pos < 1 {
        return None;
    }
    if data[pos] == t {
        Some(pos + 1)
    } else {
        None
    }
}

pub fn dec_byte(data: &Vec<u8>, pos: usize) -> (r: Option<(u8, usize)>)
    requires
        pos <= data@.len(),
    ensures
        match r {
            Some((b, j)) => p_byte(data@, pos as int) == Some((b, j as int)) && j <= data@.len(),
            None => p_byte(data@, pos as int) is None,
        },
{
    if data.len() - pos < 1 {
        return None;
    }
    Some((data[pos], pos + 1))
}

pub fn dec_bool(data: &Vec<u8>, pos: usize) -> (r: Option<(bool, usize)>)
    requires
        pos <= data@.len(),
    ensures
        match r {
            Some((b, j)) => p_bool(data@, pos as int) == Some((b, j as int)) && j <= data@.len(),
            None => p_bool(data@, pos as int) is None,
        },
{
    match dec_byte(data, pos) {
        Some((b, j)) => {
            if b == 1 {
                Some((true, j))
            } else if b == 0 {
                Some((false, j))
            } else {
                None
            }
        },
        None => None,
    }
}

pub fn dec_bytes(data: &Vec<u8>, pos: usize) -> (r: Option<(Vec<u8>, usize)>)
    requires
        pos <= data@.len(),
    ensures
        match r {
            Some((b, j)) => p_bytes(data@, pos as int) == Some((b@, j as int)) && j <= data@.len(),
            None => p_bytes(data@, pos as int) is None,
        },
{
    match dec_u64(data, pos) {
        Some((n, j)) => {
            if n <= (data.len() - j) as u64 {
                let end = j + (n as usize);
                let part = slice_to_vec(slice_subrange(data.as_slice(), j, end));
                Some((part, end))
            } else {
                None
            }
        },
        None => None,
    }
}

/// Prefixes the attribute list of a partial parse with already-parsed pairs.
pub open spec fn opt_prepend(pre: Seq<(Seq<u8>, Seq<u8>)>, o: Option<(Seq<(Seq<u8>, Seq<u8>)>, int)>)
    -> Option<(Seq<(Seq<u8>, Seq<u8>)>, int)> {
    match o {
        Some((rest, m)) => Some((pre + rest, m)),
        None => None,
    }
}

pub fn dec_attrs(data: &Vec<u8>, pos: usize) -> (r: Option<(Vec<Attr>, usize)>)
    requires
        pos <= data@.len(),
    ensures
        match r {
            Some((a, j)) => p_attrs(data@, pos as int) == Some((attrs_of(a@), j as int)) && j
                <= data@.len(),
            None => p_attrs(data@, pos as int) is None,
        },
{
    match dec_u64(data, pos) {
        Some((n, start)) => {
            let mut acc: Vec<Attr> = Vec::new();
            let mut cur: usize = start;
            let mut i: u64 = 0;
            proof {
                assert(attrs_of(acc@) =~~= Seq::<(Seq<u8>, Seq<u8>)>::empty());
                assert(opt_prepend(attrs_of(acc@), p_attrs_n(data@, cur as int, (n - i) as nat))
                    =~~= p_attrs_n(data@, cur as int, n as nat));
            }
            while i < n
                invariant
                    pos <= data@.len(),
                    cur <= data@.len(),
                    i <= n,
                    p_u64(data@, pos as int) == Some((n, start as int)),
                    p_attrs(data@, pos as int) == opt_prepend(
                        attrs_of(acc@),
                        p_attrs_n(data@, cur as int, (n - i) as nat),
                    ),
                decreases n - i,
            {
                let ghost acc0 = attrs_of(acc@);
                let ghost cur0 = cur as int;
                let ghost left0 = (n - i) as nat;
                proof {
                    assert(left0 != 0);
                }
                match dec_bytes(data, cur) {
                    Some((name, j)) => {
                        match dec_bytes(data, j) {
                            Some((value, k)) => {
                                acc.push(Attr { name, value });
                                cur = k;
                                i += 1;
                                proof {
                                    assert(attrs_of(acc@) =~~= acc0.push((name@, value@)));
                                    let after = p_attrs_n(data@, cur as int, (n - i) as nat);
                                    assert(p_attrs_n(data@, cur0, left0) == (match after {
                                        Some((rest, m)) => Some((seq![(name@, value@)] + rest, m)),
                                        None => None::<(Seq<(Seq<u8>, Seq<u8>)>, int)>,
                                    }));
                                    match after {
                                        Some((rest, m)) => {
                                            assert(acc0 + (seq![(name@, value@)] + rest)
                                                =~= acc0.push((name@, value@)) + rest);
                                        },
                                        None => {},
                                    }
                                }
                            },
                            None => {
                                proof {
                                    assert(p_attrs_n(data@, cur0, left0) is None);
                                    assert(opt_prepend(acc0, p_attrs_n(data@, cur0, left0)) is None);
                                    assert(p_attrs(data@, pos as int) is None);
                                }
                                return None;
                            },
                        }
                    },
                    None => {
                        proof {
                            assert(p_attrs_n(data@, cur0, left0) is None);
                            assert(opt_prepend(acc0, p_attrs_n(data@, cur0, left0)) is None);
                            assert(p_attrs(data@, pos as int) is None);
                        }
                        return None;
                    },
                }
            }
            proof {
                assert(p_attrs_n(data@, cur as int, 0) == Some(
                    (Seq::<(Seq<u8>, Seq<u8>)>::empty(), cur as int),
                ));
                assert(attrs_of(acc@) + Seq::<(Seq<u8>, Seq<u8>)>::empty() =~= attrs_of(acc@));
            }
            Some((acc, cur))
        },
        None => None,
    }
}


// ---------------------------------------------------------------------------
// Request header: tag 0 id, tag 1 method, tag 2 path, tag 3 body flag
// ---------------------------------------------------------------------------

#[derive(Debug)]
pub struct RequestHeader {
    pub id: u64,
    pub method: u8,
    pub path: Vec<u8>,
    pub has_body: bool,
}

pub struct ReqHeadView {
    pub id: u64,
    pub method: u8,
    pub path: Seq<u8>,
    pub has_body: bool,
}

impl View for RequestHeader {
    type V = ReqHeadView;

    open spec fn view(&self) -> ReqHeadView {
        ReqHeadView { id: self.id, method: self.method, path: self.path@, has_body: self.has_body }
    }
}

pub open spec fn bool_byte(b: bool) -> u8 {
    if b {
        1
    } else {
        0
    }
}

pub open spec fn spec_enc_req_head(h: ReqHeadView) -> Seq<u8> {
    seq![0u8] + spec_enc_u64(h.id) + seq![1u8, h.method, 2u8] + spec_enc_bytes(h.path) + seq![
        3u8,
        bool_byte(h.has_body),
    ]
}

pub open spec fn p_req_head(s: Seq<u8>, i: int) -> Option<(ReqHeadView, int)> {
    match p_tag(s, i, 0) {
        Some(i1) => match p_u64(s, i1) {
            Some((id, i2)) => match p_tag(s, i2, 1) {
                Some(i3) => match p_byte(s, i3) {
                    Some((method, i4)) => match p_tag(s, i4, 2) {
                        Some(i5) => match p_bytes(s, i5) {
                            Some((path, i6)) => match p_tag(s, i6, 3) {
                                Some(i7) => match p_bool(s, i7) {
                                    Some((has_body, i8)) => Some(
                                        (ReqHeadView { id, method, path, has_body }, i8),
                                    ),
                                    None => None,
                                },
                                None => None,
                            },
                            None => None,
                        },
                        None => None,
                    },
                    None => None,
                },
                None => None,
            },
            None => None,
        },
        None => None,
    }
}

pub fn enc_req_head_into(out: &mut Vec<u8>, h: &RequestHeader)
    ensures
        final(out)@ == old(out)@ + spec_enc_req_head(h@),
{
    out.push(0);
    enc_u64_into(out, h.id);
    out.push(1);
    out.push(h.method);
    out.push(2);
    enc_bytes_into(out, &h.path);
    out.push(3);
    out.push(if h.has_body {
        1
    } else {
        0
    });
    proof {
        assert(out@ =~= old(out)@ + spec_enc_req_head(h@));
    }
}

pub fn dec_req_head(data: &Vec<u8>, pos: usize) -> (r: Option<(RequestHeader, usize)>)
    requires
        pos <= data@.len(),
    ensures
        match r {
            Some((h, j)) => p_req_head(data@, pos as int) == Some((h@, j as int)) && j
                <= data@.len(),
            None => p_req_head(data@, pos as int) is None,
        },
{
    let i1 = match dec_tag(data, pos, 0) {
        Some(v) => v,
        None => {
            return None;
        },
    };
    let (id, i2) = match dec_u64(data, i1) {
        Some(v) => v,
        None => {
            return None;
        },
    };
    let i3 = match dec_tag(data, i2, 1) {
        Some(v) => v,
        None => {
            return None;
        },
    };
    let (method, i4) = match dec_byte(data, i3) {
        Some(v) => v,
        None => {
            return None;
        },
    };
    let i5 = match dec_tag(data, i4, 2) {
        Some(v) => v,
        None => {
            return None;
        },
    };
    let (path, i6) = match dec_bytes(data, i5) {
        Some(v) => v,
        None => {
            return None;
        },
    };
    let i7 = match dec_tag(data, i6, 3) {
        Some(v) => v,
        None => {
            return None;
        },
    };
    let (has_body, i8) = match dec_bool(data, i7) {
        Some(v) => v,
        None => {
            return None;
        },
    };
    Some((RequestHeader { id, method, path, has_body }, i8))
}

// ---------------------------------------------------------------------------
// Response header: tag 0 echoed id, tag 1 status, tag 2 body flag
// ---------------------------------------------------------------------------

#[derive(Debug)]
pub struct ResponseHeader {
    pub re: u64,
    pub status: u8,
    pub has_body: bool,
}

pub struct RespHeadView {
    pub re: u64,
    pub status: u8,
    pub has_body: bool,
}

impl View for ResponseHeader {
    type V = RespHeadView;

    open spec fn view(&self) -> RespHeadView {
        RespHeadView { re: self.re, status: self.status, has_body: self.has_body }
    }
}

pub open spec fn spec_enc_resp_head(h: RespHeadView) -> Seq<u8> {
    seq![0u8] + spec_enc_u64(h.re) + seq![1u8, h.status, 2u8, bool_byte(h.has_body)]
}

pub open spec fn p_resp_head(s: Seq<u8>, i: int) -> Option<(RespHeadView, int)> {
    match p_tag(s, i, 0) {
        Some(i1) => match p_u64(s, i1) {
            Some((re, i2)) => match p_tag(s, i2, 1) {
                Some(i3) => match p_byte(s, i3) {
                    Some((status, i4)) => match p_tag(s, i4, 2) {
                        Some(i5) => match p_bool(s, i5) {
                            Some((has_body, i6)) => Some(
                                (RespHeadView { re, status, has_body }, i6),
                            ),
                            None => None,
                        },
                        None => None,
                    },
                    None => None,
                },
                None => None,
            },
            None => None,
        },
        None => None,
    }
}

pub fn enc_resp_head_into(out: &mut Vec<u8>, h: &ResponseHeader)
    ensures
        final(out)@ == old(out)@ + spec_enc_resp_head(h@),
{
    out.push(0);
    enc_u64_into(out, h.re);
    out.push(1);
    out.push(h.status);
    out.push(2);
    out.push(if h.has_body {
        1
    } else {
        0
    });
    proof {
        assert(out@ =~= old(out)@ + spec_enc_resp_head(h@));
    }
}

pub fn dec_resp_head(data: &Vec<u8>, pos: usize) -> (r: Option<(ResponseHeader, usize)>)
    requires
        pos <= data@.len(),
    ensures
        match r {
            Some((h, j)) => p_resp_head(data@, pos as int) == Some((h@, j as int)) && j
                <= data@.len(),
            None => p_resp_head(data@, pos as int) is None,
        },
{
    let i1 = match dec_tag(data, pos, 0) {
        Some(v) => v,
        None => {
            return None;
        },
    };
    let (re, i2) = match dec_u64(data, i1) {
        Some(v) => v,
        None => {
            return None;
        },
    };
    let i3 = match dec_tag(data, i2, 1) {
        Some(v) => v,
        None => {
            return None;
        },
    };
    let (status, i4) = match dec_byte(data, i3) {
        Some(v) => v,
        None => {
            return None;
        },
    };
    let i5 = match dec_tag(data, i4, 2) {
        Some(v) => v,
        None => {
            return None;
        },
    };
    let (has_body, i6) = match dec_bool(data, i5) {
        Some(v) => v,
        None => {
            return None;
        },
    };
    Some((ResponseHeader { re, status, has_body }, i6))
}

// ---------------------------------------------------------------------------
// Bodies
// ---------------------------------------------------------------------------

/// Body of a token-minting request: tag 0 attribute list.
#[derive(Debug)]
pub struct CreateToken {
    pub attrs: Vec<Attr>,
}

pub open spec fn spec_enc_create_token(a: Seq<(Seq<u8>, Seq<u8>)>) -> Seq<u8> {
    seq![0u8] + spec_enc_attrs(a)
}

pub open spec fn p_create_token(s: Seq<u8>, i: int) -> Option<(Seq<(Seq<u8>, Seq<u8>)>, int)> {
    match p_tag(s, i, 0) {
        Some(i1) => p_attrs(s, i1),
        None => None,
    }
}

pub fn enc_create_token_into(out: &mut Vec<u8>, body: &CreateToken)
    ensures
        final(out)@ == old(out)@ + spec_enc_create_token(attrs_of(body.attrs@)),
{
    out.push(0);
    enc_attrs_into(out, &body.attrs);
    proof {
        assert(out@ =~= old(out)@ + spec_enc_create_token(attrs_of(body.attrs@)));
    }
}

pub fn dec_create_token(data: &Vec<u8>, pos: usize) -> (r: Option<(CreateToken, usize)>)
    requires
        pos <= data@.len(),
    ensures
        match r {
            Some((b, j)) => p_create_token(data@, pos as int) == Some(
                (attrs_of(b.attrs@), j as int),
            ) && j <= data@.len(),
            None => p_create_token(data@, pos as int) is None,
        },
{
    let i1 = match dec_tag(data, pos, 0) {
        Some(v) => v,
        None => {
            return None;
        },
    };
    match dec_attrs(data, i1) {
        Some((attrs, j)) => Some((CreateToken { attrs }, j)),
        None => None,
    }
}

/// Body of a direct member addition: tag 0 member identity, tag 1 attributes.
#[derive(Debug)]
pub struct AddMember {
    pub member: IdentityId,
    pub attrs: Vec<Attr>,
}

pub open spec fn spec_enc_add_member(member: Seq<u8>, a: Seq<(Seq<u8>, Seq<u8>)>) -> Seq<u8> {
    seq![0u8] + spec_enc_bytes(member) + seq![1u8] + spec_enc_attrs(a)
}

pub open spec fn p_add_member(s: Seq<u8>, i: int) -> Option<
    ((Seq<u8>, Seq<(Seq<u8>, Seq<u8>)>), int),
> {
    match p_tag(s, i, 0) {
        Some(i1) => match p_bytes(s, i1) {
            Some((member, i2)) => match p_tag(s, i2, 1) {
                Some(i3) => match p_attrs(s, i3) {
                    Some((attrs, i4)) => Some(((member, attrs), i4)),
                    None => None,
                },
                None => None,
            },
            None => None,
        },
        None => None,
    }
}

pub fn enc_add_member_into(out: &mut Vec<u8>, body: &AddMember)
    ensures
        final(out)@ == old(out)@ + spec_enc_add_member(body.member@, attrs_of(body.attrs@)),
{
    out.push(0);
    enc_bytes_into(out, &body.member.bytes);
    out.push(1);
    enc_attrs_into(out, &body.attrs);
    proof {
        assert(out@ =~= old(out)@ + spec_enc_add_member(body.member@, attrs_of(body.attrs@)));
    }
}

pub fn dec_add_member(data: &Vec<u8>, pos: usize) -> (r: Option<(AddMember, usize)>)
    requires
        pos <= data@.len(),
    ensures
        match r {
            Some((b, j)) => p_add_member(data@, pos as int) == Some(
                ((b.member@, attrs_of(b.attrs@)), j as int),
            ) && j <= data@.len(),
            None => p_add_member(data@, pos as int) is None,
        },
{
    let i1 = match dec_tag(data, pos, 0) {
        Some(v) => v,
        None => {
            return None;
        },
    };
    let (member, i2) = match dec_bytes(data, i1) {
        Some(v) => v,
        None => {
            return None;
        },
    };
    let i3 = match dec_tag(data, i2, 1) {
        Some(v) => v,
        None => {
            return None;
        },
    };
    match dec_attrs(data, i3) {
        Some((attrs, j)) => Some((AddMember { member: IdentityId { bytes: member }, attrs }, j)),
        None => None,
    }
}

// ---------------------------------------------------------------------------
// One-time codes: exactly 32 raw bytes on the wire
// ---------------------------------------------------------------------------

pub const ONE_TIME_CODE_LEN: usize = 32;

/// A single-use enrollment code of 32 uniformly random bytes.
#[derive(Debug)]
pub struct OneTimeCode {
    pub code: Vec<u8>,
}

impl View for OneTimeCode {
    type V = Seq<u8>;

    open spec fn view(&self) -> Seq<u8> {
        self.code@
    }
}

impl OneTimeCode {
    pub open spec fn wf(&self) -> bool {
        self@.len() == 32
    }

    /// Accepts exactly 32 bytes.
    pub fn from_bytes(code: Vec<u8>) -> (r: Option<OneTimeCode>)
        ensures
            match r {
                Some(c) => code@.len() == 32 && c@ == code@ && c.wf(),
                None => code@.len() != 32,
            },
    {
        if code.len() == ONE_TIME_CODE_LEN {
            Some(OneTimeCode { code })
        } else {
            None
        }
    }
}

impl Clone for OneTimeCode {
    fn clone(&self) -> (r: Self)
        ensures
            r@ == self@,
    {
        OneTimeCode { code: crate::types::clone_bytes(&self.code) }
    }
}

/// A one-time code occupies the whole remainder of its frame.
pub open spec fn p_otc(s: Seq<u8>, i: int) -> Option<Seq<u8>> {
    if 0 <= i <= s.len() && s.len() - i == 32 {
        Some(s.subrange(i, i + 32))
    } else {
        None
    }
}

pub fn enc_otc_into(out: &mut Vec<u8>, c: &OneTimeCode)
    ensures
        final(out)@ == old(out)@ + c@,
{
    out.extend_from_slice(c.code.as_slice());
    proof {
        assert(out@ =~= old(out)@ + c@);
    }
}

pub fn dec_otc(data: &Vec<u8>, pos: usize) -> (r: Option<OneTimeCode>)
    requires
        pos <= data@.len(),
    ensures
        match r {
            Some(c) => p_otc(data@, pos as int) == Some(c@) && c.wf(),
            None => p_otc(data@, pos as int) is None,
        },
{
    if data.len() - pos == ONE_TIME_CODE_LEN {
        let code = slice_to_vec(slice_subrange(data.as_slice(), pos, pos + ONE_TIME_CODE_LEN));
        Some(OneTimeCode { code })
    } else {
        None
    }
}

// ---------------------------------------------------------------------------
// Error body: tag 0 message
// ---------------------------------------------------------------------------

pub open spec fn spec_enc_error(msg: Seq<u8>) -> Seq<u8> {
    seq![0u8] + spec_enc_bytes(msg)
}

pub open spec fn p_error(s: Seq<u8>, i: int) -> Option<(Seq<u8>, int)> {
    match p_tag(s, i, 0) {
        Some(i1) => p_bytes(s, i1),
        None => None,
    }
}

pub fn enc_error_into(out: &mut Vec<u8>, msg: &Vec<u8>)
    ensures
        final(out)@ == old(out)@ + spec_enc_error(msg@),
{
    out.push(0);
    enc_bytes_into(out, msg);
    proof {
        assert(out@ =~= old(out)@ + spec_enc_error(msg@));
    }
}

pub fn dec_error(data: &Vec<u8>, pos: usize) -> (r: Option<(Vec<u8>, usize)>)
    requires
        pos <= data@.len(),
    ensures
        match r {
            Some((m, j)) => p_error(data@, pos as int) == Some((m@, j as int)) && j <= data@.len(),
            None => p_error(data@, pos as int) is None,
        },
{
    let i1 = match dec_tag(data, pos, 0) {
        Some(v) => v,
        None => {
            return None;
        },
    };
    dec_bytes(data, i1)
}

// ---------------------------------------------------------------------------
// Credentials: tag 0 subject, tag 1 schema, tag 2 attributes, tag 3 signature
// ---------------------------------------------------------------------------

/// The signed part of a credential: a subject bound to attributes under a
/// schema.
#[derive(Debug)]
pub struct CredentialData {
    pub subject: IdentityId,
    pub schema: u64,
    pub attrs: Vec<Attr>,
}

pub struct CredDataView {
    pub subject: Seq<u8>,
    pub schema: u64,
    pub attrs: Seq<(Seq<u8>, Seq<u8>)>,
}

impl View for CredentialData {
    type V = CredDataView;

    open spec fn view(&self) -> CredDataView {
        CredDataView { subject: self.subject@, schema: self.schema, attrs: attrs_of(self.attrs@) }
    }
}

/// A credential: signed data together with the signature produced by the
/// server identity.
#[derive(Debug)]
pub struct Credential {
    pub data: CredentialData,
    pub signature: Vec<u8>,
}

pub struct CredView {
    pub data: CredDataView,
    pub signature: Seq<u8>,
}

impl View for Credential {
    type V = CredView;

    open spec fn view(&self) -> CredView {
        CredView { data: self.data@, signature: self.signature@ }
    }
}

pub open spec fn spec_enc_credential(c: CredView) -> Seq<u8> {
    seq![0u8] + spec_enc_bytes(c.data.subject) + seq![1u8] + spec_enc_u64(c.data.schema) + seq![2u8]
        + spec_enc_attrs(c.data.attrs) + seq![3u8] + spec_enc_bytes(c.signature)
}

pub open spec fn p_credential(s: Seq<u8>, i: int) -> Option<(CredView, int)> {
    match p_tag(s, i, 0) {
        Some(i1) => match p_bytes(s, i1) {
            Some((subject, i2)) => match p_tag(s, i2, 1) {
                Some(i3) => match p_u64(s, i3) {
                    Some((schema, i4)) => match p_tag(s, i4, 2) {
                        Some(i5) => match p_attrs(s, i5) {
                            Some((attrs, i6)) => match p_tag(s, i6, 3) {
                                Some(i7) => match p_bytes(s, i7) {
                                    Some((signature, i8)) => Some(
                                        (
                                            CredView {
                                                data: CredDataView { subject, schema, attrs },
                                                signature,
                                            },
                                            i8,
                                        ),
                                    ),
                                    None => None,
                                },
                                None => None,
                            },
                            None => None,
                        },
                        None => None,
                    },
                    None => None,
                },
                None => None,
            },
            None => None,
        },
        None => None,
    }
}

pub fn enc_credential_into(out: &mut Vec<u8>, c: &Credential)
    ensures
        final(out)@ == old(out)@ + spec_enc_credential(c@),
{
    out.push(0);
    enc_bytes_into(out, &c.data.subject.bytes);
    out.push(1);
    enc_u64_into(out, c.data.schema);
    out.push(2);
    enc_attrs_into(out, &c.data.attrs);
    out.push(3);
    enc_bytes_into(out, &c.signature);
    proof {
        assert(out@ =~= old(out)@ + spec_enc_credential(c@));
    }
}

pub fn dec_credential(data: &Vec<u8>, pos: usize) -> (r: Option<(Credential, usize)>)
    requires
        pos <= data@.len(),
    ensures
        match r {
            Some((c, j)) => p_credential(data@, pos as int) == Some((c@, j as int)) && j
                <= data@.len(),
            None => p_credential(data@, pos as int) is None,
        },
{
    let i1 = match dec_tag(data, pos, 0) {
        Some(v) => v,
        None => {
            return None;
        },
    };
    let (subject, i2) = match dec_bytes(data, i1) {
        Some(v) => v,
        None => {
            return None;
        },
    };
    let i3 = match dec_tag(data, i2, 1) {
        Some(v) => v,
        None => {
            return None;
        },
    };
    let (schema, i4) = match dec_u64(data, i3) {
        Some(v) => v,
        None => {
            return None;
        },
    };
    let i5 = match dec_tag(data, i4, 2) {
        Some(v) => v,
        None => {
            return None;
        },
    };
    let (attrs, i6) = match dec_attrs(data, i5) {
        Some(v) => v,
        None => {
            return None;
        },
    };
    let i7 = match dec_tag(data, i6, 3) {
        Some(v) => v,
        None => {
            return None;
        },
    };
    let (signature, i8) = match dec_bytes(data, i7) {
        Some(v) => v,
        None => {
            return None;
        },
    };
    Some(
        (
            Credential {
                data: CredentialData {
                    subject: IdentityId { bytes: subject },
                    schema,
                    attrs,
                },
                signature,
            },
            i8,
        ),
    )
}


// ---------------------------------------------------------------------------
// Inversion lemmas for whole headers and bodies
// ---------------------------------------------------------------------------

/// A concatenation splits at the boundary of its parts.
pub proof fn lemma_concat_parts(a: Seq<u8>, b: Seq<u8>)
    ensures
        (a + b).subrange(0, a.len() as int) == a,
        (a + b).subrange(a.len() as int, (a + b).len() as int) == b,
{
    assert((a + b).subrange(0, a.len() as int) =~= a);
    assert((a + b).subrange(a.len() as int, (a + b).len() as int) =~= b);
}

pub proof fn lemma_p_req_head_at(s: Seq<u8>, i: int, h: ReqHeadView)
    requires
        0 <= i,
        enc_len_ok(h.path),
        i + spec_enc_req_head(h).len() <= s.len(),
        s.subrange(i, i + spec_enc_req_head(h).len()) == spec_enc_req_head(h),
    ensures
        p_req_head(s, i) == Some((h, i + spec_enc_req_head(h).len())),
{
    let t0 = seq![0u8];
    let e_id = spec_enc_u64(h.id);
    let t12 = seq![1u8, h.method, 2u8];
    let e_path = spec_enc_bytes(h.path);
    let t3 = seq![3u8, bool_byte(h.has_body)];
    let p4 = t0 + e_id + t12 + e_path;
    let p3 = t0 + e_id + t12;
    let p2 = t0 + e_id;
    lemma_split_window(s, i, p4, t3);
    lemma_split_window(s, i, p3, e_path);
    lemma_split_window(s, i, p2, t12);
    lemma_split_window(s, i, t0, e_id);
    assert(s[i] == t0[0]);
    lemma_p_u64_at(s, i + 1, h.id);
    let i2 = i + 9;
    assert(s[i2] == s.subrange(i2, i2 + 3)[0]);
    assert(s[i2 + 1] == s.subrange(i2, i2 + 3)[1]);
    assert(s[i2 + 2] == s.subrange(i2, i2 + 3)[2]);
    let i5 = i2 + 3;
    lemma_p_bytes_at(s, i5, h.path);
    let i6 = i5 + 8 + h.path.len();
    assert(s[i6] == s.subrange(i6, i6 + 2)[0]);
    assert(s[i6 + 1] == s.subrange(i6, i6 + 2)[1]);
}

pub proof fn lemma_p_resp_head_at(s: Seq<u8>, i: int, h: RespHeadView)
    requires
        0 <= i,
        i + spec_enc_resp_head(h).len() <= s.len(),
        s.subrange(i, i + spec_enc_resp_head(h).len()) == spec_enc_resp_head(h),
    ensures
        spec_enc_resp_head(h).len() == 13,
        p_resp_head(s, i) == Some((h, i + 13)),
{
    let t0 = seq![0u8];
    let e_re = spec_enc_u64(h.re);
    let t12 = seq![1u8, h.status, 2u8, bool_byte(h.has_body)];
    let p2 = t0 + e_re;
    lemma_split_window(s, i, p2, t12);
    lemma_split_window(s, i, t0, e_re);
    assert(s[i] == t0[0]);
    lemma_p_u64_at(s, i + 1, h.re);
    let i2 = i + 9;
    assert(s[i2] == s.subrange(i2, i2 + 4)[0]);
    assert(s[i2 + 1] == s.subrange(i2, i2 + 4)[1]);
    assert(s[i2 + 2] == s.subrange(i2, i2 + 4)[2]);
    assert(s[i2 + 3] == s.subrange(i2, i2 + 4)[3]);
}

pub proof fn lemma_p_create_token_at(s: Seq<u8>, i: int, a: Seq<(Seq<u8>, Seq<u8>)>)
    requires
        0 <= i,
        attrs_len_ok(a),
        i + spec_enc_create_token(a).len() <= s.len(),
        s.subrange(i, i + spec_enc_create_token(a).len()) == spec_enc_create_token(a),
    ensures
        p_create_token(s, i) == Some((a, i + spec_enc_create_token(a).len())),
{
    let t0 = seq![0u8];
    lemma_split_window(s, i, t0, spec_enc_attrs(a));
    assert(s[i] == t0[0]);
    lemma_p_attrs_at(s, i + 1, a);
}

pub proof fn lemma_p_add_member_at(s: Seq<u8>, i: int, member: Seq<u8>, a: Seq<(Seq<u8>, Seq<u8>)>)
    requires
        0 <= i,
        enc_len_ok(member),
        attrs_len_ok(a),
        i + spec_enc_add_member(member, a).len() <= s.len(),
        s.subrange(i, i + spec_enc_add_member(member, a).len()) == spec_enc_add_member(member, a),
    ensures
        p_add_member(s, i) == Some(((member, a), i + spec_enc_add_member(member, a).len())),
{
    let t0 = seq![0u8];
    let e_m = spec_enc_bytes(member);
    let t1 = seq![1u8];
    let p3 = t0 + e_m + t1;
    let p2 = t0 + e_m;
    lemma_split_window(s, i, p3, spec_enc_attrs(a));
    lemma_split_window(s, i, p2, t1);
    lemma_split_window(s, i, t0, e_m);
    assert(s[i] == t0[0]);
    lemma_p_bytes_at(s, i + 1, member);
    let i2 = i + 1 + e_m.len();
    assert(s[i2] == s.subrange(i2, i2 + 1)[0]);
    lemma_p_attrs_at(s, i2 + 1, a);
}

pub proof fn lemma_p_error_at(s: Seq<u8>, i: int, msg: Seq<u8>)
    requires
        0 <= i,
        enc_len_ok(msg),
        i + spec_enc_error(msg).len() <= s.len(),
        s.subrange(i, i + spec_enc_error(msg).len()) == spec_enc_error(msg),
    ensures
        p_error(s, i) == Some((msg, i + spec_enc_error(msg).len())),
{
    let t0 = seq![0u8];
    lemma_split_window(s, i, t0, spec_enc_bytes(msg));
    assert(s[i] == t0[0]);
    lemma_p_bytes_at(s, i + 1, msg);
}

pub proof fn lemma_p_credential_at(s: Seq<u8>, i: int, c: CredView)
    requires
        0 <= i,
        enc_len_ok(c.data.subject),
        attrs_len_ok(c.data.attrs),
        enc_len_ok(c.signature),
        i + spec_enc_credential(c).len() <= s.len(),
        s.subrange(i, i + spec_enc_credential(c).len()) == spec_enc_credential(c),
    ensures
        p_credential(s, i) == Some((c, i + spec_enc_credential(c).len())),
{
    let t0 = seq![0u8];
    let e_subj = spec_enc_bytes(c.data.subject);
    let t1 = seq![1u8];
    let e_schema = spec_enc_u64(c.data.schema);
    let t2 = seq![2u8];
    let e_attrs = spec_enc_attrs(c.data.attrs);
    let t3 = seq![3u8];
    let e_sig = spec_enc_bytes(c.signature);
    let p7 = t0 + e_subj + t1 + e_schema + t2 + e_attrs + t3;
    let p6 = t0 + e_subj + t1 + e_schema + t2 + e_attrs;
    let p5 = t0 + e_subj + t1 + e_schema + t2;
    let p4 = t0 + e_subj + t1 + e_schema;
    let p3 = t0 + e_subj + t1;
    let p2 = t0 + e_subj;
    lemma_split_window(s, i, p7, e_sig);
    lemma_split_window(s, i, p6, t3);
    lemma_split_window(s, i, p5, e_attrs);
    lemma_split_window(s, i, p4, t2);
    lemma_split_window(s, i, p3, e_schema);
    lemma_split_window(s, i, p2, t1);
    lemma_split_window(s, i, t0, e_subj);
    assert(s[i] == t0[0]);
    lemma_p_bytes_at(s, i + 1, c.data.subject);
    let i2 = i + 1 + e_subj.len();
    assert(s[i2] == s.subrange(i2, i2 + 1)[0]);
    lemma_p_u64_at(s, i2 + 1, c.data.schema);
    let i4 = i2 + 9;
    assert(s[i4] == s.subrange(i4, i4 + 1)[0]);
    lemma_p_attrs_at(s, i4 + 1, c.data.attrs);
    let i6 = i4 + 1 + e_attrs.len();
    assert(s[i6] == s.subrange(i6, i6 + 1)[0]);
    lemma_p_bytes_at(s, i6 + 1, c.signature);
}

} // verus!
