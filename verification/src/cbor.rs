//! Decoder for the legacy attribute records migrated at startup.
//!
//! A legacy record is a CBOR map of text strings: a map header (major type
//! 5) followed by pairs of text strings (major type 3), each with a
//! definite length in any of the five standard head forms. The decoder
//! yields the raw UTF-8 bytes of keys and values, in the order written; it
//! accepts exactly what the spec-level parser [`p_cbor_map`] accepts.

use vstd::prelude::*;
use vstd::slice::{slice_subrange, slice_to_vec};

verus! {

/// Reads one CBOR head of the given major type: the argument and the
/// position after the head.
pub open spec fn p_cbor_head(s: Seq<u8>, i: int, major: u8) -> Option<(u64, int)> {
    if 0 <= i < s.len() && s[i] >> 5 == major {
        let info = s[i] & 0x1f;
        if info < 24 {
            Some(((info) as u64, i + 1))
        } else if info == 24 && i + 2 <= s.len() {
            Some((s[i + 1] as u64, i + 2))
        } else if info == 25 && i + 3 <= s.len() {
            Some((((s[i + 1] as u64) << 8) | (s[i + 2] as u64), i + 3))
        } else if info == 26 && i + 5 <= s.len() {
            Some(
                (
                    ((s[i + 1] as u64) << 24) | ((s[i + 2] as u64) << 16) | ((s[i
                        + 3] as u64) << 8) | (s[i + 4] as u64),
                    i + 5,
                ),
            )
        } else if info == 27 && i + 9 <= s.len() {
            Some(
                (
                    ((s[i + 1] as u64) << 56) | ((s[i + 2] as u64) << 48) | ((s[i
                        + 3] as u64) << 40) | ((s[i + 4] as u64) << 32) | ((s[i
                        + 5] as u64) << 24) | ((s[i + 6] as u64) << 16) | ((s[i
                        + 7] as u64) << 8) | (s[i + 8] as u64),
                    i + 9,
                ),
            )
        } else {
            None
        }
    } else {
        None
    }
}

/// Reads one definite-length text string: its UTF-8 bytes.
pub open spec fn p_cbor_text(s: Seq<u8>, i: int) -> Option<(Seq<u8>, int)> {
    match p_cbor_head(s, i, 3) {
        Some((n, j)) => if j + n <= s.len() {
            Some((s.subrange(j, j + n), j + n))
        } else {
            None
        },
        None => None,
    }
}

/// Reads `n` key/value pairs of text strings.
pub open spec fn p_cbor_pairs(s: Seq<u8>, i: int, n: nat) -> Option<(Seq<(Seq<u8>, Seq<u8>)>, int)>
    decreases n,
{
    if n == 0 {
        Some((Seq::empty(), i))
    } else {
        match p_cbor_text(s, i) {
            Some((key, j)) => match p_cbor_text(s, j) {
                Some((value, k)) => match p_cbor_pairs(s, k, (n - 1) as nat) {
                    Some((rest, m)) => Some((seq![(key, value)] + rest, m)),
                    None => None,
                },
                None => None,
            },
            None => None,
        }
    }
}

/// Reads one CBOR map of text strings, starting at the head of the buffer.
pub open spec fn p_cbor_map(s: Seq<u8>) -> Option<Seq<(Seq<u8>, Seq<u8>)>> {
    match p_cbor_head(s, 0, 5) {
        Some((n, j)) => match p_cbor_pairs(s, j, n as nat) {
            Some((pairs, _end)) => Some(pairs),
            None => None,
        },
        None => None,
    }
}

fn dec_cbor_head(data: &Vec<u8>, pos: usize, major: u8) -> (r: Option<(u64, usize)>)
    requires
        pos <= data@.len(),
    ensures
        match r {
            Some((x, j)) => p_cbor_head(data@, pos as int, major) == Some((x, j as int)) && j
                <= data@.len(),
            None => p_cbor_head(data@, pos as int, major) is None,
        },
{
    if pos >= data.len() {
        return None;
    }
    let b = data[pos];
    if b >> 5 != major {
        return None;
    }
    let info = b & 0x1f;
    if info < 24 {
        Some((info as u64, pos + 1))
    } else if info == 24 && data.len() - pos >= 2 {
        Some((data[pos + 1] as u64, pos + 2))
    } else if info == 25 && data.len() - pos >= 3 {
        Some((((data[pos + 1] as u64) << 8) | (data[pos + 2] as u64), pos + 3))
    } else if info == 26 && data.len() - pos >= 5 {
        Some(
            (
                ((data[pos + 1] as u64) << 24) | ((data[pos + 2] as u64) << 16) | ((data[pos
                    + 3] as u64) << 8) | (data[pos + 4] as u64),
                pos + 5,
            ),
        )
    } else if info == 27 && data.len() - pos >= 9 {
        Some(
            (
                ((data[pos + 1] as u64) << 56) | ((data[pos + 2] as u64) << 48) | ((data[pos
                    + 3] as u64) << 40) | ((data[pos + 4] as u64) << 32) | ((data[pos
                    + 5] as u64) << 24) | ((data[pos + 6] as u64) << 16) | ((data[pos
                    + 7] as u64) << 8) | (data[pos + 8] as u64),
                pos + 9,
            ),
        )
    } else {
        None
    }
}

fn dec_cbor_text(data: &Vec<u8>, pos: usize) -> (r: Option<(Vec<u8>, usize)>)
    requires
        pos <= data@.len(),
    ensures
        match r {
            Some((b, j)) => p_cbor_text(data@, pos as int) == Some((b@, j as int)) && j
                <= data@.len(),
            None => p_cbor_text(data@, pos as int) is None,
        },
{
    match dec_cbor_head(data, pos, 3) {
        Some((n, j)) => {
            if n <= (data.len() - j) as u64 {
                let end = j + (n as usize);
                let part = slice_to_vec(slice_subrange(data.as_slice(), j, end));
                Some((part, end))
            } else {
                None
            }
        },
        None => None,
    }
}

/// Decodes a legacy record: a CBOR map of text strings, as raw byte pairs in
/// the order written.
pub fn dec_cbor_map(data: &Vec<u8>) -> (r: Option<Vec<(Vec<u8>, Vec<u8>)>>)
    ensures
        match r {
            Some(pairs) => p_cbor_map(data@) == Some(pairs.deep_view()),
            None => p_cbor_map(data@) is None,
        },
{
    let (n, start) = match dec_cbor_head(data, 0, 5) {
        Some(v) => v,
        None => {
            return None;
        },
    };
    let mut acc: Vec<(Vec<u8>, Vec<u8>)> = Vec::new();
    let mut cur: usize = start;
    let mut i: u64 = 0;
    proof {
        assert(acc.deep_view() =~~= Seq::<(Seq<u8>, Seq<u8>)>::empty());
        assert(crate::codec::opt_prepend(acc.deep_view(), p_cbor_pairs(data@, cur as int, (n
            - i) as nat)) =~~= p_cbor_pairs(data@, cur as int, n as nat));
    }
    while i < n
        invariant
            cur <= data@.len(),
            i <= n,
            p_cbor_head(data@, 0, 5) == Some((n, start as int)),
            crate::codec::opt_prepend(
                acc.deep_view(),
                p_cbor_pairs(data@, cur as int, (n - i) as nat),
            ) == p_cbor_pairs(data@, start as int, n as nat),
        decreases n - i,
    {
        let ghost acc0 = acc.deep_view();
        let ghost cur0 = cur as int;
        let ghost left0 = (n - i) as nat;
        proof {
            assert(left0 != 0);
        }
        match dec_cbor_text(data, cur) {
            Some((key, j)) => {
                match dec_cbor_text(data, j) {
                    Some((value, k)) => {
                        acc.push((key, value));
                        cur = k;
                        i += 1;
                        proof {
                            assert(acc.deep_view() =~~= acc0.push((key@, value@)));
                            let after = p_cbor_pairs(data@, cur as int, (n - i) as nat);
                            assert(p_cbor_pairs(data@, cur0, left0) == (match after {
                                Some((rest, m)) => Some((seq![(key@, value@)] + rest, m)),
                                None => None::<(Seq<(Seq<u8>, Seq<u8>)>, int)>,
                            }));
                            match after {
                                Some((rest, m)) => {
                                    assert(acc0 + (seq![(key@, value@)] + rest) =~= acc0.push(
                                        (key@, value@),
                                    ) + rest);
                                },
                                None => {},
                            }
                        }
                    },
                    None => {
                        proof {
                            assert(p_cbor_pairs(data@, cur0, left0) is None);
                        }
                        return None;
                    },
                }
            },
            None => {
                proof {
                    assert(p_cbor_pairs(data@, cur0, left0) is None);
                }
                return None;
            },
        }
    }
    proof {
        assert(p_cbor_pairs(data@, cur as int, 0) == Some(
            (Seq::<(Seq<u8>, Seq<u8>)>::empty(), cur as int),
        ));
        assert(acc.deep_view() + Seq::<(Seq<u8>, Seq<u8>)>::empty() =~= acc.deep_view());
    }
    Some(acc)
}

} // verus!
