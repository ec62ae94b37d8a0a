//! Bounded cache of live one-time enrollment codes.
//!
//! At most [`TOKEN_CACHE_CAPACITY`] tokens are live at once; inserting into a
//! full cache silently evicts the least-recently-used entry. `take` is the
//! only read operation: a token is removed by the same step that looks it up,
//! so each code can be redeemed at most once.
//!
//! The cache itself is `lru::LruCache`; its contents are named by
//! [`lru_entries`], a sequence of key/token pairs from least to most recently
//! used, and every method is called through a trusted wrapper whose contract
//! states what the crate's source shows.

use vstd::prelude::*;
use crate::codec::OneTimeCode;
use crate::types::{Attr, IdentityId, attrs_of, clone_attrs};

verus! {

/// Capacity of the one-time-code cache.
pub const TOKEN_CACHE_CAPACITY: usize = 128;

/// What a one-time code stands for while it is live: the attributes to stamp
/// on the redeeming member, the enroller that minted it, and the mint time.
pub struct TokenRecord {
    pub attrs: Vec<Attr>,
    pub generated_by: IdentityId,
    pub created_at: u64,
}

pub struct TokenView {
    pub attrs: Seq<(Seq<u8>, Seq<u8>)>,
    pub generated_by: Seq<u8>,
    pub created_at: u64,
}

impl View for TokenRecord {
    type V = TokenView;

    open spec fn view(&self) -> TokenView {
        TokenView {
            attrs: attrs_of(self.attrs@),
            generated_by: self.generated_by@,
            created_at: self.created_at,
        }
    }
}

impl TokenRecord {
    pub fn new(attrs: Vec<Attr>, generated_by: IdentityId, created_at: u64) -> (r: TokenRecord)
        ensures
            r@ == (TokenView {
                attrs: attrs_of(attrs@),
                generated_by: generated_by@,
                created_at,
            }),
    {
        TokenRecord { attrs, generated_by, created_at }
    }
}

#[verifier::external_type_specification]
#[verifier::external_body]
#[verifier::reject_recursive_types(K)]
#[verifier::reject_recursive_types(V)]
#[verifier::reject_recursive_types(S)]
pub struct ExLruCache<K, V, S>(lru::LruCache<K, V, S>);

/// The entries of the cache, from least to most recently used.
pub uninterp spec fn lru_entries(c: lru::LruCache<Vec<u8>, TokenRecord>) -> Seq<
    (Seq<u8>, TokenView),
>;

/// The fixed capacity the cache was created with.
pub uninterp spec fn lru_cap(c: lru::LruCache<Vec<u8>, TokenRecord>) -> nat;

/// Whether some entry holds the key.
pub open spec fn cache_has(s: Seq<(Seq<u8>, TokenView)>, k: Seq<u8>) -> bool {
    exists|i: int| 0 <= i < s.len() && (#[trigger] s[i]).0 == k
}

/// The token under the key, when the keys are unique.
pub open spec fn cache_get(s: Seq<(Seq<u8>, TokenView)>, k: Seq<u8>) -> TokenView {
    s[choose|i: int| 0 <= i < s.len() && (#[trigger] s[i]).0 == k].1
}

/// The entries with every entry under the key removed, order kept.
pub open spec fn remove_key(s: Seq<(Seq<u8>, TokenView)>, k: Seq<u8>) -> Seq<(Seq<u8>, TokenView)>
    decreases s.len(),
{
    if s.len() == 0 {
        Seq::empty()
    } else {
        let rest = remove_key(s.drop_first(), k);
        if s[0].0 == k {
            rest
        } else {
            seq![s[0]] + rest
        }
    }
}

/// What an insertion does: an existing key is refreshed and moved to the
/// most-recent end; a fresh key is appended, evicting the least-recently-used
/// entry when the cache is full.
pub open spec fn spec_cache_put(
    s: Seq<(Seq<u8>, TokenView)>,
    k: Seq<u8>,
    v: TokenView,
    cap: nat,
) -> Seq<(Seq<u8>, TokenView)> {
    if cache_has(s, k) {
        remove_key(s, k).push((k, v))
    } else if s.len() >= cap {
        s.drop_first().push((k, v))
    } else {
        s.push((k, v))
    }
}

/// No two entries share a key.
pub open spec fn cache_unique(s: Seq<(Seq<u8>, TokenView)>) -> bool {
    forall|i: int, j: int| 0 <= i < j < s.len() ==> (#[trigger] s[i]).0 != (#[trigger] s[j]).0
}

// ---------------------------------------------------------------------------
// Facts about the spec-level cache operations
// ---------------------------------------------------------------------------

pub proof fn lemma_remove_key_effect(s: Seq<(Seq<u8>, TokenView)>, k: Seq<u8>)
    ensures
        !cache_has(remove_key(s, k), k),
        remove_key(s, k).len() <= s.len(),
        cache_has(s, k) ==> remove_key(s, k).len() < s.len(),
        forall|e: (Seq<u8>, TokenView)|
            remove_key(s, k).contains(e) <==> s.contains(e) && e.0 != k,
    decreases s.len(),
{
    let r = remove_key(s, k);
    if s.len() == 0 {
        assert forall|e: (Seq<u8>, TokenView)| r.contains(e) <==> s.contains(e) && e.0 != k by {}
    } else {
        let t = s.drop_first();
        lemma_remove_key_effect(t, k);
        let rt = remove_key(t, k);
        if cache_has(s, k) {
            let i = choose|i: int| 0 <= i < s.len() && (#[trigger] s[i]).0 == k;
            if i > 0 {
                assert(t[i - 1].0 == k);
                assert(cache_has(t, k));
            }
        }
        assert forall|e: (Seq<u8>, TokenView)| r.contains(e) <==> s.contains(e) && e.0 != k by {
            if s[0].0 == k {
                if s.contains(e) && e.0 != k {
                    let i = choose|i: int| 0 <= i < s.len() && s[i] == e;
                    assert(t[i - 1] == e);
                    assert(t.contains(e));
                }
                if r.contains(e) {
                    assert(t.contains(e));
                    let i = choose|i: int| 0 <= i < t.len() && t[i] == e;
                    assert(s[i + 1] == e);
                }
            } else {
                if s.contains(e) && e.0 != k {
                    let i = choose|i: int| 0 <= i < s.len() && s[i] == e;
                    if i == 0 {
                        assert(r[0] == e);
                    } else {
                        assert(t[i - 1] == e);
                        assert(t.contains(e));
                        assert(rt.contains(e));
                        let j = choose|j: int| 0 <= j < rt.len() && rt[j] == e;
                        assert(r[j + 1] == e);
                    }
                }
                if r.contains(e) {
                    let i = choose|i: int| 0 <= i < r.len() && r[i] == e;
                    if i == 0 {
                        assert(s[0] == e);
                    } else {
                        assert(rt[i - 1] == e);
                        assert(t.contains(e));
                        let j = choose|j: int| 0 <= j < t.len() && t[j] == e;
                        assert(s[j + 1] == e);
                    }
                }
            }
        }
        assert forall|i: int| 0 <= i < r.len() implies (#[trigger] r[i]).0 != k by {
            assert(r.contains(r[i]));
        }
    }
}

pub proof fn lemma_remove_key_unique(s: Seq<(Seq<u8>, TokenView)>, k: Seq<u8>)
    requires
        cache_unique(s),
    ensures
        cache_unique(remove_key(s, k)),
    decreases s.len(),
{
    if s.len() > 0 {
        let t = s.drop_first();
        assert forall|i: int, j: int| 0 <= i < j < t.len() implies (#[trigger] t[i]).0
            != (#[trigger] t[j]).0 by {
            assert(s[i + 1].0 != s[j + 1].0);
        }
        lemma_remove_key_unique(t, k);
        let rt = remove_key(t, k);
        if s[0].0 != k {
            let r = remove_key(s, k);
            lemma_remove_key_effect(t, k);
            assert forall|i: int, j: int| 0 <= i < j < r.len() implies (#[trigger] r[i]).0
                != (#[trigger] r[j]).0 by {
                if i == 0 {
                    assert(r[j] == rt[j - 1]);
                    assert(rt.contains(rt[j - 1]));
                    assert(t.contains(rt[j - 1]));
                    let m = choose|m: int| 0 <= m < t.len() && t[m] == rt[j - 1];
                    assert(s[0].0 != s[m + 1].0);
                } else {
                    assert(r[i] == rt[i - 1] && r[j] == rt[j - 1]);
                }
            }
        }
    }
}

/// An insertion keeps the keys unique and never grows the cache beyond its
/// capacity.
pub proof fn lemma_cache_put_wf(s: Seq<(Seq<u8>, TokenView)>, k: Seq<u8>, v: TokenView, cap: nat)
    requires
        cache_unique(s),
        s.len() <= cap,
        cap >= 1,
    ensures
        cache_unique(spec_cache_put(s, k, v, cap)),
        spec_cache_put(s, k, v, cap).len() <= cap,
        cache_has(spec_cache_put(s, k, v, cap), k),
    decreases s.len(),
{
    let r = spec_cache_put(s, k, v, cap);
    if cache_has(s, k) {
        lemma_remove_key_effect(s, k);
        lemma_remove_key_unique(s, k);
        let base = remove_key(s, k);
        assert forall|i: int, j: int| 0 <= i < j < r.len() implies (#[trigger] r[i]).0
            != (#[trigger] r[j]).0 by {
            if j == r.len() - 1 {
                assert(base.contains(base[i]));
            }
        }
        assert(r[r.len() - 1].0 == k);
    } else if s.len() >= cap {
        let t = s.drop_first();
        assert forall|i: int, j: int| 0 <= i < j < r.len() implies (#[trigger] r[i]).0
            != (#[trigger] r[j]).0 by {
            if j == r.len() - 1 {
                assert(r[i] == s[i + 1]);
                assert(s[i + 1].0 != k);
            } else {
                assert(s[i + 1].0 != s[j + 1].0);
            }
        }
        assert(r[r.len() - 1].0 == k);
    } else {
        assert forall|i: int, j: int| 0 <= i < j < r.len() implies (#[trigger] r[i]).0
            != (#[trigger] r[j]).0 by {
            if j == r.len() - 1 {
                assert(r[i] == s[i]);
                assert(s[i].0 != k);
            }
        }
        assert(r[r.len() - 1].0 == k);
    }
}

// ---------------------------------------------------------------------------
// Trusted wrappers around the cache's methods
// ---------------------------------------------------------------------------

/// Relies on lru::LruCache::new: a cache that is empty and holds at most
/// `cap` entries.
#[verifier::external_body]
fn lru_new(cap: usize) -> (r: lru::LruCache<Vec<u8>, TokenRecord>)
    requires
        cap >= 1,
    ensures
        lru_entries(r) == Seq::<(Seq<u8>, TokenView)>::empty(),
        lru_cap(r) == cap,
{
    lru::LruCache::new(core::num::NonZeroUsize::new(cap).unwrap())
}

/// Relies on lru::LruCache::put: an existing key has its value replaced and
/// becomes the most recently used; a fresh key is appended as most recently
/// used, evicting the least-recently-used entry when the cache is full.
#[verifier::external_body]
fn lru_put(c: &mut lru::LruCache<Vec<u8>, TokenRecord>, key: Vec<u8>, value: TokenRecord)
    ensures
        lru_cap(*final(c)) == lru_cap(*old(c)),
        lru_entries(*final(c)) == spec_cache_put(
            lru_entries(*old(c)),
            key@,
            value@,
            lru_cap(*old(c)),
        ),
{
    c.put(key, value);
}

/// Relies on lru::LruCache::pop: removes and returns the value under the key,
/// or returns nothing; the other entries keep their order.
#[verifier::external_body]
fn lru_pop(c: &mut lru::LruCache<Vec<u8>, TokenRecord>, key: &Vec<u8>) -> (r: Option<TokenRecord>)
    ensures
        lru_cap(*final(c)) == lru_cap(*old(c)),
        lru_entries(*final(c)) == remove_key(lru_entries(*old(c)), key@),
        match r {
            Some(t) => exists|i: int|
                0 <= i < lru_entries(*old(c)).len() && #[trigger] lru_entries(*old(c))[i] == (
                key@,
                t@,
                ),
            None => !cache_has(lru_entries(*old(c)), key@),
        },
{
    c.pop(key)
}

/// Relies on lru::LruCache::len: how many entries are live.
#[verifier::external_body]
fn lru_len(c: &lru::LruCache<Vec<u8>, TokenRecord>) -> (r: usize)
    ensures
        r == lru_entries(*c).len(),
{
    c.len()
}

/// Relies on rand::random: 32 bytes drawn from the thread-local generator.
#[verifier::external_body]
fn random_bytes_32() -> (r: Vec<u8>)
    ensures
        r@.len() == 32,
{
    rand::random::<[u8; 32]>().to_vec()
}

impl OneTimeCode {
    /// Mints a fresh code of 32 uniformly random bytes.
    pub fn random() -> (r: OneTimeCode)
        ensures
            r.wf(),
    {
        OneTimeCode { code: random_bytes_32() }
    }
}

// ---------------------------------------------------------------------------
// The verified cache around the wrappers
// ---------------------------------------------------------------------------

/// Bounded cache of live tokens, keyed by their one-time codes.
pub struct TokenCache {
    pub inner: lru::LruCache<Vec<u8>, TokenRecord>,
}

impl View for TokenCache {
    type V = Seq<(Seq<u8>, TokenView)>;

    open spec fn view(&self) -> Seq<(Seq<u8>, TokenView)> {
        lru_entries(self.inner)
    }
}

impl TokenCache {
    pub open spec fn wf(&self) -> bool {
        &&& cache_unique(self@)
        &&& self@.len() <= TOKEN_CACHE_CAPACITY
        &&& lru_cap(self.inner) == TOKEN_CACHE_CAPACITY
    }

    pub fn new() -> (r: TokenCache)
        ensures
            r.wf(),
            r@ == Seq::<(Seq<u8>, TokenView)>::empty(),
    {
        TokenCache { inner: lru_new(TOKEN_CACHE_CAPACITY) }
    }

    /// Stores a token under its code, evicting the least-recently-used token
    /// when the cache is full.
    pub fn insert(&mut self, code: Vec<u8>, token: TokenRecord)
        requires
            old(self).wf(),
        ensures
            final(self).wf(),
            final(self)@ == spec_cache_put(old(self)@, code@, token@, TOKEN_CACHE_CAPACITY as nat),
    {
        proof {
            lemma_cache_put_wf(self@, code@, token@, TOKEN_CACHE_CAPACITY as nat);
        }
        lru_put(&mut self.inner, code, token);
    }

    /// Removes and returns the token under the code; the only read there is.
    pub fn take(&mut self, code: &Vec<u8>) -> (r: Option<TokenRecord>)
        requires
            old(self).wf(),
        ensures
            final(self).wf(),
            final(self)@ == remove_key(old(self)@, code@),
            !cache_has(final(self)@, code@),
            match r {
                Some(t) => cache_has(old(self)@, code@) && t@ == cache_get(old(self)@, code@),
                None => !cache_has(old(self)@, code@),
            },
    {
        let ghost s0 = self@;
        proof {
            lemma_remove_key_effect(s0, code@);
            lemma_remove_key_unique(s0, code@);
        }
        let r = lru_pop(&mut self.inner, code);
        proof {
            match &r {
                Some(t) => {
                    let i = choose|i: int| 0 <= i < s0.len() && #[trigger] s0[i] == (code@, t@);
                    let j = choose|j: int| 0 <= j < s0.len() && (#[trigger] s0[j]).0 == code@;
                    assert(cache_unique(s0));
                    assert(i == j);
                    assert(cache_get(s0, code@) == t@);
                },
                None => {},
            }
        }
        r
    }

    /// How many tokens are live.
    pub fn len(&self) -> (r: usize)
        ensures
            r == self@.len(),
    {
        lru_len(&self.inner)
    }
}

} // verus!
