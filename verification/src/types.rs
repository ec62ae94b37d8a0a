//! Core data model: identities and attribute pairs.
//!
//! An identity is an opaque, stable identifier of a cryptographic principal,
//! held as the bytes of its canonical textual form. Attribute names are short
//! printable strings and attribute values are opaque byte strings; both are
//! kept as raw bytes so that the store preserves exact byte content.

use vstd::prelude::*;

verus! {

/// Opaque, stable identifier of a cryptographic principal.
#[derive(Debug)]
pub struct IdentityId {
    pub bytes: Vec<u8>,
}

impl View for IdentityId {
    type V = Seq<u8>;

    open spec fn view(&self) -> Seq<u8> {
        self.bytes@
    }
}

impl IdentityId {
    pub fn new(bytes: Vec<u8>) -> (r: IdentityId)
        ensures
            r@ == bytes@,
    {
        IdentityId { bytes }
    }

    /// The raw bytes of the canonical form.
    pub fn as_bytes(&self) -> (r: &Vec<u8>)
        ensures
            r@ == self@,
    {
        &self.bytes
    }
}

impl Clone for IdentityId {
    fn clone(&self) -> (r: Self)
        ensures
            r@ == self@,
    {
        IdentityId { bytes: clone_bytes(&self.bytes) }
    }
}

/// One attribute: a name and an opaque value.
#[derive(Debug)]
pub struct Attr {
    pub name: Vec<u8>,
    pub value: Vec<u8>,
}

impl View for Attr {
    type V = (Seq<u8>, Seq<u8>);

    open spec fn view(&self) -> (Seq<u8>, Seq<u8>) {
        (self.name@, self.value@)
    }
}

impl Attr {
    pub fn new(name: Vec<u8>, value: Vec<u8>) -> (r: Attr)
        ensures
            r@ == (name@, value@),
    {
        Attr { name, value }
    }
}

impl Clone for Attr {
    fn clone(&self) -> (r: Self)
        ensures
            r@ == self@,
    {
        Attr { name: clone_bytes(&self.name), value: clone_bytes(&self.value) }
    }
}

/// The views of a sequence of attributes, in order.
pub open spec fn attrs_of(s: Seq<Attr>) -> Seq<(Seq<u8>, Seq<u8>)> {
    s.map_values(|a: Attr| a@)
}

/// Byte-for-byte copy of a byte vector.
pub fn clone_bytes(v: &Vec<u8>) -> (r: Vec<u8>)
    ensures
        r@ == v@,
{
    let r = v.clone();
    proof {
        assert(r@ =~= v@);
    }
    r
}

/// Byte-for-byte equality of two byte vectors.
pub fn bytes_eq(a: &Vec<u8>, b: &Vec<u8>) -> (r: bool)
    ensures
        r <==> a@ == b@,
{
    if a.len() != b.len() {
        proof {
            assert(a@.len() != b@.len());
        }
        return false;
    }
    let n = a.len();
    let mut i: usize = 0;
    while i < n
        invariant
            n == a@.len() == b@.len(),
            i <= n,
            forall|j: int| 0 <= j < i ==> a@[j] == b@[j],
        decreases n - i,
    {
        if a[i] != b[i] {
            return false;
        }
        i += 1;
    }
    proof {
        assert(a@ =~= b@);
    }
    true
}

/// Copy of an attribute list, preserving names, values and order.
pub fn clone_attrs(v: &Vec<Attr>) -> (r: Vec<Attr>)
    ensures
        attrs_of(r@) == attrs_of(v@),
{
    let mut r: Vec<Attr> = Vec::new();
    let mut i: usize = 0;
    while i < v.len()
        invariant
            i <= v@.len(),
            r@.len() == i,
            forall|j: int| 0 <= j < i ==> r@[j]@ == #[trigger] v@[j]@,
        decreases v@.len() - i,
    {
        r.push(v[i].clone());
        i += 1;
    }
    proof {
        assert(attrs_of(r@) =~~= attrs_of(v@));
    }
    r
}

} // verus!
