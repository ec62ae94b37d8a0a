//! Worker addresses, their textual form, and per-address mailboxes.
//!
//! An address pairs a one-byte transport type with opaque data bytes. Its
//! textual form is `type#data`; a string without a `#` names a local worker
//! (transport type 0), and more than one `#` is invalid. Random addresses
//! carry 16 random bytes as 32 lowercase hex digits.
//!
//! A mailbox controls the dispatch of messages for one address through a
//! base access policy; the richer policy algebra of the routing substrate
//! stays outside this crate.

use vstd::prelude::*;
use vstd::string::{StrSliceExecFns, StringSliceAdditionalSpecFns};
use vstd::utf8::{valid_utf8, decode_utf8};
use crate::types::{bytes_eq, clone_bytes};

verus! {

// ---------------------------------------------------------------------------
// Transport types
// ---------------------------------------------------------------------------

/// The transport type of an address; type 0 is the local worker transport.
#[derive(Clone, Copy, PartialEq, Eq, Structural, Hash, Debug)]
pub struct TransportType(pub u8);

impl TransportType {
    /// Create a new transport type.
    pub fn new(n: u8) -> (r: TransportType)
        ensures
            r.0 == n,
    {
        TransportType(n)
    }

    /// Is this the local transport type?
    pub fn is_local(self) -> (r: bool)
        ensures
            r == (self.0 == 0),
    {
        self.0 == 0
    }
}

// ---------------------------------------------------------------------------
// Trusted wrappers: UTF-8 reading, randomness, hex
// ---------------------------------------------------------------------------

/// Relies on str::from_utf8: succeeds exactly on valid UTF-8, yielding the
/// text those bytes encode.
#[verifier::external_body]
fn bytes_as_str(b: &Vec<u8>) -> (r: Option<&str>)
    ensures
        match r {
            Some(s) => valid_utf8(b@) && s@ == decode_utf8(b@),
            None => !valid_utf8(b@),
        },
{
    core::str::from_utf8(b.as_slice()).ok()
}

/// Relies on rand::random: 16 bytes drawn from the thread-local generator.
#[verifier::external_body]
fn random_bytes_16() -> (r: Vec<u8>)
    ensures
        r@.len() == 16,
{
    rand::random::<[u8; 16]>().to_vec()
}

/// The byte of one lowercase hex digit, for a value below 16.
pub open spec fn hex_digit_byte(n: u8) -> u8 {
    if n < 10 {
        (48 + n) as u8
    } else {
        (87 + n) as u8
    }
}

/// The lowercase hex encoding of a byte string: two digits per byte, high
/// nibble first.
pub open spec fn hex_bytes_of(b: Seq<u8>) -> Seq<u8> {
    Seq::new(
        2 * b.len(),
        |i: int|
            if i % 2 == 0 {
                hex_digit_byte(b[i / 2] >> 4)
            } else {
                hex_digit_byte(b[i / 2] & 0xf)
            },
    )
}

/// Relies on hex::encode: two lowercase hex digits for each byte, high
/// nibble first.
#[verifier::external_body]
fn hex_encode_bytes(b: &Vec<u8>) -> (r: Vec<u8>)
    ensures
        r@ == hex_bytes_of(b@),
{
    hex::encode(b.as_slice()).into_bytes()
}

// ---------------------------------------------------------------------------
// Parsing the textual form
// ---------------------------------------------------------------------------

pub const HASH_BYTE: u8 = 35;

pub open spec fn is_dec_digit(c: u8) -> bool {
    48 <= c <= 57
}

/// The integer named by a string of decimal digits.
pub open spec fn dec_int(s: Seq<u8>) -> int
    decreases s.len(),
{
    if s.len() == 0 {
        0
    } else {
        dec_int(s.drop_last()) * 10 + (s.last() - 48)
    }
}

/// The digits proper: an optional leading `+` is stripped.
pub open spec fn strip_plus(s: Seq<u8>) -> Seq<u8> {
    if s.len() > 0 && s[0] == 43 {
        s.drop_first()
    } else {
        s
    }
}

/// The value of a digit string: at least one decimal digit, at most 255.
pub open spec fn parse_u8_digits(t: Seq<u8>) -> Option<u8> {
    if t.len() == 0 || (exists|i: int| 0 <= i < t.len() && !is_dec_digit(#[trigger] t[i])) {
        None
    } else if dec_int(t) > 255 {
        None
    } else {
        Some(dec_int(t) as u8)
    }
}

/// What `u8` parsing accepts: an optional leading `+`, then one or more
/// decimal digits naming a value of at most 255.
pub open spec fn parse_u8_dec(s: Seq<u8>) -> Option<u8> {
    parse_u8_digits(strip_plus(s))
}

/// Why an address string failed to parse.
#[derive(Clone, Copy, PartialEq, Eq, Structural, Debug)]
pub enum AddressParseErrorKind {
    /// The text before the separator is not a transport type number.
    InvalidType,
    /// More than one `#` separator.
    MultipleSep,
}

/// What parsing an address string yields: transport type and data bytes.
pub open spec fn spec_parse_addr(b: Seq<u8>) -> Result<(u8, Seq<u8>), AddressParseErrorKind> {
    if !b.contains(HASH_BYTE) {
        Ok((0, b))
    } else {
        let i = choose|i: int| 0 <= i < b.len() && b[i] == HASH_BYTE && forall|j: int|
            0 <= j < i ==> b[j] != HASH_BYTE;
        let head = b.take(i);
        let tail = b.skip(i + 1);
        if tail.contains(HASH_BYTE) {
            Err(AddressParseErrorKind::MultipleSep)
        } else {
            match parse_u8_dec(head) {
                Some(n) => Ok((n, tail)),
                None => Err(AddressParseErrorKind::InvalidType),
            }
        }
    }
}

/// An error which is returned when address parsing from string fails.
#[derive(Clone, Copy, PartialEq, Eq, Structural, Debug)]
pub struct AddressParseError {
    pub kind: AddressParseErrorKind,
}

impl AddressParseError {
    /// Create new address parse error instance.
    pub fn new(kind: AddressParseErrorKind) -> (r: Self)
        ensures
            r.kind == kind,
    {
        AddressParseError { kind }
    }

    /// Return the cause of the address parsing failure.
    pub fn kind(&self) -> (r: &AddressParseErrorKind)
        ensures
            r == self.kind,
    {
        &self.kind
    }
}

// ---------------------------------------------------------------------------
// Addresses
// ---------------------------------------------------------------------------

/// A generic address: a transport type and opaque data bytes.
#[derive(Debug)]
pub struct Address {
    pub tt: TransportType,
    pub inner: Vec<u8>,
}

pub struct AddrView {
    pub tt: u8,
    pub data: Seq<u8>,
}

impl View for Address {
    type V = AddrView;

    open spec fn view(&self) -> AddrView {
        AddrView { tt: self.tt.0, data: self.inner@ }
    }
}

impl Clone for Address {
    fn clone(&self) -> (r: Self)
        ensures
            r@ == self@,
    {
        Address { tt: TransportType(self.tt.0), inner: clone_bytes(&self.inner) }
    }
}

impl PartialEq for Address {
    fn eq(&self, other: &Self) -> (r: bool) {
        self.tt.0 == other.tt.0 && bytes_eq(&self.inner, &other.inner)
    }
}

impl Eq for Address {

}

impl vstd::std_specs::cmp::PartialEqSpecImpl for Address {
    open spec fn obeys_eq_spec() -> bool {
        true
    }

    open spec fn eq_spec(&self, other: &Self) -> bool {
        self@ == other@
    }
}

impl Address {
    /// Creates a new address from separate transport type and data parts.
    pub fn new(tt: TransportType, data: &str) -> (r: Address)
        ensures
            r@.tt == tt.0,
            r@.data == data.spec_bytes(),
    {
        Address { tt, inner: data.as_bytes_vec() }
    }

    /// Parses an address from a string: `type#data`, or bare data for the
    /// local transport; says exactly why a string is refused.
    pub fn parse(s: &str) -> (r: Result<Address, AddressParseError>)
        ensures
            match r {
                Ok(a) => spec_parse_addr(s.spec_bytes()) == Ok::<
                    (u8, Seq<u8>),
                    AddressParseErrorKind,
                >((a@.tt, a@.data)),
                Err(e) => spec_parse_addr(s.spec_bytes()) == Err::<
                    (u8, Seq<u8>),
                    AddressParseErrorKind,
                >(e.kind),
            },
    {
        let b = s.as_bytes_vec();
        let ghost bs = b@;
        // find the first separator, and refuse a second one
        let mut first: Option<usize> = None;
        let mut i: usize = 0;
        while i < b.len()
            invariant
                i <= bs.len(),
                bs == b@,
                bs == s.spec_bytes(),
                match first {
                    Some(f) => f < i && bs[f as int] == HASH_BYTE && (forall|j: int|
                        0 <= j < f ==> bs[j] != HASH_BYTE) && (forall|j: int|
                        f < j < i ==> bs[j] != HASH_BYTE),
                    None => forall|j: int| 0 <= j < i ==> bs[j] != HASH_BYTE,
                },
            decreases bs.len() - i,
        {
            if b[i] == HASH_BYTE {
                match first {
                    None => {
                        first = Some(i);
                    },
                    Some(_) => {
                        proof {
                            assert(bs.contains(HASH_BYTE));
                            let f0 = choose|f: int|
                                0 <= f < bs.len() && bs[f] == HASH_BYTE && forall|j: int|
                                    0 <= j < f ==> bs[j] != HASH_BYTE;
                            assert(f0 == first.unwrap() as int);
                            assert(bs.skip(f0 + 1)[i - f0 - 1] == HASH_BYTE);
                            assert(bs.skip(f0 + 1).contains(HASH_BYTE));
                        }
                        return Err(
                            AddressParseError { kind: AddressParseErrorKind::MultipleSep },
                        );
                    },
                }
            }
            i += 1;
        }
        match first {
            None => {
                proof {
                    if bs.contains(HASH_BYTE) {
                        let k = choose|k: int| 0 <= k < bs.len() && bs[k] == HASH_BYTE;
                        assert(bs[k] != HASH_BYTE);
                    }
                }
                Ok(Address { tt: TransportType(0), inner: b })
            },
            Some(f) => {
                proof {
                    assert(bs[f as int] == HASH_BYTE);
                    assert(bs.contains(HASH_BYTE));
                    let f0 = choose|ff: int|
                        0 <= ff < bs.len() && bs[ff] == HASH_BYTE && forall|j: int|
                            0 <= j < ff ==> bs[j] != HASH_BYTE;
                    assert(f0 == f as int);
                    assert forall|j: int| 0 <= j < bs.skip(f + 1).len() implies #[trigger] bs.skip(
                        f + 1,
                    )[j] != HASH_BYTE by {
                        assert(bs.skip(f + 1)[j] == bs[f + 1 + j]);
                    }
                    if bs.skip(f + 1).contains(HASH_BYTE) {
                        let k = choose|k: int|
                            0 <= k < bs.skip(f + 1).len() && #[trigger] bs.skip(f + 1)[k]
                                == HASH_BYTE;
                        assert(false);
                    }
                }
                let head = vstd::slice::slice_to_vec(
                    vstd::slice::slice_subrange(b.as_slice(), 0, f),
                );
                let tail = vstd::slice::slice_to_vec(
                    vstd::slice::slice_subrange(b.as_slice(), f + 1, b.len()),
                );
                proof {
                    assert(head@ =~= bs.take(f as int));
                    assert(tail@ =~= bs.skip(f + 1));
                }
                match parse_u8_exec(&head) {
                    Some(n) => Ok(Address { tt: TransportType(n), inner: tail }),
                    None => Err(
                        AddressParseError { kind: AddressParseErrorKind::InvalidType },
                    ),
                }
            },
        }
    }

    /// Parses an address from a string; the caller owes a valid one.
    pub fn from_string(s: &str) -> (r: Address)
        requires
            spec_parse_addr(s.spec_bytes()) is Ok,
        ensures
            spec_parse_addr(s.spec_bytes()) == Ok::<(u8, Seq<u8>), AddressParseErrorKind>(
                (r@.tt, r@.data),
            ),
    {
        match Self::parse(s) {
            Ok(a) => a,
            Err(_) => {
                proof {
                    assert(false);
                }
                Address { tt: TransportType(0), inner: Vec::new() }
            },
        }
    }

    /// Get the string value of this address without the address type.
    pub fn without_type(&self) -> (r: &str)
        ensures
            valid_utf8(self@.data) ==> r@ == decode_utf8(self@.data),
            !valid_utf8(self@.data) ==> r@ == "<unprintable>"@,
    {
        match bytes_as_str(&self.inner) {
            Some(s) => s,
            None => "<unprintable>",
        }
    }

    /// Get address portion of this address.
    pub fn address(&self) -> (r: &str)
        ensures
            valid_utf8(self@.data) ==> r@ == decode_utf8(self@.data),
            !valid_utf8(self@.data) ==> r@ == "Invalid UTF-8"@,
    {
        match bytes_as_str(&self.inner) {
            Some(s) => s,
            None => "Invalid UTF-8",
        }
    }

    /// Generate a random address with the given transport type: 16 random
    /// bytes, hex-encoded.
    pub fn random(tt: TransportType) -> (r: Address)
        ensures
            r@.tt == tt.0,
            r@.data.len() == 32,
    {
        let raw = random_bytes_16();
        Address { tt, inner: hex_encode_bytes(&raw) }
    }

    /// Generate a random address with the local transport type.
    pub fn random_local() -> (r: Address)
        ensures
            r@.tt == 0,
            r@.data.len() == 32,
    {
        Self::random(TransportType(0))
    }

    /// Generate a random address with a debug tag and the local transport
    /// type; the tag is not recorded.
    pub fn random_tagged(_tag: &str) -> (r: Address)
        ensures
            r@.tt == 0,
            r@.data.len() == 32,
    {
        Self::random_local()
    }

    /// Get transport type of this address.
    pub fn transport_type(&self) -> (r: TransportType)
        ensures
            r.0 == self@.tt,
    {
        self.tt
    }

    /// Check if address is local.
    pub fn is_local(&self) -> (r: bool)
        ensures
            r == (self@.tt == 0),
    {
        self.tt.is_local()
    }
}

/// Parses a `u8` from decimal text: an optional `+`, then digits, at most
/// 255.
fn parse_u8_exec(s: &Vec<u8>) -> (r: Option<u8>)
    ensures
        r == parse_u8_dec(s@),
{
    let ghost whole = s@;
    let start: usize = if s.len() > 0 && s[0] == 43 {
        1
    } else {
        0
    };
    let ghost t = strip_plus(whole);
    proof {
        assert(t.len() == whole.len() - start);
        assert(forall|j: int| 0 <= j < t.len() ==> t[j] == whole[start + j]);
    }
    if s.len() == start {
        return None;
    }
    let mut acc: u32 = 0;
    let mut i: usize = start;
    while i < s.len()
        invariant
            start <= i <= whole.len(),
            whole == s@,
            start <= 1,
            start == (if whole.len() > 0 && whole[0] == 43 {
                1int
            } else {
                0int
            }),
            t == strip_plus(whole),
            t.len() == whole.len() - start,
            forall|j: int| 0 <= j < t.len() ==> t[j] == whole[start + j],
            forall|j: int| 0 <= j < i - start ==> is_dec_digit(#[trigger] t[j]),
            acc == dec_int(t.take(i - start)),
            acc <= 255,
        decreases whole.len() - i,
    {
        let c = s[i];
        if c < 48 || c > 57 {
            proof {
                assert(t[i - start] == whole[i as int]);
                assert(!is_dec_digit(t[i - start]));
                assert(exists|j: int| 0 <= j < t.len() && !is_dec_digit(#[trigger] t[j]));
                assert(parse_u8_digits(t) is None);
            }
            return None;
        }
        proof {
            assert(t.take(i - start + 1).drop_last() =~= t.take(i - start));
            assert(t.take(i - start + 1).last() == t[i - start]);
        }
        acc = acc * 10 + ((c - 48) as u32);
        i += 1;
        if acc > 255 {
            proof {
                if forall|j: int| 0 <= j < t.len() ==> is_dec_digit(#[trigger] t[j]) {
                    lemma_dec_int_monotone(t, (i - start) as int);
                    assert(dec_int(t) > 255);
                } else {
                    assert(exists|j: int| 0 <= j < t.len() && !is_dec_digit(#[trigger] t[j]));
                }
                assert(parse_u8_digits(t) is None);
            }
            return None;
        }
    }
    proof {
        assert(t.take(t.len() as int) =~= t);
    }
    Some(acc as u8)
}

/// A longer digit string names at least as large a value.
proof fn lemma_dec_int_monotone(t: Seq<u8>, k: int)
    requires
        0 <= k <= t.len(),
        forall|j: int| 0 <= j < t.len() ==> is_dec_digit(#[trigger] t[j]),
    ensures
        dec_int(t) >= dec_int(t.take(k)),
        dec_int(t) >= 0,
    decreases t.len() - k,
{
    if k == t.len() {
        assert(t.take(k) =~= t);
        lemma_dec_int_nonneg(t);
    } else {
        lemma_dec_int_monotone(t, k + 1);
        assert(t.take(k + 1).drop_last() =~= t.take(k));
        assert(t.take(k + 1).last() == t[k]);
        lemma_dec_int_nonneg(t.take(k));
        assert(dec_int(t.take(k + 1)) == dec_int(t.take(k)) * 10 + (t[k] - 48));
    }
}

proof fn lemma_dec_int_nonneg(t: Seq<u8>)
    requires
        forall|j: int| 0 <= j < t.len() ==> is_dec_digit(#[trigger] t[j]),
    ensures
        dec_int(t) >= 0,
    decreases t.len(),
{
    if t.len() > 0 {
        assert forall|j: int| 0 <= j < t.drop_last().len() implies is_dec_digit(
            #[trigger] t.drop_last()[j],
        ) by {
            assert(t.drop_last()[j] == t[j]);
        }
        lemma_dec_int_nonneg(t.drop_last());
    }
}

// ---------------------------------------------------------------------------
// Mailboxes
// ---------------------------------------------------------------------------

/// A message moving between two addresses, as access control sees it.
pub struct RelayMessage {
    pub source: Address,
    pub destination: Address,
}

/// A base access-control policy for one direction of a mailbox.
#[derive(Clone, Copy, PartialEq, Eq, Structural, Debug)]
pub enum AccessPolicy {
    DenyAll,
    AllowAll,
}

impl AccessPolicy {
    /// Whether this policy lets a message through.
    pub fn is_authorized(&self, _msg: &RelayMessage) -> (r: bool)
        ensures
            r == (self is AllowAll),
    {
        match self {
            AccessPolicy::AllowAll => true,
            AccessPolicy::DenyAll => false,
        }
    }
}

/// A `Mailbox` controls the dispatch of incoming messages for a particular
/// [`Address`].
pub struct Mailbox {
    pub address: Address,
    pub incoming: AccessPolicy,
    pub outgoing: AccessPolicy,
}

impl Mailbox {
    /// Create a new `Mailbox` with the given address and access policies.
    pub fn new(address: Address, incoming: AccessPolicy, outgoing: AccessPolicy) -> (r: Mailbox)
        ensures
            r.address@ == address@,
            r.incoming == incoming,
            r.outgoing == outgoing,
    {
        Mailbox { address, incoming, outgoing }
    }

    /// Create a new `Mailbox` that may neither send nor receive.
    pub fn deny_all(address: Address) -> (r: Mailbox)
        ensures
            r.address@ == address@,
            r.incoming is DenyAll,
            r.outgoing is DenyAll,
    {
        Mailbox { address, incoming: AccessPolicy::DenyAll, outgoing: AccessPolicy::DenyAll }
    }

    /// Return a reference to the address of this mailbox.
    pub fn address(&self) -> (r: &Address)
        ensures
            r@ == self.address@,
    {
        &self.address
    }

    /// Return the incoming access policy for this mailbox.
    pub fn incoming_access_control(&self) -> (r: &AccessPolicy)
        ensures
            r == self.incoming,
    {
        &self.incoming
    }

    /// Return the outgoing access policy for this mailbox.
    pub fn outgoing_access_control(&self) -> (r: &AccessPolicy)
        ensures
            r == self.outgoing,
    {
        &self.outgoing
    }
}

/// Whether some mailbox in the sequence has the address.
pub open spec fn has_mailbox(s: Seq<Mailbox>, a: AddrView) -> bool {
    exists|i: int| 0 <= i < s.len() && (#[trigger] s[i]).address@ == a
}

/// The first mailbox in the sequence with the address, if any.
pub open spec fn find_first(s: Seq<Mailbox>, a: AddrView) -> Option<Mailbox>
    decreases s.len(),
{
    if s.len() == 0 {
        None
    } else if s[0].address@ == a {
        Some(s[0])
    } else {
        find_first(s.drop_first(), a)
    }
}

/// The first match exists exactly when some match does.
pub proof fn lemma_find_first_has(s: Seq<Mailbox>, a: AddrView)
    ensures
        find_first(s, a) is Some <==> has_mailbox(s, a),
        find_first(s, a) matches Some(m) ==> m.address@ == a,
    decreases s.len(),
{
    if s.len() > 0 {
        lemma_find_first_has(s.drop_first(), a);
        if s[0].address@ == a {
        } else {
            if has_mailbox(s, a) {
                let i = choose|i: int| 0 <= i < s.len() && (#[trigger] s[i]).address@ == a;
                assert(s.drop_first()[i - 1] == s[i]);
            }
            if has_mailbox(s.drop_first(), a) {
                let i = choose|i: int|
                    0 <= i < s.drop_first().len() && (#[trigger] s.drop_first()[i]).address@ == a;
                assert(s[i + 1] == s.drop_first()[i]);
            }
        }
    }
}

/// A collection of mailboxes: one main, the rest additional.
pub struct Mailboxes {
    pub main_mailbox: Mailbox,
    pub additional_mailboxes: Vec<Mailbox>,
}

impl Mailboxes {
    /// Create a new collection from the given mailboxes.
    pub fn new(main_mailbox: Mailbox, additional_mailboxes: Vec<Mailbox>) -> (r: Mailboxes)
        ensures
            r.main_mailbox == main_mailbox,
            r.additional_mailboxes == additional_mailboxes,
    {
        Mailboxes { main_mailbox, additional_mailboxes }
    }

    /// The addresses of the additional mailboxes, in order.
    pub fn aliases(&self) -> (r: Vec<Address>)
        ensures
            r@.len() == self.additional_mailboxes@.len(),
            forall|i: int|
                0 <= i < r@.len() ==> (#[trigger] r@[i])@ == self.additional_mailboxes@[i].address@,
    {
        let mut out: Vec<Address> = Vec::new();
        let mut i: usize = 0;
        while i < self.additional_mailboxes.len()
            invariant
                i <= self.additional_mailboxes@.len(),
                out@.len() == i,
                forall|j: int|
                    0 <= j < i ==> (#[trigger] out@[j])@ == self.additional_mailboxes@[j].address@,
            decreases self.additional_mailboxes@.len() - i,
        {
            out.push(self.additional_mailboxes[i].address.clone());
            i += 1;
        }
        out
    }

    /// The main address of these mailboxes.
    pub fn main_address(&self) -> (r: Address)
        ensures
            r@ == self.main_mailbox.address@,
    {
        self.main_mailbox.address.clone()
    }

    /// Whether the given address is represented by these mailboxes.
    pub fn contains(&self, msg_addr: &Address) -> (r: bool)
        ensures
            r == (self.main_mailbox.address@ == msg_addr@ || has_mailbox(
                self.additional_mailboxes@,
                msg_addr@,
            )),
    {
        if self.main_mailbox.address.eq_addr(msg_addr) {
            true
        } else {
            match self.find_additional(msg_addr) {
                Some(_) => true,
                None => false,
            }
        }
    }

    /// The mailbox with the given address, if any; the main one wins.
    pub fn find_mailbox(&self, msg_addr: &Address) -> (r: Option<&Mailbox>)
        ensures
            match r {
                Some(m) => self.spec_mailbox_for(msg_addr@) == Some(*m) && m.address@ == msg_addr@,
                None => self.spec_mailbox_for(msg_addr@) is None,
            },
    {
        if self.main_mailbox.address.eq_addr(msg_addr) {
            Some(&self.main_mailbox)
        } else {
            self.find_additional(msg_addr)
        }
    }

    /// The additional mailbox with the given address, if any; the first
    /// match wins.
    fn find_additional(&self, msg_addr: &Address) -> (r: Option<&Mailbox>)
        ensures
            match r {
                Some(m) => find_first(self.additional_mailboxes@, msg_addr@) == Some(*m)
                    && m.address@ == msg_addr@ && has_mailbox(
                    self.additional_mailboxes@,
                    msg_addr@,
                ),
                None => !has_mailbox(self.additional_mailboxes@, msg_addr@) && find_first(
                    self.additional_mailboxes@,
                    msg_addr@,
                ) is None,
            },
    {
        let ghost s = self.additional_mailboxes@;
        let mut i: usize = 0;
        proof {
            assert(s.skip(0) =~= s);
        }
        while i < self.additional_mailboxes.len()
            invariant
                i <= s.len(),
                s == self.additional_mailboxes@,
                forall|j: int| 0 <= j < i ==> (#[trigger] s[j]).address@ != msg_addr@,
                find_first(s.skip(i as int), msg_addr@) == find_first(s, msg_addr@),
            decreases s.len() - i,
        {
            proof {
                assert(s.skip(i as int)[0] == s[i as int]);
                assert(s.skip(i as int).drop_first() =~= s.skip(i + 1));
            }
            if self.additional_mailboxes[i].address.eq_addr(msg_addr) {
                proof {
                    assert(has_mailbox(s, msg_addr@));
                }
                return Some(&self.additional_mailboxes[i]);
            }
            i += 1;
        }
        proof {
            assert(s.skip(s.len() as int) =~= Seq::<Mailbox>::empty());
            lemma_find_first_has(s, msg_addr@);
        }
        None
    }

    /// Whether a message for one of these addresses may be delivered: the
    /// destination mailbox's incoming policy decides, and an address with
    /// no mailbox is refused.
    pub fn is_incoming_authorized(&self, relay_msg: &RelayMessage) -> (r: bool)
        ensures
            r == (match self.spec_mailbox_for(relay_msg.destination@) {
                Some(m) => m.incoming is AllowAll,
                None => false,
            }),
    {
        match self.find_mailbox(&relay_msg.destination) {
            Some(mailbox) => mailbox.incoming.is_authorized(relay_msg),
            None => false,
        }
    }

    /// Whether these mailboxes may post a message from one of their own
    /// addresses: the source mailbox's outgoing policy decides.
    pub fn is_outgoing_authorized(&self, relay_msg: &RelayMessage) -> (r: bool)
        ensures
            r == (match self.spec_mailbox_for(relay_msg.source@) {
                Some(m) => m.outgoing is AllowAll,
                None => false,
            }),
    {
        match self.find_mailbox(&relay_msg.source) {
            Some(mailbox) => mailbox.outgoing.is_authorized(relay_msg),
            None => false,
        }
    }

    /// The mailbox that handles an address: the main one first, else the
    /// first matching additional one.
    pub open spec fn spec_mailbox_for(&self, a: AddrView) -> Option<Mailbox> {
        if self.main_mailbox.address@ == a {
            Some(self.main_mailbox)
        } else {
            find_first(self.additional_mailboxes@, a)
        }
    }

    /// All addresses represented by these mailboxes: the main one first.
    pub fn addresses(&self) -> (r: Vec<Address>)
        ensures
            r@.len() == 1 + self.additional_mailboxes@.len(),
            r@[0]@ == self.main_mailbox.address@,
            forall|i: int|
                1 <= i < r@.len() ==> (#[trigger] r@[i])@ == self.additional_mailboxes@[i
                    - 1].address@,
    {
        let mut out: Vec<Address> = Vec::new();
        out.push(self.main_mailbox.address.clone());
        let mut i: usize = 0;
        while i < self.additional_mailboxes.len()
            invariant
                i <= self.additional_mailboxes@.len(),
                out@.len() == 1 + i,
                out@[0]@ == self.main_mailbox.address@,
                forall|j: int|
                    1 <= j < out@.len() ==> (#[trigger] out@[j])@ == self.additional_mailboxes@[j
                        - 1].address@,
            decreases self.additional_mailboxes@.len() - i,
        {
            out.push(self.additional_mailboxes[i].address.clone());
            i += 1;
        }
        out
    }

    /// A reference to the main mailbox of this collection.
    pub fn main_mailbox(&self) -> (r: &Mailbox)
        ensures
            r == self.main_mailbox,
    {
        &self.main_mailbox
    }

    /// A reference to the additional mailboxes of this collection.
    pub fn additional_mailboxes(&self) -> (r: &Vec<Mailbox>)
        ensures
            r == self.additional_mailboxes,
    {
        &self.additional_mailboxes
    }
}

impl Address {
    /// Equality on the view: same transport type and data bytes.
    pub fn eq_addr(&self, other: &Address) -> (r: bool)
        ensures
            r == (self@ == other@),
    {
        let r = self.tt.0 == other.tt.0 && bytes_eq(&self.inner, &other.inner);
        proof {
            if self@ == other@ {
                assert(self.tt.0 == other.tt.0 && self.inner@ == other.inner@);
            }
        }
        r
    }
}

} // verus!
