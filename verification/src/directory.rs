//! Enroller allow-list.
//!
//! A textual document — a JSON object whose keys are identities in canonical
//! string form and whose values are human metadata — names the identities
//! permitted to enroll others. Presence of a key is the sole authorization
//! signal, so only the keys are kept. The configuration input is interpreted
//! dually: it is parsed as a document first, and on parse failure it is taken
//! as a filesystem path whose contents are that document; the host reads the
//! file and hands the text back.

use vstd::prelude::*;
use crate::types::{IdentityId, bytes_eq};

verus! {

/// The members of the JSON object document: the UTF-8 bytes of each top-level
/// key, in the document's canonical (sorted) key order; nothing when the text
/// is not a JSON object.
pub uninterp spec fn enroller_doc_members(s: Seq<char>) -> Option<Seq<Seq<u8>>>;

/// Relies on serde_json::from_str: parses the text as a JSON object with
/// arbitrary values and hands back its keys in sorted order; the result
/// depends on the text alone.
#[verifier::external_body]
fn parse_enroller_doc_raw(s: &str) -> (r: Option<Vec<Vec<u8>>>)
    ensures
        enroller_doc_members(s@) == (match r {
            Some(keys) => Some(keys.deep_view()),
            None => None::<Seq<Seq<u8>>>,
        }),
{
    serde_json::from_str::<serde_json::Map<String, serde_json::Value>>(s).ok().map(
        |m| m.into_iter().map(|(k, _v)| k.into_bytes()).collect(),
    )
}

/// The members named by a key sequence, as a set.
pub open spec fn member_set(keys: Seq<Seq<u8>>) -> Set<Seq<u8>> {
    Set::new(|k: Seq<u8>| exists|i: int| 0 <= i < keys.len() && keys[i] == k)
}

/// The identities a directory holds, as a set.
pub open spec fn id_set(s: Seq<IdentityId>) -> Set<Seq<u8>> {
    Set::new(|k: Seq<u8>| exists|i: int| 0 <= i < s.len() && s[i]@ == k)
}

/// Parses an enroller document and keeps its keys as identities.
pub fn parse_enroller_doc(doc: &str) -> (r: Option<Vec<IdentityId>>)
    ensures
        match r {
            Some(members) => {
                &&& enroller_doc_members(doc@) is Some
                &&& id_set(members@) == member_set(enroller_doc_members(doc@).unwrap())
            },
            None => enroller_doc_members(doc@) is None,
        },
{
    match parse_enroller_doc_raw(doc) {
        Some(mut keys) => {
            let ghost raw = keys.deep_view();
            let mut members: Vec<IdentityId> = Vec::new();
            let mut i: usize = 0;
            while i < keys.len()
                invariant
                    i <= keys@.len(),
                    raw == keys.deep_view(),
                    members@.len() == i,
                    forall|j: int| 0 <= j < i ==> (#[trigger] members@[j])@ == raw[j],
                decreases keys@.len() - i,
            {
                proof {
                    assert(keys.deep_view()[i as int] == keys@[i as int]@);
                }
                let bytes = crate::types::clone_bytes(&keys[i]);
                members.push(IdentityId { bytes });
                i += 1;
            }
            proof {
                assert(raw.len() == keys@.len());
                assert forall|k: Seq<u8>|
                    id_set(members@).contains(k) == member_set(raw).contains(k) by {
                    if id_set(members@).contains(k) {
                        let j = choose|j: int| 0 <= j < members@.len() && members@[j]@ == k;
                        assert(raw[j] == k);
                    }
                    if member_set(raw).contains(k) {
                        let j = choose|j: int| 0 <= j < raw.len() && raw[j] == k;
                        assert(members@[j]@ == k);
                    }
                }
                assert(id_set(members@) =~= member_set(raw));
            }
            Some(members)
        },
        None => None,
    }
}

/// The allow-list of identities permitted to enroll others, with its optional
/// backing file and reload flag.
pub struct EnrollerDirectory {
    pub members: Vec<IdentityId>,
    pub source_path: Option<String>,
    pub reload: bool,
}

pub struct DirectoryView {
    pub members: Set<Seq<u8>>,
    pub source_path: Option<Seq<char>>,
    pub reload: bool,
}

impl View for EnrollerDirectory {
    type V = DirectoryView;

    open spec fn view(&self) -> DirectoryView {
        DirectoryView {
            members: id_set(self.members@),
            source_path: match self.source_path {
                Some(ref p) => Some(p@),
                None => None,
            },
            reload: self.reload,
        }
    }
}

/// What interpreting the configuration input yielded: a directory, or the
/// path the host must read.
pub enum EnrollerConfig {
    Ready(EnrollerDirectory),
    NeedsFile(String),
}

/// Interprets the configuration input: parsed as a document first; on parse
/// failure the input is a filesystem path, handed back for the host to read.
pub fn configure_enrollers(input: String, reload: bool) -> (r: EnrollerConfig)
    ensures
        match r {
            EnrollerConfig::Ready(d) => {
                &&& enroller_doc_members(input@) is Some
                &&& d@.members == member_set(enroller_doc_members(input@).unwrap())
                &&& d@.source_path is None
                &&& d@.reload == reload
            },
            EnrollerConfig::NeedsFile(p) => enroller_doc_members(input@) is None && p@ == input@,
        },
{
    match parse_enroller_doc(input.as_str()) {
        Some(members) => EnrollerConfig::Ready(
            EnrollerDirectory { members, source_path: None, reload },
        ),
        None => EnrollerConfig::NeedsFile(input),
    }
}

/// Builds the directory from the contents the host read at `path`. Errors of
/// this second attempt are the user-visible ones.
pub fn configure_enrollers_from_file(path: String, contents: &str, reload: bool) -> (r: Option<
    EnrollerDirectory,
>)
    ensures
        match r {
            Some(d) => {
                &&& enroller_doc_members(contents@) is Some
                &&& d@.members == member_set(enroller_doc_members(contents@).unwrap())
                &&& d@.source_path == Some(path@)
                &&& d@.reload == reload
            },
            None => enroller_doc_members(contents@) is None,
        },
{
    match parse_enroller_doc(contents) {
        Some(members) => Some(EnrollerDirectory { members, source_path: Some(path), reload }),
        None => None,
    }
}

impl EnrollerDirectory {
    /// A directory from an explicit member list, for hosts that assemble it
    /// themselves.
    pub fn new(members: Vec<IdentityId>, source_path: Option<String>, reload: bool) -> (r:
        EnrollerDirectory)
        ensures
            r@.members == id_set(members@),
            r@.reload == reload,
            r@.source_path == (match source_path {
                Some(p) => Some(p@),
                None => None::<Seq<char>>,
            }),
    {
        EnrollerDirectory { members, source_path, reload }
    }

    /// Membership is the sole authorization signal.
    pub fn contains(&self, id: &IdentityId) -> (r: bool)
        ensures
            r <==> self@.members.contains(id@),
    {
        let mut i: usize = 0;
        while i < self.members.len()
            invariant
                i <= self.members@.len(),
                forall|j: int| 0 <= j < i ==> (#[trigger] self.members@[j])@ != id@,
            decreases self.members@.len() - i,
        {
            if bytes_eq(&self.members[i].bytes, &id.bytes) {
                return true;
            }
            i += 1;
        }
        false
    }

    /// The path to re-read before each authorization check, when hot reload
    /// is configured.
    pub fn reload_path(&self) -> (r: Option<&String>)
        ensures
            match r {
                Some(p) => self@.reload && self@.source_path == Some(p@),
                None => !(self@.reload && self@.source_path is Some),
            },
    {
        if self.reload {
            match &self.source_path {
                Some(p) => Some(p),
                None => None,
            }
        } else {
            None
        }
    }

    /// Replaces the members with those of a re-read document; on parse
    /// failure the prior members are retained and `false` comes back.
    pub fn apply_document(&mut self, doc: &str) -> (ok: bool)
        ensures
            final(self)@.source_path == old(self)@.source_path,
            final(self)@.reload == old(self)@.reload,
            match enroller_doc_members(doc@) {
                Some(keys) => ok && final(self)@.members == member_set(keys),
                None => !ok && final(self)@.members == old(self)@.members,
            },
    {
        match parse_enroller_doc(doc) {
            Some(members) => {
                self.members = members;
                true
            },
            None => false,
        }
    }
}

} // verus!
