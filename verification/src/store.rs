//! Per-identity attribute store.
//!
//! Maps each identity to at most one live [`AttributesEntry`]; writes are
//! last-writer-wins and deletion is idempotent. The store is an in-memory
//! association list with unique keys; its mathematical view is a
//! `Map<Seq<u8>, EntryView>`. Durability across restarts is the host's
//! concern: the host may drain and refill the store around a run.

use vstd::prelude::*;
use vstd::pervasive::VecAdditionalExecFns;
use crate::types::{Attr, IdentityId, attrs_of, clone_attrs, bytes_eq};

verus! {

/// The record stored for one identity: its attributes, when they were
/// written, when they lapse, and which enroller vouched for them.
#[derive(Debug)]
pub struct AttributesEntry {
    pub attrs: Vec<Attr>,
    pub created_at: u64,
    pub expires_at: Option<u64>,
    pub attested_by: Option<IdentityId>,
}

pub struct EntryView {
    pub attrs: Seq<(Seq<u8>, Seq<u8>)>,
    pub created_at: u64,
    pub expires_at: Option<u64>,
    pub attested_by: Option<Seq<u8>>,
}

impl View for AttributesEntry {
    type V = EntryView;

    open spec fn view(&self) -> EntryView {
        EntryView {
            attrs: attrs_of(self.attrs@),
            created_at: self.created_at,
            expires_at: self.expires_at,
            attested_by: match self.attested_by {
                Some(id) => Some(id@),
                None => None,
            },
        }
    }
}

impl AttributesEntry {
    pub fn new(
        attrs: Vec<Attr>,
        created_at: u64,
        expires_at: Option<u64>,
        attested_by: Option<IdentityId>,
    ) -> (r: AttributesEntry)
        ensures
            r@ == (EntryView {
                attrs: attrs_of(attrs@),
                created_at,
                expires_at,
                attested_by: match attested_by {
                    Some(id) => Some(id@),
                    None => None,
                },
            }),
    {
        AttributesEntry { attrs, created_at, expires_at, attested_by }
    }

    pub fn clone_entry(&self) -> (r: AttributesEntry)
        ensures
            r@ == self@,
    {
        AttributesEntry {
            attrs: clone_attrs(&self.attrs),
            created_at: self.created_at,
            expires_at: self.expires_at,
            attested_by: match &self.attested_by {
                Some(id) => Some(id.clone()),
                None => None,
            },
        }
    }
}

/// The association list behind the store.
type Row = (IdentityId, AttributesEntry);

/// The map denoted by an association list; a later row wins over an earlier
/// one with the same key (the store never holds two such rows).
pub open spec fn rows_map(s: Seq<Row>) -> Map<Seq<u8>, EntryView>
    decreases s.len(),
{
    if s.len() == 0 {
        Map::empty()
    } else {
        rows_map(s.drop_last()).insert(s.last().0@, s.last().1@)
    }
}

/// No two rows share a key.
pub open spec fn rows_unique(s: Seq<Row>) -> bool {
    forall|i: int, j: int| 0 <= i < j < s.len() ==> (#[trigger] s[i]).0@ != (#[trigger] s[j]).0@
}

pub proof fn lemma_rows_map_contains(s: Seq<Row>, k: Seq<u8>)
    ensures
        rows_map(s).contains_key(k) <==> exists|i: int| 0 <= i < s.len() && (#[trigger] s[i]).0@
            == k,
    decreases s.len(),
{
    if s.len() > 0 {
        lemma_rows_map_contains(s.drop_last(), k);
        if rows_map(s).contains_key(k) {
            if s.last().0@ != k {
                let i = choose|i: int| 0 <= i < s.drop_last().len() && (#[trigger] s.drop_last()[i]).0@ == k;
                assert(s[i].0@ == k);
            }
        }
        if exists|i: int| 0 <= i < s.len() && (#[trigger] s[i]).0@ == k {
            let i = choose|i: int| 0 <= i < s.len() && (#[trigger] s[i]).0@ == k;
            if i < s.len() - 1 {
                assert(s.drop_last()[i].0@ == k);
            }
        }
    }
}

pub proof fn lemma_rows_map_lookup(s: Seq<Row>, i: int)
    requires
        rows_unique(s),
        0 <= i < s.len(),
    ensures
        rows_map(s).contains_key(s[i].0@),
        rows_map(s)[s[i].0@] == s[i].1@,
    decreases s.len(),
{
    if i == s.len() - 1 {
        lemma_rows_map_contains(s, s[i].0@);
    } else {
        lemma_rows_map_lookup(s.drop_last(), i);
        assert(s.drop_last()[i] == s[i]);
        assert(s.last().0@ != s[i].0@);
    }
}

pub proof fn lemma_rows_map_update(s: Seq<Row>, i: int, row: Row)
    requires
        rows_unique(s),
        0 <= i < s.len(),
        row.0@ == s[i].0@,
    ensures
        rows_map(s.update(i, row)) == rows_map(s).insert(row.0@, row.1@),
        rows_unique(s.update(i, row)),
    decreases s.len(),
{
    let t = s.update(i, row);
    if i == s.len() - 1 {
        assert(t.drop_last() =~= s.drop_last());
        assert(t.last() == row);
        assert(rows_map(t) =~= rows_map(s).insert(row.0@, row.1@));
    } else {
        assert(t.drop_last() =~= s.drop_last().update(i, row));
        assert(t.last() == s.last());
        lemma_rows_map_update(s.drop_last(), i, row);
        assert(s.last().0@ != row.0@);
        assert(rows_map(t) =~= rows_map(s).insert(row.0@, row.1@));
    }
    assert forall|a: int, b: int| 0 <= a < b < t.len() implies (#[trigger] t[a]).0@
        != (#[trigger] t[b]).0@ by {
        assert(s[a].0@ != s[b].0@);
    }
}

pub proof fn lemma_rows_map_push(s: Seq<Row>, row: Row)
    requires
        rows_unique(s),
        !rows_map(s).contains_key(row.0@),
    ensures
        rows_map(s.push(row)) == rows_map(s).insert(row.0@, row.1@),
        rows_unique(s.push(row)),
{
    let t = s.push(row);
    assert(t.drop_last() =~= s);
    assert(t.last() == row);
    lemma_rows_map_contains(s, row.0@);
    assert forall|a: int, b: int| 0 <= a < b < t.len() implies (#[trigger] t[a]).0@
        != (#[trigger] t[b]).0@ by {
        if b < s.len() {
            assert(s[a].0@ != s[b].0@);
        } else {
            assert(t[a] == s[a]);
        }
    }
}

pub proof fn lemma_rows_map_remove(s: Seq<Row>, i: int)
    requires
        rows_unique(s),
        0 <= i < s.len(),
    ensures
        rows_map(s.remove(i)) == rows_map(s).remove(s[i].0@),
        rows_unique(s.remove(i)),
    decreases s.len(),
{
    let t = s.remove(i);
    lemma_rows_map_lookup(s, i);
    if i == s.len() - 1 {
        assert(t =~= s.drop_last());
        lemma_rows_map_contains(s.drop_last(), s[i].0@);
        assert forall|idx: int| 0 <= idx < s.len() - 1 implies (#[trigger] s[idx]).0@ != s[
            s.len() - 1
        ].0@ by {}
        assert(!rows_map(s.drop_last()).contains_key(s[i].0@));
        assert(rows_map(t) =~= rows_map(s).remove(s[i].0@));
    } else {
        assert(t.drop_last() =~= s.drop_last().remove(i));
        assert(t.last() == s.last());
        lemma_rows_map_remove(s.drop_last(), i);
        assert(s.last().0@ != s[i].0@);
        assert(s.drop_last()[i] == s[i]);
        assert(rows_map(t) =~= rows_map(s).remove(s[i].0@));
    }
    assert forall|a: int, b: int| 0 <= a < b < t.len() implies (#[trigger] t[a]).0@
        != (#[trigger] t[b]).0@ by {
        let a0 = if a < i { a } else { a + 1 };
        let b0 = if b < i { b } else { b + 1 };
        assert(t[a] == s[a0] && t[b] == s[b0]);
        assert(s[a0].0@ != s[b0].0@);
    }
}

/// The attribute store: one live entry per identity.
pub struct AttributeStore {
    pub rows: Vec<Row>,
}

impl View for AttributeStore {
    type V = Map<Seq<u8>, EntryView>;

    open spec fn view(&self) -> Map<Seq<u8>, EntryView> {
        rows_map(self.rows@)
    }
}

impl AttributeStore {
    pub open spec fn wf(&self) -> bool {
        rows_unique(self.rows@)
    }

    pub fn new() -> (r: AttributeStore)
        ensures
            r.wf(),
            r@ == Map::<Seq<u8>, EntryView>::empty(),
    {
        AttributeStore { rows: Vec::new() }
    }

    /// The index of the row holding `id`, if any.
    fn find(&self, id: &IdentityId) -> (r: Option<usize>)
        ensures
            match r {
                Some(i) => i < self.rows@.len() && self.rows@[i as int].0@ == id@,
                None => forall|i: int|
                    0 <= i < self.rows@.len() ==> (#[trigger] self.rows@[i]).0@ != id@,
            },
    {
        let mut i: usize = 0;
        while i < self.rows.len()
            invariant
                i <= self.rows@.len(),
                forall|j: int| 0 <= j < i ==> (#[trigger] self.rows@[j]).0@ != id@,
            decreases self.rows@.len() - i,
        {
            if bytes_eq(&self.rows[i].0.bytes, &id.bytes) {
                return Some(i);
            }
            i += 1;
        }
        None
    }

    /// Upserts the entry for `id`; the last writer wins.
    pub fn put(&mut self, id: IdentityId, entry: AttributesEntry)
        requires
            old(self).wf(),
        ensures
            final(self).wf(),
            final(self)@ == old(self)@.insert(id@, entry@),
    {
        let ghost s0 = self.rows@;
        match self.find(&id) {
            Some(i) => {
                proof {
                    lemma_rows_map_update(s0, i as int, (id, entry));
                }
                self.rows.set(i, (id, entry));
            },
            None => {
                proof {
                    lemma_rows_map_contains(s0, id@);
                    lemma_rows_map_push(s0, (id, entry));
                }
                self.rows.push((id, entry));
            },
        }
    }

    /// The current entry for `id`, or absent.
    pub fn get(&self, id: &IdentityId) -> (r: Option<&AttributesEntry>)
        requires
            self.wf(),
        ensures
            match r {
                Some(e) => self@.contains_key(id@) && self@[id@] == e@,
                None => !self@.contains_key(id@),
            },
    {
        proof {
            lemma_rows_map_contains(self.rows@, id@);
        }
        match self.find(id) {
            Some(i) => {
                proof {
                    lemma_rows_map_lookup(self.rows@, i as int);
                }
                Some(&self.rows[i].1)
            },
            None => None,
        }
    }

    /// Removes the entry for `id`; does nothing when absent.
    pub fn delete(&mut self, id: &IdentityId)
        requires
            old(self).wf(),
        ensures
            final(self).wf(),
            final(self)@ == old(self)@.remove(id@),
    {
        let ghost s0 = self.rows@;
        proof {
            lemma_rows_map_contains(s0, id@);
        }
        match self.find(id) {
            Some(i) => {
                proof {
                    lemma_rows_map_remove(s0, i as int);
                }
                self.rows.remove(i);
            },
            None => {
                proof {
                    assert(rows_map(s0) =~= rows_map(s0).remove(id@));
                }
            },
        }
    }

    /// The identities holding a live entry, in storage order; used by hosts
    /// that walk the store.
    pub fn keys(&self) -> (r: Vec<IdentityId>)
        requires
            self.wf(),
        ensures
            r@.len() == self.rows@.len(),
            forall|i: int| 0 <= i < r@.len() ==> (#[trigger] r@[i])@ == self.rows@[i].0@,
            forall|k: Seq<u8>|
                self@.contains_key(k) <==> exists|i: int|
                    0 <= i < r@.len() && (#[trigger] r@[i])@ == k,
    {
        let mut out: Vec<IdentityId> = Vec::new();
        let mut i: usize = 0;
        while i < self.rows.len()
            invariant
                i <= self.rows@.len(),
                out@.len() == i,
                forall|j: int| 0 <= j < i ==> (#[trigger] out@[j])@ == self.rows@[j].0@,
            decreases self.rows@.len() - i,
        {
            out.push(self.rows[i].0.clone());
            i += 1;
        }
        proof {
            assert forall|k: Seq<u8>|
                self@.contains_key(k) <==> exists|j: int|
                    0 <= j < out@.len() && (#[trigger] out@[j])@ == k by {
                lemma_rows_map_contains(self.rows@, k);
                if self@.contains_key(k) {
                    let j = choose|j: int|
                        0 <= j < self.rows@.len() && (#[trigger] self.rows@[j]).0@ == k;
                    assert(out@[j]@ == k);
                }
                if exists|j: int| 0 <= j < out@.len() && (#[trigger] out@[j])@ == k {
                    let j = choose|j: int| 0 <= j < out@.len() && (#[trigger] out@[j])@ == k;
                    assert(self.rows@[j].0@ == k);
                }
            }
        }
        out
    }

    /// How many identities have a live entry.
    pub fn len(&self) -> (r: usize)
        requires
            self.wf(),
        ensures
            r == self.rows@.len(),
    {
        self.rows.len()
    }
}

} // verus!
