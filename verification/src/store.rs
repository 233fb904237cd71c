use vstd::prelude::*;
use crate::errors::VoteError;
use crate::keys::{StorageKey, KeyView, key_eq};
use crate::records::{Record, RecordView};

verus! {

/// One stored record together with the derived key that addresses it.
pub(crate) struct Entry {
    pub(crate) key: StorageKey,
    pub(crate) record: Record,
}

/// The keyed, create-exclusive, durable store the operations run against:
/// `get` reads, `create` fails on an occupied key, `update` fails on an
/// absent key. Its mathematical value is the map from derived keys to
/// records.
pub struct KeyedStore {
    entries: Vec<Entry>,
}

spec fn entries_map(s: Seq<Entry>) -> Map<KeyView, RecordView>
    decreases s.len(),
{
    if s.len() == 0 {
        Map::empty()
    } else {
        entries_map(s.drop_last()).insert(s.last().key@, s.last().record@)
    }
}

spec fn keys_unique(s: Seq<Entry>) -> bool {
    forall|i: int, j: int| 0 <= i < j < s.len() ==> s[i].key@ != s[j].key@
}

/// A key is in the map exactly when some entry carries it.
proof fn lemma_entries_map_contains(s: Seq<Entry>, k: KeyView)
    ensures
        entries_map(s).contains_key(k) <==> exists|i: int| 0 <= i < s.len() && s[i].key@ == k,
    decreases s.len(),
{
    if s.len() > 0 {
        lemma_entries_map_contains(s.drop_last(), k);
        if s.last().key@ == k {
            assert(s[s.len() - 1].key@ == k);
        } else if entries_map(s).contains_key(k) {
            let i = choose|i: int| 0 <= i < s.drop_last().len() && s.drop_last()[i].key@ == k;
            assert(s[i].key@ == k);
        } else if exists|i: int| 0 <= i < s.len() && s[i].key@ == k {
            let i = choose|i: int| 0 <= i < s.len() && s[i].key@ == k;
            assert(s.drop_last()[i].key@ == k);
        }
    }
}

/// Under unique keys, each entry's record is the map's value at its key.
proof fn lemma_entries_map_index(s: Seq<Entry>, i: int)
    requires
        keys_unique(s),
        0 <= i < s.len(),
    ensures
        entries_map(s).contains_key(s[i].key@),
        entries_map(s)[s[i].key@] == s[i].record@,
    decreases s.len(),
{
    if i < s.len() - 1 {
        assert(keys_unique(s.drop_last()));
        lemma_entries_map_index(s.drop_last(), i);
        assert(s.drop_last()[i] == s[i]);
        assert(s[i].key@ != s.last().key@);
    }
}

/// Under unique keys, the map has exactly one key per entry.
proof fn lemma_entries_map_len(s: Seq<Entry>)
    requires
        keys_unique(s),
    ensures
        entries_map(s).dom().finite(),
        entries_map(s).dom().len() == s.len(),
    decreases s.len(),
{
    if s.len() > 0 {
        assert(keys_unique(s.drop_last()));
        lemma_entries_map_len(s.drop_last());
        lemma_entries_map_contains(s.drop_last(), s.last().key@);
        assert(forall|i: int|
            0 <= i < s.drop_last().len() ==> s[i].key@ != s.last().key@ && s.drop_last()[i]
                == s[i]);
        assert(!entries_map(s.drop_last()).contains_key(s.last().key@));
    }
}

/// Replacing one entry's record in place rewrites the map at that key alone.
proof fn lemma_entries_map_update(s: Seq<Entry>, i: int, e: Entry)
    requires
        keys_unique(s),
        0 <= i < s.len(),
        e.key@ == s[i].key@,
    ensures
        keys_unique(s.update(i, e)),
        entries_map(s.update(i, e)) == entries_map(s).insert(e.key@, e.record@),
    decreases s.len(),
{
    let s2 = s.update(i, e);
    assert(forall|j: int| 0 <= j < s.len() ==> s2[j].key@ == s[j].key@);
    if i == s.len() - 1 {
        assert(s2.drop_last() =~= s.drop_last());
        assert(entries_map(s2) == entries_map(s.drop_last()).insert(e.key@, e.record@));
        assert(entries_map(s.drop_last()).insert(s.last().key@, s.last().record@).insert(
            e.key@,
            e.record@,
        ) =~= entries_map(s.drop_last()).insert(e.key@, e.record@));
    } else {
        assert(keys_unique(s.drop_last()));
        assert(s2.drop_last() =~= s.drop_last().update(i, e));
        lemma_entries_map_update(s.drop_last(), i, e);
        assert(entries_map(s2) == entries_map(s.drop_last()).insert(e.key@, e.record@).insert(
            s.last().key@,
            s.last().record@,
        ));
        assert(e.key@ != s.last().key@);
        assert(entries_map(s.drop_last()).insert(e.key@, e.record@).insert(
            s.last().key@,
            s.last().record@,
        ) =~= entries_map(s.drop_last()).insert(s.last().key@, s.last().record@).insert(
            e.key@,
            e.record@,
        ));
    }
}

impl View for KeyedStore {
    type V = Map<KeyView, RecordView>;

    closed spec fn view(&self) -> Map<KeyView, RecordView> {
        entries_map(self.entries@)
    }
}

impl KeyedStore {
    /// Keys are pairwise distinct, so each derived key addresses at most one
    /// record.
    pub closed spec fn wf(self) -> bool {
        keys_unique(self.entries@)
    }

    /// A well-formed store holds finitely many records, at most one per
    /// possible entry slot.
    pub proof fn lemma_dom_bounded(&self)
        requires
            self.wf(),
        ensures
            self@.dom().finite(),
            self@.dom().len() <= usize::MAX,
    {
        broadcast use vstd::std_specs::vec::axiom_spec_len;

        lemma_entries_map_len(self.entries@);
        assert(self.entries@.len() == vstd::std_specs::vec::spec_vec_len(&self.entries));
    }

    /// Creates an empty store.
    pub fn empty() -> (s: Self)
        ensures
            s.wf(),
            s@ == Map::<KeyView, RecordView>::empty(),
    {
        KeyedStore { entries: Vec::new() }
    }

    /// Finds the position of the entry at the given key, if any.
    fn find(&self, key: &StorageKey) -> (r: Option<usize>)
        ensures
            match r {
                Some(i) => i < self.entries@.len() && self.entries@[i as int].key@ == key@,
                None => forall|i: int| 0 <= i < self.entries@.len() ==> self.entries@[i].key@ != key@,
            },
    {
        let mut i: usize = 0;
        while i < self.entries.len()
            invariant
                i <= self.entries@.len(),
                forall|j: int| 0 <= j < i ==> self.entries@[j].key@ != key@,
            decreases self.entries@.len() - i,
        {
            if key_eq(&self.entries[i].key, key) {
                return Some(i);
            }
            i += 1;
        }
        None
    }

    /// Reads the record at a derived key: `Some` exactly when the key is
    /// occupied, and then the record the map holds there.
    pub fn get(&self, key: &StorageKey) -> (r: Option<&Record>)
        requires
            self.wf(),
        ensures
            match r {
                Some(record) => self@.contains_key(key@) && record@ == self@[key@],
                None => !self@.contains_key(key@),
            },
    {
        proof {
            lemma_entries_map_contains(self.entries@, key@);
        }
        match self.find(key) {
            Some(i) => {
                proof {
                    lemma_entries_map_index(self.entries@, i as int);
                }
                Some(&self.entries[i].record)
            },
            None => None,
        }
    }

    /// Create-exclusive write: stores the record at the key if the key is
    /// free, and refuses an occupied key with `AlreadyExists`, leaving the
    /// store unchanged.
    pub fn create(&mut self, key: StorageKey, record: Record) -> (r: Result<(), VoteError>)
        requires
            old(self).wf(),
        ensures
            final(self).wf(),
            old(self)@.contains_key(key@) ==> r === Err(VoteError::AlreadyExists) && final(self)@
                == old(self)@,
            !old(self)@.contains_key(key@) ==> r === Ok(()) && final(self)@ == old(self)@.insert(
                key@,
                record@,
            ),
    {
        proof {
            lemma_entries_map_contains(self.entries@, key@);
        }
        match self.find(&key) {
            Some(_) => Err(VoteError::AlreadyExists),
            None => {
                let ghost s0 = self.entries@;
                self.entries.push(Entry { key, record });
                proof {
                    assert(self.entries@.drop_last() =~= s0);
                }
                Ok(())
            },
        }
    }

    /// Must-exist write: overwrites the record at an occupied key, and
    /// refuses an absent key with `NotFound`, leaving the store unchanged.
    pub fn update(&mut self, key: StorageKey, record: Record) -> (r: Result<(), VoteError>)
        requires
            old(self).wf(),
        ensures
            final(self).wf(),
            !old(self)@.contains_key(key@) ==> r === Err(VoteError::NotFound) && final(self)@
                == old(self)@,
            old(self)@.contains_key(key@) ==> r === Ok(()) && final(self)@ == old(self)@.insert(
                key@,
                record@,
            ),
    {
        proof {
            lemma_entries_map_contains(self.entries@, key@);
        }
        match self.find(&key) {
            None => Err(VoteError::NotFound),
            Some(i) => {
                let ghost s0 = self.entries@;
                let replacement = Entry { key, record };
                proof {
                    lemma_entries_map_update(s0, i as int, replacement);
                }
                self.entries.set(i, replacement);
                Ok(())
            },
        }
    }
}

} // verus!
