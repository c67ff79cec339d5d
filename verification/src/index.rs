//! An index from 32-byte keys to positions, with lookups in expected
//! constant time.
//!
//! Keys are grouped by their first eight bytes in a hash map; a lookup reads
//! one group and compares the keys in it. Keys that are drawn at random
//! rarely share their first eight bytes, so groups hold one key as a rule.

use std::collections::HashMap;
use vstd::prelude::*;

use crate::text::bytes_equal;

verus! {

/// The number that the first eight bytes of a key spell, the first byte
/// counting most.
pub open spec fn key_prefix(key: Seq<u8>) -> u64 {
    (((((((key[0] as int * 256 + key[1]) * 256 + key[2]) * 256 + key[3]) * 256 + key[4]) * 256
        + key[5]) * 256 + key[6]) * 256 + key[7]) as u64
}

/// Whether a group holds the key at position `j`.
pub open spec fn held_at(group: Seq<([u8; 32], usize)>, key: Seq<u8>, j: int) -> bool {
    0 <= j < group.len() && group[j].0@ == key
}

/// An index from 32-byte keys to positions.
#[derive(Debug)]
pub struct KeyIndex {
    groups: HashMap<u64, Vec<([u8; 32], usize)>>,
}

impl KeyIndex {
    /// The group in which a key is looked for.
    closed spec fn group_of(&self, key: Seq<u8>) -> Seq<([u8; 32], usize)> {
        if self.groups@.contains_key(key_prefix(key)) {
            self.groups@[key_prefix(key)]@
        } else {
            Seq::empty()
        }
    }

    /// Whether the index holds a key.
    pub closed spec fn holds(&self, key: Seq<u8>) -> bool {
        exists|j: int| #[trigger] held_at(self.group_of(key), key, j)
    }

    /// The position recorded for a key that the index holds.
    pub closed spec fn position(&self, key: Seq<u8>) -> usize {
        self.group_of(key)[choose|j: int| #[trigger] held_at(self.group_of(key), key, j)].1
    }

    /// The index's invariant: every key lies in the group of its first
    /// eight bytes, and no group holds a key twice.
    pub closed spec fn wf(&self) -> bool {
        &&& forall|p: u64, j: int|
            self.groups@.contains_key(p) && 0 <= j < self.groups@[p]@.len() ==> key_prefix(
                (#[trigger] self.groups@[p]@[j]).0@,
            ) == p
        &&& forall|p: u64, i: int, j: int|
            self.groups@.contains_key(p) && 0 <= i < self.groups@[p]@.len() && 0 <= j
                < self.groups@[p]@.len() && i != j ==> (#[trigger] self.groups@[p]@[i]).0@ != (
            #[trigger] self.groups@[p]@[j]).0@
    }

    /// An empty index.
    pub fn new() -> (index: Self)
        ensures
            index.wf(),
            forall|key: Seq<u8>| !index.holds(key),
    {
        let index = KeyIndex { groups: HashMap::new() };
        assert forall|key: Seq<u8>| !index.holds(key) by {
            assert forall|j: int| !#[trigger] held_at(index.group_of(key), key, j) by {}
        }
        index
    }

    /// The first eight bytes of a key as a number.
    fn prefix_of(key: &[u8; 32]) -> (p: u64)
        ensures
            p == key_prefix(key@),
    {
        let mut p: u64 = 0;
        let mut i: usize = 0;
        while i < 8
            invariant
                i <= 8,
                i == 0 ==> p == 0,
                i == 1 ==> p == key@[0],
                i == 2 ==> p == key@[0] as int * 256 + key@[1],
                i == 3 ==> p == (key@[0] as int * 256 + key@[1]) * 256 + key@[2],
                i == 4 ==> p == ((key@[0] as int * 256 + key@[1]) * 256 + key@[2]) * 256 + key@[3],
                i == 5 ==> p == (((key@[0] as int * 256 + key@[1]) * 256 + key@[2]) * 256
                    + key@[3]) * 256 + key@[4],
                i == 6 ==> p == ((((key@[0] as int * 256 + key@[1]) * 256 + key@[2]) * 256
                    + key@[3]) * 256 + key@[4]) * 256 + key@[5],
                i == 7 ==> p == (((((key@[0] as int * 256 + key@[1]) * 256 + key@[2]) * 256
                    + key@[3]) * 256 + key@[4]) * 256 + key@[5]) * 256 + key@[6],
                i == 8 ==> p == ((((((key@[0] as int * 256 + key@[1]) * 256 + key@[2]) * 256
                    + key@[3]) * 256 + key@[4]) * 256 + key@[5]) * 256 + key@[6]) * 256 + key@[7],
            decreases 8 - i,
        {
            p = p * 256 + key[i] as u64;
            i += 1;
        }
        p
    }

    /// The position recorded for a key.
    pub fn get(&self, key: &[u8; 32]) -> (found: Option<usize>)
        requires
            self.wf(),
        ensures
            found == (if self.holds(key@) {
                Some(self.position(key@))
            } else {
                None
            }),
    {
        let p = Self::prefix_of(key);
        let group = match self.groups.get(&p) {
            Some(group) => group,
            None => {
                assert forall|j: int| !#[trigger] held_at(self.group_of(key@), key@, j) by {}
                return None;
            },
        };
        let mut j: usize = 0;
        while j < group.len()
            invariant
                j <= group.len(),
                self.wf(),
                p == key_prefix(key@),
                self.groups@.contains_key(p),
                *group == self.groups@[p],
                forall|k: int| 0 <= k < j ==> !#[trigger] held_at(group@, key@, k),
            decreases group.len() - j,
        {
            if bytes_equal(&group[j].0, key) {
                proof {
                    assert(held_at(self.group_of(key@), key@, j as int));
                }
                return Some(group[j].1);
            }
            j += 1;
        }
        assert forall|k: int| !#[trigger] held_at(self.group_of(key@), key@, k) by {}
        None
    }

    /// What adding a key to its group does to the index.
    proof fn lemma_inserted(before: &KeyIndex, after: &KeyIndex, key: [u8; 32], position: usize)
        requires
            before.wf(),
            !before.holds(key@),
            after.groups@.dom() == before.groups@.dom().insert(key_prefix(key@)),
            after.groups@[key_prefix(key@)]@ == before.group_of(key@).push((key, position)),
            forall|q: u64|
                q != key_prefix(key@) && before.groups@.contains_key(q)
                    ==> #[trigger] after.groups@[q]
                    == before.groups@[q],
        ensures
            after.wf(),
            after.holds(key@),
            after.position(key@) == position,
            forall|other: Seq<u8>|
                other != key@ ==> (#[trigger] after.holds(other)) == before.holds(other),
            forall|other: Seq<u8>|
                other != key@ && before.holds(other) ==> #[trigger] after.position(other)
                    == before.position(other),
    {
        let p = key_prefix(key@);
        let held = before.group_of(key@);
        let grown = after.groups@[p]@;
        assert forall|j: int| 0 <= j < held.len() implies grown[j] == held[j] && held[j].0@
            != key@ && key_prefix(held[j].0@) == p by {
            assert(!held_at(held, key@, j));
        }
        assert(after.wf()) by {
            assert forall|q: u64, j: int|
                after.groups@.contains_key(q) && 0 <= j < after.groups@[q]@.len()
                    implies key_prefix(
                (#[trigger] after.groups@[q]@[j]).0@,
            ) == q by {
            }
            assert forall|q: u64, i: int, j: int|
                after.groups@.contains_key(q) && 0 <= i < after.groups@[q]@.len() && 0 <= j
                    < after.groups@[q]@.len() && i != j implies (
            #[trigger] after.groups@[q]@[i]).0@ != (#[trigger] after.groups@[q]@[j]).0@ by {
            }
        }
        assert(held_at(after.group_of(key@), key@, held.len() as int));
        let c = choose|c: int| #[trigger] held_at(after.group_of(key@), key@, c);
        assert forall|other: Seq<u8>| other != key@ implies (#[trigger] after.holds(other))
            == before.holds(other) by {
            Self::lemma_other_key(before, after, key, position, other);
        }
        assert forall|other: Seq<u8>| other != key@ && before.holds(other) implies #[trigger]
            after.position(other) == before.position(other) by {
            Self::lemma_other_key(before, after, key, position, other);
        }
    }

    /// Adding a key leaves every other key as it was.
    proof fn lemma_other_key(
        before: &KeyIndex,
        after: &KeyIndex,
        key: [u8; 32],
        position: usize,
        other: Seq<u8>,
    )
        requires
            before.wf(),
            !before.holds(key@),
            other != key@,
            after.groups@.dom() == before.groups@.dom().insert(key_prefix(key@)),
            after.groups@[key_prefix(key@)]@ == before.group_of(key@).push((key, position)),
            forall|q: u64|
                q != key_prefix(key@) && before.groups@.contains_key(q)
                    ==> #[trigger] after.groups@[q]
                    == before.groups@[q],
        ensures
            after.holds(other) == before.holds(other),
            before.holds(other) ==> after.position(other) == before.position(other),
    {
        let p = key_prefix(key@);
        let was = before.group_of(other);
        let now = after.group_of(other);
        if key_prefix(other) == p {
            let held = before.group_of(key@);
            assert forall|j: int| held_at(now, other, j) == held_at(was, other, j) by {
            }
            if before.holds(other) {
                let j = choose|j: int| #[trigger] held_at(was, other, j);
                let k = choose|k: int| #[trigger] held_at(now, other, k);
            }
            if after.holds(other) {
                let k = choose|k: int| #[trigger] held_at(now, other, k);
            }
        }
    }

    /// Records the position of a key that the index does not hold yet.
    pub fn insert(&mut self, key: [u8; 32], position: usize)
        requires
            old(self).wf(),
            !old(self).holds(key@),
        ensures
            final(self).wf(),
            final(self).holds(key@),
            final(self).position(key@) == position,
            forall|other: Seq<u8>|
                other != key@ ==> (#[trigger] final(self).holds(other)) == old(self).holds(other),
            forall|other: Seq<u8>|
                other != key@ && old(self).holds(other) ==> #[trigger] final(self).position(other)
                    == old(self).position(other),
    {
        let p = Self::prefix_of(&key);
        let mut group = match self.groups.remove(&p) {
            Some(group) => group,
            None => Vec::new(),
        };
        group.push((key, position));
        self.groups.insert(p, group);
        proof {
            assert(self.groups@.dom() =~= old(self).groups@.dom().insert(p));
            Self::lemma_inserted(old(self), self, key, position);
        }
    }
}

} // verus!
